use vstd::prelude::*;

verus! {

/// The plain sum of a byte sequence, without wrap-around.
pub open spec fn byte_sum(s: Seq<u8>) -> nat
    decreases s.len(),
{
    if s.len() == 0 {
        0
    } else {
        byte_sum(s.drop_last()) + s.last() as nat
    }
}

/// The 8-bit wrapping sum of a byte sequence.
pub open spec fn checksum_of(s: Seq<u8>) -> u8 {
    (byte_sum(s) % 256) as u8
}

/// Returns the sum of `bytes` modulo 256.
pub fn additive_checksum(bytes: &[u8]) -> (r: u8)
    ensures
        r == checksum_of(bytes@),
{
    let mut acc: u8 = 0;
    let mut k: usize = 0;
    while k < bytes.len()
        invariant
            k <= bytes@.len(),
            acc == checksum_of(bytes@.subrange(0, k as int)),
        decreases bytes@.len() - k,
    {
        proof {
            let s = bytes@.subrange(0, k as int + 1);
            assert(s.drop_last() =~= bytes@.subrange(0, k as int));
        }
        acc = ((acc as u16 + bytes[k] as u16) % 256) as u8;
        k += 1;
    }
    assert(bytes@.subrange(0, k as int) =~= bytes@);
    acc
}

/// The checksum of a sequence with one more byte is the old checksum plus that byte,
/// wrapping at 256.
pub proof fn lemma_checksum_push(s: Seq<u8>, b: u8)
    ensures
        checksum_of(s.push(b)) == (checksum_of(s) as nat + b as nat) % 256,
{
    assert(s.push(b).drop_last() =~= s);
}

/// A sequence followed by its own checksum passes the check: the checksum of all but the last
/// byte is the last byte.
pub proof fn lemma_checksum_validates(s: Seq<u8>)
    ensures
        ({
            let block = s.push(checksum_of(s));
            checksum_of(block.drop_last()) == block.last()
        }),
{
    assert(s.push(checksum_of(s)).drop_last() =~= s);
}

} // verus!
