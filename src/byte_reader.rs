use vstd::prelude::*;

verus! {

/// Why a read or a seek on a [`ByteReader`] failed.
#[derive(Debug, Clone, Copy, PartialEq, Eq, Structural)]
pub enum ReadError {
    /// Fewer bytes remain than the read asked for.
    UnexpectedEof,
    /// The seek target lies before the start, or past the largest position there is.
    InvalidSeek,
}

/// A seekable source of bytes held in memory.
///
/// As with a file, the position may pass the end of the data: seeking there succeeds, and
/// reading there fails.
pub struct ByteReader {
    bytes: Vec<u8>,
    pos: u64,
}

/// The unsigned integer that `s` encodes, least significant byte first.
pub open spec fn le_value(s: Seq<u8>) -> nat
    decreases s.len(),
{
    if s.len() == 0 {
        0
    } else {
        s[0] as nat + 256 * le_value(s.drop_first())
    }
}

impl ByteReader {
    pub closed spec fn data(&self) -> Seq<u8> {
        self.bytes@
    }

    pub closed spec fn pos(&self) -> nat {
        self.pos as nat
    }

    pub open spec fn wf(&self) -> bool {
        self.data().len() <= usize::MAX
    }

    /// The `n` bytes after the position; none where `n` is zero.
    pub open spec fn ahead(&self, n: int) -> Seq<u8> {
        if n == 0 {
            Seq::empty()
        } else {
            self.data().subrange(self.pos() as int, self.pos() + n)
        }
    }

    /// Whether `n` more bytes can be read: always for none, even past the end.
    pub open spec fn has(&self, n: int) -> bool {
        n == 0 || self.pos() + n <= self.data().len()
    }

    /// A reader at the start of `bytes`.
    pub fn new(bytes: Vec<u8>) -> (r: ByteReader)
        ensures
            r.wf(),
            r.data() == bytes@,
            r.pos() == 0,
    {
        let _ = bytes.len();
        ByteReader { bytes, pos: 0 }
    }

    /// The current position.
    pub fn position(&self) -> (r: u64)
        ensures
            r == self.pos(),
    {
        self.pos
    }

    /// The number of bytes held.
    pub fn len(&self) -> (r: usize)
        ensures
            r == self.data().len(),
    {
        self.bytes.len()
    }

    /// The number of bytes after the position; none where the position is past the end.
    pub fn remaining(&self) -> (r: u64)
        requires
            self.wf(),
        ensures
            r == (if self.pos() <= self.data().len() {
                self.data().len() - self.pos()
            } else {
                0
            }),
    {
        let len = self.bytes.len() as u64;
        if self.pos <= len {
            len - self.pos
        } else {
            0
        }
    }

    /// Moves to `target`, which may lie past the end of the data.
    pub fn seek(&mut self, target: u64)
        requires
            old(self).wf(),
        ensures
            final(self).wf(),
            final(self).data() == old(self).data(),
            final(self).pos() == target,
    {
        self.pos = target;
    }

    /// Reads exactly `buf.len()` bytes into `buf`, or fails leaving the reader as it was. An
    /// empty read succeeds at any position.
    pub fn read_exact(&mut self, buf: &mut [u8]) -> (r: Result<(), ReadError>)
        requires
            old(self).wf(),
        ensures
            final(self).wf(),
            final(self).data() == old(self).data(),
            final(buf)@.len() == old(buf)@.len(),
            old(self).has(old(buf)@.len() as int) ==> r is Ok && final(buf)@ == old(self).ahead(
                old(buf)@.len() as int,
            ) && final(self).pos() == old(self).pos() + old(buf)@.len(),
            !old(self).has(old(buf)@.len() as int) ==> r == Err::<(), ReadError>(
                ReadError::UnexpectedEof,
            ) && final(self).pos() == old(self).pos() && final(buf)@ == old(buf)@,
    {
        let n = buf.len();
        if n == 0 {
            assert(buf@ =~= Seq::<u8>::empty());
            return Ok(());
        }
        let len = self.bytes.len();
        if self.pos > len as u64 || (len as u64) - self.pos < n as u64 {
            return Err(ReadError::UnexpectedEof);
        }
        assert(self.pos <= usize::MAX);
        let p = self.pos as usize;
        let mut k: usize = 0;
        while k < n
            invariant
                self.wf(),
                p == self.pos,
                n == buf@.len(),
                p + n <= self.bytes@.len(),
                p + n <= usize::MAX,
                k <= n,
                forall|t: int| 0 <= t < k ==> buf@[t] == self.bytes@[p + t],
            decreases n - k,
        {
            buf[k] = self.bytes[p + k];
            k += 1;
        }
        assert(buf@ =~= self.bytes@.subrange(p as int, p + n));
        self.pos = (p + n) as u64;
        Ok(())
    }
}

/// Reads a 32-bit little-endian integer.
pub fn le_u32(input: &mut ByteReader) -> (r: Result<u32, ReadError>)
    requires
        old(input).wf(),
    ensures
        final(input).wf(),
        final(input).data() == old(input).data(),
        old(input).has(4) ==> r == Ok::<u32, ReadError>(le_value(old(input).ahead(4)) as u32)
            && final(input).pos() == old(input).pos() + 4,
        !old(input).has(4) ==> r == Err::<u32, ReadError>(ReadError::UnexpectedEof)
            && final(input).pos() == old(input).pos(),
{
    let mut buf = [0u8; 4];
    input.read_exact(&mut buf)?;
    let v = buf[0] as u32 + 256 * (buf[1] as u32 + 256 * (buf[2] as u32 + 256 * (buf[3] as u32)));
    proof {
        reveal_with_fuel(le_value, 5);
    }
    Ok(v)
}

/// The value of three bytes read least significant first.
pub fn u24_from_le_bytes(bytes: [u8; 3]) -> (r: u32)
    ensures
        r == le_value(bytes@),
        r < 0x100_0000,
{
    proof {
        reveal_with_fuel(le_value, 4);
    }
    bytes[0] as u32 + 256 * (bytes[1] as u32 + 256 * (bytes[2] as u32))
}

/// Reads a 24-bit little-endian integer.
pub fn le_u24(input: &mut ByteReader) -> (r: Result<u32, ReadError>)
    requires
        old(input).wf(),
    ensures
        final(input).wf(),
        final(input).data() == old(input).data(),
        old(input).has(3) ==> r == Ok::<u32, ReadError>(le_value(old(input).ahead(3)) as u32)
            && final(input).pos() == old(input).pos() + 3,
        !old(input).has(3) ==> r == Err::<u32, ReadError>(ReadError::UnexpectedEof)
            && final(input).pos() == old(input).pos(),
{
    let mut buf = [0u8; 3];
    input.read_exact(&mut buf)?;
    Ok(u24_from_le_bytes(buf))
}

/// Reads a 16-bit little-endian integer.
pub fn le_u16(input: &mut ByteReader) -> (r: Result<u16, ReadError>)
    requires
        old(input).wf(),
    ensures
        final(input).wf(),
        final(input).data() == old(input).data(),
        old(input).has(2) ==> r == Ok::<u16, ReadError>(le_value(old(input).ahead(2)) as u16)
            && final(input).pos() == old(input).pos() + 2,
        !old(input).has(2) ==> r == Err::<u16, ReadError>(ReadError::UnexpectedEof)
            && final(input).pos() == old(input).pos(),
{
    let mut buf = [0u8; 2];
    input.read_exact(&mut buf)?;
    proof {
        reveal_with_fuel(le_value, 3);
    }
    Ok(buf[0] as u16 + 256 * (buf[1] as u16))
}

/// Reads one byte.
pub fn u8(input: &mut ByteReader) -> (r: Result<u8, ReadError>)
    requires
        old(input).wf(),
    ensures
        final(input).wf(),
        final(input).data() == old(input).data(),
        old(input).has(1) ==> r == Ok::<u8, ReadError>(old(input).data()[old(input).pos() as int])
            && final(input).pos() == old(input).pos() + 1,
        !old(input).has(1) ==> r == Err::<u8, ReadError>(ReadError::UnexpectedEof)
            && final(input).pos() == old(input).pos(),
{
    let mut buf = [0u8; 1];
    input.read_exact(&mut buf)?;
    Ok(buf[0])
}

/// Reads exactly `C` bytes.
pub fn take_const<const C: usize>(input: &mut ByteReader) -> (r: Result<[u8; C], ReadError>)
    requires
        old(input).wf(),
    ensures
        final(input).wf(),
        final(input).data() == old(input).data(),
        old(input).has(C as int) ==> r is Ok && r->Ok_0@ == old(input).ahead(C as int)
            && final(input).pos() == old(input).pos() + C,
        !old(input).has(C as int) ==> r == Err::<[u8; C], ReadError>(ReadError::UnexpectedEof)
            && final(input).pos() == old(input).pos(),
{
    let mut buf = [0u8; C];
    input.read_exact(&mut buf)?;
    Ok(buf)
}

/// Reads exactly `count` bytes.
pub fn take(count: usize, input: &mut ByteReader) -> (r: Result<Vec<u8>, ReadError>)
    requires
        old(input).wf(),
    ensures
        final(input).wf(),
        final(input).data() == old(input).data(),
        old(input).has(count as int) ==> r is Ok && r->Ok_0@ == old(input).ahead(count as int)
            && final(input).pos() == old(input).pos() + count,
        !old(input).has(count as int) ==> r == Err::<Vec<u8>, ReadError>(ReadError::UnexpectedEof)
            && final(input).pos() == old(input).pos(),
{
    let mut buf = vec![0u8; count];
    input.read_exact(buf.as_mut_slice())?;
    Ok(buf)
}

/// Moves the position by `count` bytes, forwards or backwards. The new position may lie past
/// the end of the data, but not before the start.
pub fn skip(count: i64, input: &mut ByteReader) -> (r: Result<(), ReadError>)
    requires
        old(input).wf(),
    ensures
        final(input).wf(),
        final(input).data() == old(input).data(),
        0 <= old(input).pos() + count <= u64::MAX ==> r is Ok && final(input).pos() == old(
            input,
        ).pos() + count,
        !(0 <= old(input).pos() + count <= u64::MAX) ==> r == Err::<(), ReadError>(
            ReadError::InvalidSeek,
        ) && final(input).pos() == old(input).pos(),
{
    let pos = input.position();
    if count >= 0 {
        let forward = count as u64;
        if forward <= u64::MAX - pos {
            input.seek(pos + forward);
            Ok(())
        } else {
            Err(ReadError::InvalidSeek)
        }
    } else {
        let backward = (-(count as i128)) as u64;
        if backward <= pos {
            input.seek(pos - backward);
            Ok(())
        } else {
            Err(ReadError::InvalidSeek)
        }
    }
}

} // verus!
