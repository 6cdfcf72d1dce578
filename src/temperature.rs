use vstd::prelude::*;
use vstd::string::StringSliceAdditionalSpecFns;

verus! {

/// How long a temperature reading stays valid, in nanoseconds: thirty seconds.
pub const READING_INTERVAL_NANOS: u128 = 30_000_000_000;

/// Why the sensor's text gives no temperature.
#[derive(Debug, PartialEq, Eq)]
pub enum TemperatureError {
    /// The text is not a temperature in whole degrees from 0 to 255.
    InvalidTemperature(String),
    /// The sensor reads zero: the display is powered off.
    PoweredOff,
}

/// The value of a sequence of ASCII decimal digits.
pub open spec fn digits_value(d: Seq<u8>) -> nat
    decreases d.len(),
{
    if d.len() == 0 {
        0
    } else {
        10 * digits_value(d.drop_last()) + (d.last() - 48) as nat
    }
}

/// Whether every byte of `d` is an ASCII decimal digit.
pub open spec fn all_digits(d: Seq<u8>) -> bool {
    forall|k: int| 0 <= k < d.len() ==> 48 <= #[trigger] d[k] <= 57
}

/// The digits of `s`: `s` without a leading `+`.
pub open spec fn unsigned_digits(s: Seq<u8>) -> Seq<u8> {
    if s.len() > 0 && s[0] == 43 {
        s.drop_first()
    } else {
        s
    }
}

/// The `u8` that the text `s` writes in decimal, as `u8`'s `from_str` reads it: an optional
/// `+`, then one or more digits, of value at most 255; no other byte.
pub open spec fn u8_text_value(s: Seq<u8>) -> Option<u8> {
    let d = unsigned_digits(s);
    if d.len() > 0 && all_digits(d) && digits_value(d) <= 255 {
        Some(digits_value(d) as u8)
    } else {
        None
    }
}

/// Whether a reading taken `elapsed_nanos` ago can still be used.
pub fn reading_is_fresh(elapsed_nanos: u128) -> (r: bool)
    ensures
        r == (elapsed_nanos < READING_INTERVAL_NANOS),
{
    elapsed_nanos < READING_INTERVAL_NANOS
}

/// The temperature in degrees Celsius that the sensor's text reports.
pub fn temperature_from_text(text: &str) -> (r: Result<u8, TemperatureError>)
    ensures
        u8_text_value(text.spec_bytes()) is Some && u8_text_value(text.spec_bytes())->Some_0 > 0
            ==> r == Ok::<u8, TemperatureError>(u8_text_value(text.spec_bytes())->Some_0),
        u8_text_value(text.spec_bytes()) == Some(0u8) ==> r == Err::<u8, TemperatureError>(
            TemperatureError::PoweredOff,
        ),
        u8_text_value(text.spec_bytes()) is None ==> (r matches Err(
            TemperatureError::InvalidTemperature(s),
        ) && s@ == text@),
{
    let bytes = text.as_bytes();
    let ghost s = bytes@;
    let start: usize = if bytes.len() > 0 && bytes[0] == 43 {
        1
    } else {
        0
    };
    let ghost d = s.subrange(start as int, s.len() as int);
    assert(d =~= unsigned_digits(s));
    if start == bytes.len() {
        return Err(TemperatureError::InvalidTemperature(text.to_owned()));
    }
    let mut value: u32 = 0;
    let mut too_big = false;
    let mut k: usize = start;
    while k < bytes.len()
        invariant
            bytes@ == s,
            d == s.subrange(start as int, s.len() as int),
            d == unsigned_digits(s),
            s == text.spec_bytes(),
            start <= k <= s.len(),
            all_digits(s.subrange(start as int, k as int)),
            !too_big ==> value == digits_value(s.subrange(start as int, k as int)) && value <= 255,
            too_big ==> digits_value(s.subrange(start as int, k as int)) > 255,
        decreases s.len() - k,
    {
        let c = bytes[k];
        let ghost before = s.subrange(start as int, k as int);
        let ghost after = s.subrange(start as int, k + 1);
        assert(after.drop_last() =~= before);
        if c < 48 || c > 57 {
            assert(d[k - start] == c);
            assert(!all_digits(d));
            assert(u8_text_value(s) is None);
            return Err(TemperatureError::InvalidTemperature(text.to_owned()));
        }
        if !too_big {
            value = value * 10 + (c - 48) as u32;
            if value > 255 {
                too_big = true;
            }
        }
        assert(all_digits(after)) by {
            assert forall|x: int| 0 <= x < after.len() implies 48 <= #[trigger] after[x] <= 57 by {
                if x < before.len() {
                    assert(after[x] == before[x]);
                }
            }
        }
        k += 1;
    }
    assert(s.subrange(start as int, k as int) =~= d);
    if too_big {
        return Err(TemperatureError::InvalidTemperature(text.to_owned()));
    }
    if value == 0 {
        Err(TemperatureError::PoweredOff)
    } else {
        Ok(value as u8)
    }
}

} // verus!
