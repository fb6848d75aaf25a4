//! The background colour setting: a decimal number that packs red, green
//! and blue as `0xRRGGBB`.
use vstd::prelude::*;
use vstd::string::StringSliceAdditionalSpecFns;
use crate::resample::ImcatError;

verus! {

/// A background colour to blend against. It is accepted and carried along,
/// but nothing is blended with it yet.
#[derive(Debug, Clone, Copy, PartialEq, Eq, Structural)]
pub struct BlendColor {
    pub r: u8,
    pub g: u8,
    pub b: u8,
}

/// Value of a run of ASCII decimal digits.
pub open spec fn digits_value(d: Seq<u8>) -> int
    decreases d.len(),
{
    if d.len() == 0 {
        0
    } else {
        digits_value(d.drop_last()) * 10 + (d.last() - 48)
    }
}

pub open spec fn is_digit(c: u8) -> bool {
    48 <= c <= 57
}

/// The digits of the text: all of it, or all but a leading `+`.
pub open spec fn digits_of(t: Seq<u8>) -> Seq<u8> {
    if t.len() > 0 && t[0] == 43 { t.drop_first() } else { t }
}

/// The text is an unsigned 32-bit number: an optional `+`, then at least
/// one digit and nothing else, with a value that fits in 32 bits.
pub open spec fn is_u32_text(t: Seq<u8>) -> bool {
    let d = digits_of(t);
    &&& d.len() > 0
    &&& forall|i: int| 0 <= i < d.len() ==> is_digit(#[trigger] d[i])
    &&& digits_value(d) <= u32::MAX
}

/// The colour packed in `v`: red in bits 16 to 23, green in bits 8 to 15,
/// blue in bits 0 to 7.
pub open spec fn unpacked(v: u32) -> BlendColor {
    BlendColor { r: ((v / 0x10000) % 0x100) as u8, g: ((v / 0x100) % 0x100) as u8, b: (v % 0x100) as u8 }
}

impl BlendColor {
    /// The colour packed in `v` as `0xRRGGBB`; higher bits are ignored.
    pub fn from_packed(v: u32) -> (c: BlendColor)
        ensures
            c == unpacked(v),
    {
        let r = ((v >> 16) & 0xFF) as u8;
        let g = ((v >> 8) & 0xFF) as u8;
        let b = (v & 0xFF) as u8;
        assert(((v >> 16) & 0xFF) == (v / 0x10000) % 0x100) by (bit_vector);
        assert(((v >> 8) & 0xFF) == (v / 0x100) % 0x100) by (bit_vector);
        assert((v & 0xFF) == v % 0x100) by (bit_vector);
        BlendColor { r, g, b }
    }
}

/// Reads the background colour setting: a decimal number as Rust reads a
/// `u32`, then unpacked as `0xRRGGBB`. Anything else is a configuration
/// failure.
pub fn parse_background(s: &str) -> (r: Result<BlendColor, ImcatError>)
    ensures
        r is Ok <==> is_u32_text(s.spec_bytes()),
        r matches Ok(c) ==> c == unpacked(digits_value(digits_of(s.spec_bytes())) as u32),
        r matches Err(e) ==> e == ImcatError::ConfigFailure,
{
    let t = s.as_bytes();
    let ghost d = digits_of(t@);
    let start: usize = if t.len() > 0 && t[0] == 43 { 1 } else { 0 };
    assert(d =~= t@.subrange(start as int, t@.len() as int));
    if start >= t.len() {
        return Err(ImcatError::ConfigFailure);
    }
    let mut v: u64 = 0;
    let mut too_big = false;
    let mut i: usize = start;
    while i < t.len()
        invariant
            d =~= t@.subrange(start as int, t@.len() as int),
            d == digits_of(t@),
            t@ == s.spec_bytes(),
            start <= i <= t@.len(),
            forall|j: int| 0 <= j < i - start ==> is_digit(#[trigger] d[j]),
            !too_big ==> v == digits_value(d.take(i - start)) && v <= u32::MAX,
            too_big ==> digits_value(d.take(i - start)) > u32::MAX,
        decreases t@.len() - i,
    {
        let c = t[i];
        if c < 48 || c > 57 {
            assert(d[i - start] == t@[i as int]);
            assert(!is_digit(d[i - start]));
            return Err(ImcatError::ConfigFailure);
        }
        proof {
            assert forall|j: int| 0 <= j < d.len() && j <= i - start implies is_digit(#[trigger] d[j]) by {
                if j < i - start {
                } else {
                    assert(d[j] == c);
                }
            }
            let dd = d.take(i - start + 1);
            assert(dd.drop_last() =~= d.take(i - start));
            assert(dd.last() == c);
            assert(digits_value(dd) == digits_value(d.take(i - start)) * 10 + (c - 48));
        }
        if !too_big {
            v = v * 10 + (c - 48) as u64;
            if v > 0xFFFF_FFFF {
                too_big = true;
            }
        }
        i = i + 1;
    }
    assert(d.take(d.len() as int) =~= d);
    if too_big {
        return Err(ImcatError::ConfigFailure);
    }
    Ok(BlendColor::from_packed(v as u32))
}

} // verus!
