//! Decoding bytes as UTF-8, with every ill-formed sequence replaced by
//! U+FFFD, as `String::from_utf8_lossy` does.
use vstd::prelude::*;
use crate::text::push_char;

verus! {

/// Byte `i` of `b`, or zero past its end (zero starts no sequence and
/// continues none).
pub open spec fn byte_or_zero(b: Seq<u8>, i: int) -> u8 {
    if 0 <= i < b.len() {
        b[i]
    } else {
        0
    }
}

/// Whether `x` is a UTF-8 continuation byte.
pub open spec fn is_cont(x: u8) -> bool {
    0x80 <= x <= 0xbf
}

/// The UTF-8 sequence that starts at `p`: whether it is well formed, and
/// how many bytes it takes (for an ill-formed one, the bytes that one
/// replacement character stands for: the longest prefix that could still
/// have begun a well-formed sequence, at least one byte).
pub open spec fn chunk_at(b: Seq<u8>, p: int) -> (bool, int) {
    let f = byte_or_zero(b, p);
    let s = byte_or_zero(b, p + 1);
    let t = byte_or_zero(b, p + 2);
    let u = byte_or_zero(b, p + 3);
    if f < 0x80 {
        (true, 1)
    } else if 0xc2 <= f <= 0xdf {
        if is_cont(s) {
            (true, 2)
        } else {
            (false, 1)
        }
    } else if 0xe0 <= f <= 0xef {
        let second_ok = (f == 0xe0 && 0xa0 <= s <= 0xbf) || (0xe1 <= f <= 0xec && is_cont(s)) || (f
            == 0xed && 0x80 <= s <= 0x9f) || (0xee <= f <= 0xef && is_cont(s));
        if !second_ok {
            (false, 1)
        } else if !is_cont(t) {
            (false, 2)
        } else {
            (true, 3)
        }
    } else if 0xf0 <= f <= 0xf4 {
        let second_ok = (f == 0xf0 && 0x90 <= s <= 0xbf) || (0xf1 <= f <= 0xf3 && is_cont(s)) || (f
            == 0xf4 && 0x80 <= s <= 0x8f);
        if !second_ok {
            (false, 1)
        } else if !is_cont(t) {
            (false, 2)
        } else if !is_cont(u) {
            (false, 3)
        } else {
            (true, 4)
        }
    } else {
        (false, 1)
    }
}

/// The scalar value that the well-formed sequence of `n` bytes at `p`
/// encodes.
pub open spec fn scalar_at(b: Seq<u8>, p: int, n: int) -> int {
    let f = byte_or_zero(b, p) as int;
    let s = byte_or_zero(b, p + 1) as int;
    let t = byte_or_zero(b, p + 2) as int;
    let u = byte_or_zero(b, p + 3) as int;
    if n == 1 {
        f
    } else if n == 2 {
        (f - 0xc0) * 64 + (s - 0x80)
    } else if n == 3 {
        (f - 0xe0) * 4096 + (s - 0x80) * 64 + (t - 0x80)
    } else {
        (f - 0xf0) * 262144 + (s - 0x80) * 4096 + (t - 0x80) * 64 + (u - 0x80)
    }
}

/// Whether `x` is a Unicode scalar value (a `char`).
pub open spec fn is_scalar(x: int) -> bool {
    0 <= x <= 0x10ffff && !(0xd800 <= x <= 0xdfff)
}

/// The characters of `b` from `p` on, decoded as UTF-8 with U+FFFD for
/// each ill-formed sequence.
pub open spec fn lossy_from(b: Seq<u8>, p: int) -> Seq<char>
    decreases b.len() - p,
{
    if p < 0 || p >= b.len() {
        Seq::empty()
    } else {
        let (ok, n) = chunk_at(b, p);
        let c = if ok {
            scalar_at(b, p, n) as char
        } else {
            '\u{fffd}'
        };
        seq![c] + lossy_from(b, p + n)
    }
}

/// `b` decoded as UTF-8, every ill-formed sequence replaced by U+FFFD.
pub open spec fn utf8_lossy(b: Seq<u8>) -> Seq<char> {
    lossy_from(b, 0)
}

/// `char::from_u32`: the character with scalar value `x`, if `x` is one.
#[verifier::external_body]
fn char_from_u32(x: u32) -> (c: Option<char>)
    ensures
        is_scalar(x as int) ==> c == Some(x as char),
        !is_scalar(x as int) ==> c is None,
{
    char::from_u32(x)
}

/// Byte `p + k` of `b`, or zero past its end.
fn get_or_zero(b: &Vec<u8>, p: usize, k: usize) -> (x: u8)
    requires
        p < b.len(),
    ensures
        x == byte_or_zero(b@, p + k),
{
    if k < b.len() - p {
        b[p + k]
    } else {
        0
    }
}

/// The sequence at `p`: well formed or not, its length, and (when well
/// formed) its scalar value, which is a `char`.
fn chunk(b: &Vec<u8>, p: usize) -> (r: (bool, usize, u32))
    requires
        p < b.len(),
    ensures
        (r.0, r.1 as int) == chunk_at(b@, p as int),
        1 <= r.1 <= 4,
        r.0 ==> r.2 as int == scalar_at(b@, p as int, r.1 as int) && is_scalar(r.2 as int),
{
    let f = b[p];
    let s = get_or_zero(b, p, 1);
    let t = get_or_zero(b, p, 2);
    let u = get_or_zero(b, p, 3);
    if f < 0x80 {
        (true, 1, f as u32)
    } else if 0xc2 <= f && f <= 0xdf {
        if 0x80 <= s && s <= 0xbf {
            (true, 2, (f as u32 - 0xc0) * 64 + (s as u32 - 0x80))
        } else {
            (false, 1, 0)
        }
    } else if 0xe0 <= f && f <= 0xef {
        let second_ok = (f == 0xe0 && 0xa0 <= s && s <= 0xbf) || (0xe1 <= f && f <= 0xec && 0x80
            <= s && s <= 0xbf) || (f == 0xed && 0x80 <= s && s <= 0x9f) || (0xee <= f && f <= 0xef
            && 0x80 <= s && s <= 0xbf);
        if !second_ok {
            (false, 1, 0)
        } else if !(0x80 <= t && t <= 0xbf) {
            (false, 2, 0)
        } else {
            (true, 3, (f as u32 - 0xe0) * 4096 + (s as u32 - 0x80) * 64 + (t as u32 - 0x80))
        }
    } else if 0xf0 <= f && f <= 0xf4 {
        let second_ok = (f == 0xf0 && 0x90 <= s && s <= 0xbf) || (0xf1 <= f && f <= 0xf3 && 0x80
            <= s && s <= 0xbf) || (f == 0xf4 && 0x80 <= s && s <= 0x8f);
        if !second_ok {
            (false, 1, 0)
        } else if !(0x80 <= t && t <= 0xbf) {
            (false, 2, 0)
        } else if !(0x80 <= u && u <= 0xbf) {
            (false, 3, 0)
        } else {
            (true, 4, (f as u32 - 0xf0) * 262144 + (s as u32 - 0x80) * 4096 + (t as u32 - 0x80) * 64
                + (u as u32 - 0x80))
        }
    } else {
        (false, 1, 0)
    }
}

/// `b` decoded as UTF-8, every ill-formed sequence replaced by U+FFFD:
/// `String::from_utf8_lossy`.
pub fn decode_lossy(b: &Vec<u8>) -> (s: String)
    ensures
        s@ == utf8_lossy(b@),
{
    let mut s = String::new();
    let mut p: usize = 0;
    while p < b.len()
        invariant
            p <= b.len(),
            utf8_lossy(b@) == s@ + lossy_from(b@, p as int),
        decreases b.len() - p,
    {
        let (ok, n, x) = chunk(b, p);
        let c = if ok {
            match char_from_u32(x) {
                Some(c) => c,
                None => '\u{fffd}',
            }
        } else {
            '\u{fffd}'
        };
        let ghost before = s@;
        push_char(&mut s, c);
        proof {
            assert(lossy_from(b@, p as int) == seq![c] + lossy_from(b@, p + n));
            assert(before + (seq![c] + lossy_from(b@, p + n)) =~= s@ + lossy_from(b@, p + n));
        }
        p = if n <= b.len() - p {
            p + n
        } else {
            b.len()
        };
        proof {
            if p == b.len() {
                assert(lossy_from(b@, p as int) =~= Seq::<char>::empty());
            }
        }
    }
    assert(s@ + lossy_from(b@, p as int) =~= s@);
    s
}

} // verus!
