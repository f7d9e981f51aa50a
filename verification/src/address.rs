//! Server addresses as the player types them: the default port, the port
//! named after the last colon, and hexadecimal certificate digests.
use vstd::prelude::*;
use vstd::string::StringSliceAdditionalSpecFns;
use crate::text::{contains_char, hex2, push_all, push_char, push_hex2, string_from, to_chars};

verus! {

/// Whether `c1` is directly followed by `c2` somewhere in `s`.
pub open spec fn has_pair(s: Seq<char>, c1: char, c2: char) -> bool {
    exists|i: int| 0 <= i < s.len() - 1 && #[trigger] s[i] == c1 && s[i + 1] == c2
}

/// `addr` with the default port 7777 when the player gave none: a
/// bracketed IPv6 address without `]:` gets `:7777`; a bare IPv6 address
/// (`is_ip`: it parses as an IP address) gets brackets and `:7777`; any
/// other address with a colon is kept; an address without a colon gets
/// `:7777`.
pub open spec fn with_default_port(addr: Seq<char>, is_ip: bool) -> Seq<char> {
    if addr.len() > 0 && addr[0] == '[' {
        if has_pair(addr, ']', ':') {
            addr
        } else {
            addr + ":7777"@
        }
    } else if addr.contains(':') {
        if is_ip {
            "["@ + addr + "]:7777"@
        } else {
            addr
        }
    } else {
        addr + ":7777"@
    }
}

/// Whether `]` is directly followed by `:` in `v`.
fn has_bracket_colon(v: &Vec<char>) -> (b: bool)
    ensures
        b == has_pair(v@, ']', ':'),
{
    if v.len() < 2 {
        return false;
    }
    let mut i: usize = 0;
    while i + 1 < v.len()
        invariant
            v.len() >= 2,
            i + 1 <= v.len(),
            forall|k: int| 0 <= k < i ==> !(#[trigger] v@[k] == ']' && v@[k + 1] == ':'),
        decreases v.len() - i,
    {
        if v[i] == ']' && v[i + 1] == ':' {
            return true;
        }
        i = i + 1;
    }
    false
}

/// Appends `:7777` when the player omitted the port:
/// `1.2.3.4` gives `1.2.3.4:7777`, `::1` gives `[::1]:7777`, `[::1]` gives
/// `[::1]:7777`, `example.com` gives `example.com:7777`; addresses that
/// carry a port are kept. `is_ip_address` tells whether `addr` parses as
/// an IP address (`std::net::IpAddr`).
pub fn append_default_port(addr: &str, is_ip_address: bool) -> (r: String)
    ensures
        r@ == with_default_port(addr@, is_ip_address),
{
    let v = to_chars(addr);
    if v.len() > 0 && v[0] == '[' {
        if has_bracket_colon(&v) {
            return string_from(addr);
        } else {
            let mut r = string_from(addr);
            push_all(&mut r, ":7777");
            return r;
        }
    }
    if contains_char(&v, ':') {
        if is_ip_address {
            let mut r = string_from("[");
            push_all(&mut r, addr);
            push_all(&mut r, "]:7777");
            return r;
        }
        return string_from(addr);
    }
    let mut r = string_from(addr);
    push_all(&mut r, ":7777");
    r
}

/// The numeric value of an ASCII decimal digit string.
pub open spec fn digits_value(d: Seq<char>) -> nat
    decreases d.len(),
{
    if d.len() == 0 {
        0
    } else {
        digits_value(d.drop_last()) * 10 + ((d.last() as u32 - 48) as nat)
    }
}

/// Whether `c` is an ASCII decimal digit.
pub open spec fn is_digit(c: char) -> bool {
    48 <= c as u32 <= 57
}

/// `s` without one leading `+`.
pub open spec fn sign_stripped(s: Seq<char>) -> Seq<char> {
    if s.len() > 0 && s[0] == '+' {
        s.drop_first()
    } else {
        s
    }
}

/// Whether every character of `d` is an ASCII decimal digit.
pub open spec fn all_digits(d: Seq<char>) -> bool {
    forall|i: int| 0 <= i < d.len() ==> is_digit(#[trigger] d[i])
}

/// The `u16` that `str::parse::<u16>` reads from `s`: an optional `+`,
/// then one or more ASCII digits, with a value below 65536.
pub open spec fn parse_u16(s: Seq<char>) -> Option<u16> {
    let d = sign_stripped(s);
    if d.len() == 0 || !all_digits(d) {
        None
    } else if digits_value(d) <= 65535 {
        Some(digits_value(d) as u16)
    } else {
        None
    }
}

pub proof fn lemma_digits_value_grows(d: Seq<char>, j: int)
    requires
        0 <= j <= d.len(),
        forall|i: int| 0 <= i < d.len() ==> is_digit(#[trigger] d[i]),
    ensures
        digits_value(d.take(j)) <= digits_value(d),
    decreases d.len(),
{
    if j < d.len() {
        assert(d.drop_last().take(j) =~= d.take(j));
        assert forall|i: int| 0 <= i < d.drop_last().len() implies is_digit(
            #[trigger] d.drop_last()[i],
        ) by {
            assert(d.drop_last()[i] == d[i]);
        }
        lemma_digits_value_grows(d.drop_last(), j);
    } else {
        assert(d.take(j) =~= d);
    }
}

/// The value of the digit character `c`.
fn digit_value(c: char) -> (v: u32)
    requires
        is_digit(c),
    ensures
        v == c as u32 - 48,
        v < 10,
{
    (c as u32) - 48
}

/// `str::parse::<u16>` on the characters `v[from..]`.
pub fn parse_u16_chars(v: &Vec<char>, from: usize) -> (r: Option<u16>)
    requires
        from <= v.len(),
    ensures
        r == parse_u16(v@.skip(from as int)),
{
    let ghost s = v@.skip(from as int);
    let mut start = from;
    if start < v.len() && v[start] == '+' {
        start = start + 1;
    }
    let ghost d = v@.skip(start as int);
    assert(d =~= sign_stripped(s));
    if start == v.len() {
        return None;
    }
    let mut i = start;
    let mut value: u32 = 0;
    while i < v.len()
        invariant
            start <= i <= v.len(),
            start < v.len(),
            d == v@.skip(start as int),
            s == v@.skip(from as int),
            d == sign_stripped(s),
            value <= 65535,
            value == digits_value(d.take(i - start)),
            forall|k: int| 0 <= k < i - start ==> is_digit(#[trigger] d[k]),
        decreases v.len() - i,
    {
        let c = v[i];
        let cu = c as u32;
        if !(48 <= cu && cu <= 57) {
            assert(!is_digit(d[i - start]));
            assert(!all_digits(d));
            assert(parse_u16(s) is None);
            return None;
        }
        assert(d[i - start] == c);
        let dv = digit_value(c);
        assert(d.take(i - start + 1).drop_last() =~= d.take(i - start));
        let next = value * 10 + dv;
        if next > 65535 {
            proof {
                let k = i - start + 1;
                if all_digits(d) {
                    lemma_digits_value_grows(d, k);
                    assert(digits_value(d) > 65535);
                }
                assert(parse_u16(s) is None);
            }
            return None;
        }
        value = next;
        i = i + 1;
    }
    assert(d.take(i - start) =~= d);
    Some(value as u16)
}

/// The port of a browser client's connect token: the number after the
/// last colon of `addr`, or 7778 when there is no colon or no valid port
/// after it.
pub open spec fn netcode_port_of(addr: Seq<char>) -> u16 {
    if addr.contains(':') {
        let i = choose|i: int|
            0 <= i < addr.len() && addr[i] == ':' && forall|k: int|
                i < k < addr.len() ==> addr[k] != ':';
        match parse_u16(addr.skip(i + 1)) {
            Some(p) => p,
            None => 7778,
        }
    } else {
        7778
    }
}

/// The port for a browser client's connect token when `addr` is not a
/// literal socket address: see `netcode_port_of`.
pub fn wasm_netcode_port(addr: &str) -> (p: u16)
    ensures
        p == netcode_port_of(addr@),
{
    let v = to_chars(addr);
    let mut i = v.len();
    while i > 0 && v[i - 1] != ':'
        invariant
            i <= v.len(),
            forall|k: int| i <= k < v.len() ==> v@[k] != ':',
        decreases i,
    {
        i = i - 1;
    }
    if i == 0 {
        assert(!v@.contains(':'));
        return 7778;
    }
    let ghost j = i - 1;
    assert(v@[j] == ':');
    assert(v@.contains(':'));
    let ghost c = choose|c: int|
        0 <= c < v@.len() && v@[c] == ':' && forall|k: int| c < k < v@.len() ==> v@[k] != ':';
    assert(c == j) by {
        if c < j {
            assert(v@[j] != ':');
        } else if c > j {
            assert(v@[c] != ':');
        }
    }
    match parse_u16_chars(&v, i) {
        Some(p) => p,
        None => 7778,
    }
}

/// The value of an ASCII hexadecimal digit byte (either case).
pub open spec fn nibble(b: u8) -> Option<u8> {
    if 48 <= b <= 57 {
        Some((b - 48) as u8)
    } else if 97 <= b <= 102 {
        Some((b - 97 + 10) as u8)
    } else if 65 <= b <= 70 {
        Some((b - 65 + 10) as u8)
    } else {
        None
    }
}

/// Decoding hexadecimal digit pairs: the bytes, or the first byte that is
/// not a hexadecimal digit.
pub open spec fn decode_pairs(bs: Seq<u8>) -> Result<Seq<u8>, u8>
    decreases bs.len(),
{
    if bs.len() < 2 {
        Ok(Seq::empty())
    } else {
        match nibble(bs[0]) {
            None => Err(bs[0]),
            Some(hi) => match nibble(bs[1]) {
                None => Err(bs[1]),
                Some(lo) => match decode_pairs(bs.skip(2)) {
                    Ok(rest) => Ok(seq![(hi * 16 + lo) as u8] + rest),
                    Err(e) => Err(e),
                },
            },
        }
    }
}

/// The error for a byte that is not a hexadecimal digit.
pub open spec fn invalid_hex_msg(b: u8) -> Seq<char> {
    "Invalid hex byte: 0x"@ + hex2(b)
}

/// The error for a digest of odd length.
pub open spec fn odd_hex_msg(s: Seq<char>) -> Seq<char> {
    "Odd-length hex string: \""@ + s + "\""@
}

/// The value of one hexadecimal digit byte.
pub fn hex_nibble(b: u8) -> (r: Result<u8, String>)
    ensures
        match nibble(b) {
            Some(v) => r == Ok::<u8, String>(v),
            None => r is Err && r->Err_0@ == invalid_hex_msg(b),
        },
{
    if 48 <= b && b <= 57 {
        Ok(b - 48)
    } else if 97 <= b && b <= 102 {
        Ok(b - 97 + 10)
    } else if 65 <= b && b <= 70 {
        Ok(b - 65 + 10)
    } else {
        let mut msg = string_from("Invalid hex byte: 0x");
        push_hex2(&mut msg, b);
        Err(msg)
    }
}

pub proof fn lemma_decode_pairs_step(bs: Seq<u8>, i: int)
    requires
        0 <= i,
        i + 2 <= bs.len(),
    ensures
        decode_pairs(bs.skip(i)) == match nibble(bs[i]) {
            None => Err(bs[i]),
            Some(hi) => match nibble(bs[i + 1]) {
                None => Err(bs[i + 1]),
                Some(lo) => match decode_pairs(bs.skip(i + 2)) {
                    Ok(rest) => Ok(seq![(hi * 16 + lo) as u8] + rest),
                    Err(e) => Err(e),
                },
            },
        },
{
    assert(bs.skip(i)[0] == bs[i]);
    assert(bs.skip(i)[1] == bs[i + 1]);
    assert(bs.skip(i).skip(2) =~= bs.skip(i + 2));
}

/// Decodes a hexadecimal certificate digest (digits of either case) into
/// bytes.
pub fn hex_decode(s: &str) -> (r: Result<Vec<u8>, String>)
    ensures
        s.spec_bytes().len() % 2 == 1 ==> r is Err && r->Err_0@ == odd_hex_msg(s@),
        s.spec_bytes().len() % 2 == 0 ==> match decode_pairs(s.spec_bytes()) {
            Ok(v) => r is Ok && r->Ok_0@ == v,
            Err(b) => r is Err && r->Err_0@ == invalid_hex_msg(b),
        },
{
    let bs = s.as_bytes();
    if bs.len() % 2 != 0 {
        let mut msg = string_from("Odd-length hex string: \"");
        push_all(&mut msg, s);
        push_char(&mut msg, '"');
        proof {
            reveal_strlit("\"");
            assert(msg@ =~= odd_hex_msg(s@));
        }
        return Err(msg);
    }
    let ghost all = bs@;
    let mut out: Vec<u8> = Vec::new();
    let mut i: usize = 0;
    proof {
        assert(all.skip(0) =~= all);
        match decode_pairs(all) {
            Ok(rest) => {
                assert(out@ + rest =~= rest);
            },
            Err(_) => {},
        }
    }
    while i < bs.len()
        invariant
            bs@ == all,
            all == s.spec_bytes(),
            all.len() % 2 == 0,
            i % 2 == 0,
            i <= bs.len(),
            decode_pairs(all) == match decode_pairs(all.skip(i as int)) {
                Ok(rest) => Ok(out@ + rest),
                Err(e) => Err(e),
            },
        decreases bs.len() - i,
    {
        proof {
            lemma_decode_pairs_step(all, i as int);
        }
        let hi = match hex_nibble(bs[i]) {
            Ok(h) => h,
            Err(e) => {
                return Err(e);
            },
        };
        let lo = match hex_nibble(bs[i + 1]) {
            Ok(l) => l,
            Err(e) => {
                return Err(e);
            },
        };
        let ghost old_out = out@;
        out.push(hi * 16 + lo);
        proof {
            match decode_pairs(all.skip(i + 2)) {
                Ok(rest) => {
                    assert(old_out + (seq![(hi * 16 + lo) as u8] + rest) =~= out@ + rest);
                },
                Err(e) => {},
            }
        }
        i = i + 2;
    }
    proof {
        assert(all.skip(i as int).len() == 0);
        assert(out@ + Seq::<u8>::empty() =~= out@);
    }
    Ok(out)
}

/// The ASCII byte of the lower-case hexadecimal digit `d`.
pub open spec fn lower_hex_byte(d: nat) -> u8 {
    if d < 10 {
        (48 + d) as u8
    } else {
        (97 + d - 10) as u8
    }
}

/// The lower-case hexadecimal encoding of `data`, as ASCII bytes.
pub open spec fn lower_hex_encoding(data: Seq<u8>) -> Seq<u8>
    decreases data.len(),
{
    if data.len() == 0 {
        Seq::empty()
    } else {
        seq![lower_hex_byte((data[0] / 16) as nat), lower_hex_byte((data[0] % 16) as nat)]
            + lower_hex_encoding(data.drop_first())
    }
}

/// Decoding the lower-case hexadecimal encoding of any bytes gives those
/// bytes back.
pub proof fn lemma_hex_roundtrip(data: Seq<u8>)
    ensures
        decode_pairs(lower_hex_encoding(data)) == Ok::<Seq<u8>, u8>(data),
    decreases data.len(),
{
    if data.len() > 0 {
        let e = lower_hex_encoding(data);
        let b = data[0];
        lemma_hex_roundtrip(data.drop_first());
        assert(e.skip(2) =~= lower_hex_encoding(data.drop_first()));
        assert(nibble(lower_hex_byte((b / 16) as nat)) == Some((b / 16) as u8));
        assert(nibble(lower_hex_byte((b % 16) as nat)) == Some((b % 16) as u8));
        assert(((b / 16) * 16 + b % 16) as u8 == b);
        assert(seq![b] + data.drop_first() =~= data);
    } else {
        assert(lower_hex_encoding(data) =~= Seq::<u8>::empty());
        assert(data =~= Seq::<u8>::empty());
    }
}

/// `bs` is a hexadecimal encoding of `data`: two digit bytes per byte,
/// high digit first, each digit of either case.
pub open spec fn hex_encodes(bs: Seq<u8>, data: Seq<u8>) -> bool {
    &&& bs.len() == 2 * data.len()
    &&& forall|i: int|
        0 <= i < data.len() ==> nibble(bs[2 * i]) == Some((#[trigger] data[i] / 16) as u8)
            && nibble(bs[2 * i + 1]) == Some((data[i] % 16) as u8)
}

/// Decoding any hexadecimal encoding of some bytes, in upper, lower or
/// mixed case, gives those bytes back (`hex_decode` decodes the bytes of
/// its argument this way when their number is even, which it is here).
pub proof fn law_hex_roundtrip_any_case(bs: Seq<u8>, data: Seq<u8>)
    requires
        hex_encodes(bs, data),
    ensures
        decode_pairs(bs) == Ok::<Seq<u8>, u8>(data),
        bs.len() % 2 == 0,
    decreases data.len(),
{
    if data.len() == 0 {
        assert(data =~= Seq::<u8>::empty());
    } else {
        let b = data[0];
        assert(nibble(bs[0]) == Some((b / 16) as u8));
        assert(nibble(bs[1]) == Some((b % 16) as u8));
        let rest = data.drop_first();
        assert forall|i: int| 0 <= i < rest.len() implies nibble(bs.skip(2)[2 * i]) == Some(
            (#[trigger] rest[i] / 16) as u8,
        ) && nibble(bs.skip(2)[2 * i + 1]) == Some((rest[i] % 16) as u8) by {
            assert(rest[i] == data[i + 1]);
            assert(bs.skip(2)[2 * i] == bs[2 * (i + 1)]);
            assert(bs.skip(2)[2 * i + 1] == bs[2 * (i + 1) + 1]);
        }
        law_hex_roundtrip_any_case(bs.skip(2), rest);
        assert(((b / 16) * 16 + b % 16) as u8 == b);
        assert(seq![b] + rest =~= data);
    }
}

/// The certificate hash a browser client presents for the digest
/// `cert_hex`: none for an empty digest (a CA-signed certificate), else the
/// decoded bytes, or the decoding error.
pub fn certificate_hash(cert_hex: &str) -> (r: Result<Option<Vec<u8>>, String>)
    ensures
        cert_hex@.len() == 0 ==> r == Ok::<Option<Vec<u8>>, String>(None),
        cert_hex@.len() > 0 && cert_hex.spec_bytes().len() % 2 == 1 ==> r is Err && r->Err_0@
            == odd_hex_msg(cert_hex@),
        cert_hex@.len() > 0 && cert_hex.spec_bytes().len() % 2 == 0 ==> match decode_pairs(
            cert_hex.spec_bytes(),
        ) {
            Ok(v) => r is Ok && r->Ok_0 is Some && r->Ok_0->0@ == v,
            Err(b) => r is Err && r->Err_0@ == invalid_hex_msg(b),
        },
{
    if cert_hex.unicode_len() == 0 {
        return Ok(None);
    }
    match hex_decode(cert_hex) {
        Ok(bytes) => Ok(Some(bytes)),
        Err(e) => Err(e),
    }
}

} // verus!
