use rustshooter::utf8::decode_lossy;

fn same_as_std(b: &[u8]) {
    assert_eq!(decode_lossy(&b.to_vec()), String::from_utf8_lossy(b).into_owned(), "{:x?}", b);
}

#[test]
fn valid_text_is_kept() {
    same_as_std(b"");
    same_as_std(b"hello");
    same_as_std("h\u{e9}llo \u{20ac} \u{1f600}".as_bytes());
    assert_eq!(decode_lossy(&"\u{10ffff}".as_bytes().to_vec()), "\u{10ffff}");
}

#[test]
fn ill_formed_sequences_become_replacement_characters() {
    assert_eq!(decode_lossy(&vec![0x61, 0xff, 0x62]), "a\u{fffd}b");
    assert_eq!(decode_lossy(&vec![0xe2, 0x82]), "\u{fffd}");
    assert_eq!(decode_lossy(&vec![0xed, 0xa0, 0x80]), "\u{fffd}\u{fffd}\u{fffd}");
    for b in [
        &[0xc0u8, 0x80][..],
        &[0xc2],
        &[0xe0, 0x80, 0x80],
        &[0xe0, 0xa0],
        &[0xf0, 0x80],
        &[0xf0, 0x90, 0x80],
        &[0xf4, 0x90, 0x80, 0x80],
        &[0xf5, 0x80],
        &[0x80, 0xbf, 0x41],
        &[0xf1, 0x80, 0x80, 0x41],
        &[0xef, 0xbf, 0xbf, 0xee],
    ] {
        same_as_std(b);
    }
}

#[test]
fn every_short_byte_string_matches_std() {
    let interesting = [0x00u8, 0x41, 0x7f, 0x80, 0x8f, 0x90, 0x9f, 0xa0, 0xbf, 0xc0, 0xc2, 0xdf, 0xe0, 0xe1, 0xed, 0xee, 0xef, 0xf0, 0xf1, 0xf4, 0xf5, 0xff];
    for &a in &interesting {
        for &b in &interesting {
            for &c in &interesting {
                same_as_std(&[a, b, c]);
                for &d in &[0x80u8, 0x41, 0xbf] {
                    same_as_std(&[a, b, c, d]);
                }
            }
        }
    }
}
