//! UTF-8 and numbers.

use asciicast::dec_modes::{append_joined, owns_dec_private_mode, split_dec_private_modes};
use asciicast::keyboard::{encode_win32_key, textless};
use asciicast::numbers::{append_decimal, append_hexadecimal, append_signed_decimal, parse_u16};
use asciicast::utf8::{append_scalar, is_utf8, utf8_prefix};
use asciicast::console::KeyEventRecord;

/// Compares the split into well-formed prefix and malformed sequence with that of std.
fn same_as_std(bytes: &[u8]) {
    let expected = match std::str::from_utf8(bytes) {
        Ok(_) => (bytes.len(), None),
        Err(error) => (error.valid_up_to(), error.error_len()),
    };
    assert_eq!(utf8_prefix(bytes), expected, "{bytes:x?}");
    assert_eq!(is_utf8(bytes), std::str::from_utf8(bytes).is_ok());
}

#[test]
fn utf8_prefixes_agree_with_std_on_short_sequences() {
    let edges = [
        0x00, 0x41, 0x7f, 0x80, 0x8f, 0x90, 0x9f, 0xa0, 0xbf, 0xc0, 0xc1, 0xc2, 0xdf, 0xe0, 0xe1,
        0xec, 0xed, 0xee, 0xef, 0xf0, 0xf1, 0xf3, 0xf4, 0xf5, 0xff,
    ];
    same_as_std(b"");
    for a in 0..=0xffu8 {
        same_as_std(&[a]);
        for b in 0..=0xffu8 {
            same_as_std(&[a, b]);
        }
    }
    for a in edges {
        for b in edges {
            for c in edges {
                same_as_std(&[a, b, c]);
                for d in edges {
                    same_as_std(&[a, b, c, d]);
                    same_as_std(&[0x41, a, b, c, d]);
                }
            }
        }
    }
}

#[test]
fn scalars_are_written_as_std_writes_characters() {
    for scalar in [
        0, 0x41, 0x7f, 0x80, 0x7ff, 0x800, 0xd7ff, 0xe000, 0xffff, 0x10000, 0x1f600, 0x10ffff,
    ] {
        let mut out = b"x".to_vec();
        append_scalar(&mut out, scalar);
        let mut expected = String::from("x");
        expected.push(char::from_u32(scalar).unwrap());
        assert_eq!(out, expected.as_bytes());
    }
}

#[test]
fn numbers_of_sixteen_bits_are_read_as_std_reads_them() {
    for text in [
        "", "+", "-", "0", "00", "7", "+7", "++7", "-7", "65535", "65536", "0000065535", "99999",
        "100000000000000000000", "1 ", " 1", "1a", "\u{661}", "12:3",
    ] {
        assert_eq!(parse_u16(text.as_bytes()), text.parse::<u16>().ok(), "{text}");
    }
    assert_eq!(parse_u16(b"1\xff"), None);
    for n in [0u16, 9, 10, 255, 1000, 65535] {
        let mut digits = Vec::new();
        append_decimal(&mut digits, n as u32);
        assert_eq!(parse_u16(&digits), Some(n));
    }
}

#[test]
fn numbers_are_written_as_std_writes_them() {
    for n in [0u32, 9, 10, 99, 100, 4294967295] {
        let mut out = b"=".to_vec();
        append_decimal(&mut out, n);
        assert_eq!(out, format!("={n}").into_bytes());
        let mut out = b"=".to_vec();
        append_hexadecimal(&mut out, n);
        assert_eq!(out, format!("={n:x}").into_bytes());
    }
    for n in [0i32, -1, 1, -32767, 32768] {
        let mut out = Vec::new();
        append_signed_decimal(&mut out, n);
        assert_eq!(out, format!("{n}").into_bytes());
    }
}

#[test]
fn mode_parameters_are_divided() {
    let (owned, others) = split_dec_private_modes(b"1;25;+1000;0007;2004").unwrap();
    assert_eq!(owned, vec![1, 1000, 2004]);
    assert_eq!(others, vec![b"25".to_vec(), b"0007".to_vec()]);
    let mut out = b"?".to_vec();
    append_joined(&mut out, &others);
    assert_eq!(out, b"?25;0007");

    assert!(split_dec_private_modes(b"").is_none());
    assert!(split_dec_private_modes(b"1;").is_none());
    assert!(split_dec_private_modes(b";1").is_none());
    assert!(split_dec_private_modes(b"1;x").is_none());
    assert!(split_dec_private_modes(b"65536").is_none());
    assert!(owns_dec_private_mode(9001) && !owns_dec_private_mode(25));
}

#[test]
fn keys_in_win32_mode_are_told_apart() {
    let key = KeyEventRecord {
        key_down: true,
        repeat_count: 3,
        virtual_key_code: 65,
        virtual_scan_code: 30,
        unicode_char: 97,
        control_key_state: 16,
    };
    assert_eq!(encode_win32_key(&key), b"\x1b[65;30;97;1;16;3_");
    assert_eq!(
        encode_win32_key(&KeyEventRecord {
            key_down: false,
            ..key
        }),
        b"\x1b[65;30;97;0;16;3_"
    );
    assert!(!textless(&key));
    assert!(textless(&KeyEventRecord {
        unicode_char: 0,
        ..key
    }));
}
