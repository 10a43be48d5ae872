use sisterm::hexdump::{get_ascii_representation, get_hex_representation, get_hexdump_line, hexdump};

#[test]
fn hex_representation_splits_after_eight_bytes() {
    let bytes: Vec<u8> = (0u8..16).collect();
    assert_eq!(
        get_hex_representation(&bytes),
        "00 01 02 03 04 05 06 07  08 09 0a 0b 0c 0d 0e 0f"
    );
    assert_eq!(get_hex_representation(&[0xff]), "ff");
    assert_eq!(get_hex_representation(&[]), "");
}

#[test]
fn ascii_representation_hides_unprintable_bytes() {
    assert_eq!(get_ascii_representation(b"a b~\x7f\x1f\n"), "a b~...");
    assert_eq!(get_ascii_representation(&[0xe3, 0x81, 0x82]), "...");
}

#[test]
fn hexdump_line_pads_columns() {
    assert_eq!(
        get_hexdump_line(0, b"Hello, world!\n"),
        "00000000: 48 65 6c 6c 6f 2c 20 77  6f 72 6c 64 21 0a        Hello, world!.  "
    );
}

#[test]
fn hexdump_has_a_line_per_sixteen_bytes() {
    let bytes: Vec<u8> = (0x41u8..0x41 + 20).collect();
    assert_eq!(
        hexdump(&bytes),
        vec![
            "00000000: 41 42 43 44 45 46 47 48  49 4a 4b 4c 4d 4e 4f 50  ABCDEFGHIJKLMNOP".to_string(),
            "00000010: 51 52 53 54                                       QRST            ".to_string(),
        ]
    );
    assert!(hexdump(&[]).is_empty());
}

#[test]
fn hexdump_lines_are_all_76_wide() {
    let bytes: Vec<u8> = (0u8..=255).chain(0u8..7).collect();
    let lines = hexdump(&bytes);
    assert_eq!(lines.len(), 17);
    for line in &lines {
        assert_eq!(line.chars().count(), 76);
    }
    assert_eq!(get_hexdump_line(0x1234_5678, &[0x41]).chars().count(), 76);
}
