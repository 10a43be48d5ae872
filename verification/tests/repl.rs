use sisterm::repl::string_from_utf8_appearance;

#[test]
fn test_string_from_utf8_appearancering() {
    let tests = vec![
        (vec![0x34, 0x32], "42"),
        (vec![0x08, 0x20, 0x08], ""),
        (vec![0x20, 0x7e], " ~"),
        (vec![0xE3, 0x81, 0x82], "あ"),
        (vec![0x00], "\u{0}"),
    ];

    for (input, expect) in tests {
        let mut buf = String::new();
        string_from_utf8_appearance(&mut buf, &input);
        assert_eq!(buf, expect);
    }
}
