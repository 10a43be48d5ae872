use sisterm::default::{terminal_type, LOG_DESTINATION, READ_BUFFER_SIZE, TERMINAL_TYPE};
use sisterm::flag::Flags;
use sisterm::number::{is_hex_i32, parse_hex_u8, parse_u32_chars, parse_u8_chars, u8_decimal};
use sisterm::setting::{
    default_log_destination, default_log_format, default_terminal_type, default_timestamp_format,
    ReadBufSize, TcpConnectTimeout,
};
use sisterm::utf8::{decode_char_at, encode_char};

fn chars(s: &str) -> Vec<char> {
    s.chars().collect()
}

#[test]
fn decimal_numbers_read_as_str_parse_does() {
    assert_eq!(parse_u8_chars(&chars("255")), Some(255));
    assert_eq!(parse_u8_chars(&chars("+7")), Some(7));
    assert_eq!(parse_u8_chars(&chars("007")), Some(7));
    assert_eq!(parse_u8_chars(&chars("256")), None);
    assert_eq!(parse_u8_chars(&chars("")), None);
    assert_eq!(parse_u8_chars(&chars("+")), None);
    assert_eq!(parse_u8_chars(&chars("-1")), None);
    assert_eq!(parse_u32_chars(&chars("4294967295")), Some(4294967295));
    assert_eq!(parse_u32_chars(&chars("4294967296")), None);
    assert_eq!(parse_u32_chars(&chars("9600")), Some(9600));
}

#[test]
fn hexadecimal_numbers_read_as_from_str_radix_does() {
    assert_eq!(parse_hex_u8(&chars("ff")), Some(255));
    assert_eq!(parse_hex_u8(&chars("0A")), Some(10));
    assert_eq!(parse_hex_u8(&chars("100")), None);
    assert_eq!(parse_hex_u8(&chars("g0")), None);
    assert!(is_hex_i32(&chars("7fffffff")));
    assert!(!is_hex_i32(&chars("80000000")));
    assert!(is_hex_i32(&chars("-80000000")));
    assert!(!is_hex_i32(&chars("-")));
}

#[test]
fn bytes_print_in_decimal() {
    assert_eq!(u8_decimal(0), vec!['0']);
    assert_eq!(u8_decimal(42), vec!['4', '2']);
    assert_eq!(u8_decimal(255), vec!['2', '5', '5']);
}

#[test]
fn utf8_round_trips() {
    assert_eq!(encode_char('a'), vec![0x61]);
    assert_eq!(encode_char('é'), vec![0xc3, 0xa9]);
    assert_eq!(encode_char('あ'), vec![0xe3, 0x81, 0x82]);
    assert_eq!(encode_char('😀'), vec![0xf0, 0x9f, 0x98, 0x80]);
    assert_eq!(decode_char_at(&[0x61, 0xe3, 0x81, 0x82], 1), Some(('あ', 3)));
    assert_eq!(decode_char_at(&[0xe3, 0x81], 0), None);
    assert_eq!(decode_char_at(&[0x80], 0), None);
    assert_eq!(decode_char_at(&[0xed, 0xa0, 0x80], 0), None);
}

#[test]
fn defaults() {
    assert_eq!(terminal_type(None), "xterm");
    assert_eq!(terminal_type(Some("vt100".to_string())), "vt100");
    assert_eq!(TERMINAL_TYPE, "xterm");
    assert_eq!(default_terminal_type(), "xterm");
    assert_eq!(default_log_destination(), LOG_DESTINATION);
    assert_eq!(default_log_format(), "%Y%m%d_%H%M%S.log");
    assert_eq!(default_timestamp_format(), "[%Y-%m-%d %H:%M:%S %Z] ");
    assert_eq!(ReadBufSize::default().unwrap(), READ_BUFFER_SIZE);
    assert_eq!(TcpConnectTimeout::default().unwrap(), 5);
}

#[test]
fn flags_keep_their_switches() {
    let mut f = Flags::new(true, false, true, false, true, Some("log.txt".to_string()));
    assert!(*f.nocolor());
    assert!(!*f.timestamp());
    assert!(*f.append());
    assert!(!*f.instead_crlf());
    assert!(!*f.hexdump());
    assert!(*f.debug());
    assert_eq!(f.write_file(), Some("log.txt".to_string()));
    *f.timestamp_mut() = true;
    *f.append_mut() = false;
    *f.instead_crlf_mut() = true;
    *f.debug_mut() = false;
    assert!(*f.timestamp() && !*f.append() && *f.instead_crlf() && !*f.debug() && *f.nocolor());
}
