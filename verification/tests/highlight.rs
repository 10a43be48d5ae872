use sisterm::color::{coloring_from_file, coloring_words, find_first_match};
use sisterm::setting::{Coloring, Params, ReadBufSize, Setting, SettingError, TcpConnectTimeout};

fn setting_with(colorings: Vec<Coloring>) -> Setting {
    Setting {
        port: None,
        speed: None,
        crlf: false,
        read_buf_size: ReadBufSize::default(),
        tcp_connect_timeout: TcpConnectTimeout::default(),
        timestamp_format: "%H".to_string(),
        debug: false,
        timestamp: false,
        auto_save_log: false,
        log_format: "%Y.log".to_string(),
        log_destination: "/tmp".to_string(),
        terminal_type: "xterm".to_string(),
        colorings,
    }
}

fn red_error() -> Option<Params> {
    let coloring = Coloring::new("RED".to_string(), vec!["error".to_string()], None, None);
    Some(Params::from_setting(setting_with(vec![coloring])).unwrap())
}

#[test]
fn words_are_highlighted_as_they_arrive() {
    let params = red_error();
    let mut state = (String::new(), false, false);
    let shown = coloring_words("an error here", &mut state, &params).unwrap();
    assert_eq!(shown, "an erro\x08\x08\x08\x08\x1b[31merror\x1b[0m here");
    assert_eq!(state, ("here".to_string(), false, false));
}

#[test]
fn highlighting_carries_over_between_reads() {
    let params = red_error();
    let mut state = (String::new(), false, false);
    let first = coloring_words("err", &mut state, &params).unwrap();
    assert_eq!(first, "err");
    assert_eq!(state, ("err".to_string(), false, false));
    let second = coloring_words("or\n", &mut state, &params).unwrap();
    assert_eq!(second, "o\x08\x08\x08\x08\x1b[31merror\x1b[0m\n");
    assert_eq!(state, ("".to_string(), false, false));
}

#[test]
fn file_lines_are_highlighted() {
    let shown = coloring_from_file("an error\nok\n".to_string(), red_error()).unwrap();
    assert_eq!(shown, "an \x1b[31merror\x1b[0m\nok\x1b[0m\n");
}

#[test]
fn file_is_shown_unchanged_without_configuration() {
    assert_eq!(coloring_from_file("a\nb".to_string(), None).unwrap(), "a\nb");
}

#[test]
fn first_match_is_found_in_rule_order() {
    let params = red_error().unwrap();
    assert_eq!(find_first_match(&params.syntaxes, "an error"), Some((1, "error".to_string())));
    assert_eq!(find_first_match(&params.syntaxes, "fine"), None);
}

#[test]
fn settings_with_bad_patterns_are_refused() {
    let coloring = Coloring::new("RED".to_string(), vec!["(".to_string()], None, None);
    match Params::from_setting(setting_with(vec![coloring])) {
        Err(SettingError::InvalidRegex(p)) => assert_eq!(p, "("),
        _ => panic!("expected an invalid pattern"),
    }
}

#[test]
fn settings_with_bad_colors_are_refused() {
    let coloring = Coloring::new("blue".to_string(), vec!["x".to_string()], None, None);
    assert!(matches!(
        Params::from_setting(setting_with(vec![coloring])),
        Err(SettingError::InvalidColor(_))
    ));
}

#[test]
fn settings_keep_their_values() {
    let coloring = Coloring::new("#00ff00".to_string(), vec!["ok".to_string()], Some(true), Some(true));
    let params = Params::from_setting(setting_with(vec![coloring])).unwrap();
    assert_eq!(params.syntaxes.len(), 2);
    assert_eq!(params.syntaxes[1].color(), "\x1b[4;38;2;0;255;0m");
    assert!(params.syntaxes[1].ignore_whitespace());
    assert_eq!(params.syntaxes[0].color(), "\x1b[0m");
    assert_eq!(params.read_buf_size, 1024);
    assert_eq!(params.terminal_type, "xterm");
}

#[test]
fn text_without_matches_is_shown_as_it_came() {
    let params = red_error();
    let mut state = (String::new(), false, false);
    let text = "all fine\r\nno problems at all\x08";
    assert_eq!(coloring_words(text, &mut state, &params).unwrap(), text);
    assert!(!state.1);
    let shown = coloring_from_file("all fine\nreally\n".to_string(), red_error()).unwrap();
    assert_eq!(shown, "all fine\x1b[0m\nreally\x1b[0m\n");
}

#[test]
fn signed_hexadecimal_colors_are_invalid() {
    for color in ["-fffff", "#-fffff", "-00000"] {
        let coloring = Coloring::new(color.to_string(), vec!["x".to_string()], None, None);
        match Params::from_setting(setting_with(vec![coloring])) {
            Err(SettingError::InvalidColor(m)) => {
                assert_eq!(m, format!("invalid color syntax: \"{}\"", color))
            }
            _ => panic!("expected an invalid color for {}", color),
        }
    }
}

#[test]
fn hexadecimal_components_may_carry_a_plus_sign() {
    let coloring = Coloring::new("+fffff".to_string(), vec!["x".to_string()], None, None);
    let params = Params::from_setting(setting_with(vec![coloring])).unwrap();
    assert_eq!(params.syntaxes[1].color(), "\x1b[38;2;15;255;255m");
}

fn params_for(color: &str, pattern: &str) -> Option<Params> {
    let coloring = Coloring::new(color.to_string(), vec![pattern.to_string()], None, None);
    Some(Params::from_setting(setting_with(vec![coloring])).unwrap())
}

fn strip_escapes(s: &str) -> String {
    let mut out = String::new();
    let mut inside = false;
    for c in s.chars() {
        if inside {
            inside = c != 'm';
        } else if c == '\x1b' {
            inside = true;
        } else {
            out.push(c);
        }
    }
    out
}

#[test]
fn a_word_that_stops_matching_is_not_shown_twice() {
    let shown = coloring_from_file("upd\n".to_string(), params_for("RED", "^up$")).unwrap();
    assert_eq!(shown, "\x1b[31mup\x1b[0md\x1b[0m\n");
    assert_eq!(strip_escapes(&shown), "upd\n");
}

#[test]
fn file_highlighting_only_adds_colors() {
    let text = "interface up\nline protocol is down, updating\nerrors: none up down\n";
    for (color, pattern) in [("GREEN", "up"), ("(255, 0, 0)", "down|none"), ("184", "e")] {
        let shown = coloring_from_file(text.to_string(), params_for(color, pattern)).unwrap();
        assert_eq!(strip_escapes(&shown), text);
    }
}
