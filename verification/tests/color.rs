use sisterm::color::{
    is_24bit_color, is_24bit_color_hash, is_8bit_color, is_predefined_color, is_rgb_color,
    to_24bit_color, to_8bit_color, to_rgb_color, valid_color_syntax,
};
use sisterm::setting::Coloring;

#[test]
fn test_is_predefined_color() {
    let tests = vec![("BLACK", true), ("black", false), ("", false), ("shiro", false)];
    for (input, expect) in tests {
        assert_eq!(is_predefined_color(input), expect);
    }
}

#[test]
fn test_is_8bit_color() {
    let tests = vec![
        ("000", true),
        ("001", true),
        ("255", true),
        ("0", true),
        ("10", true),
        ("  1", false),
        ("256", false),
        ("aaa", false),
    ];
    for (input, expect) in tests {
        assert_eq!(is_8bit_color(input), expect);
    }
}

#[test]
fn test_is_24bit_color() {
    let tests = vec![
        ("000000", true),
        ("FF0000", true),
        ("FFFFFF", true),
        ("abcdef", true),
        ("GGGGGG", false),
        ("ff000", false),
        ("#ff000", false),
    ];
    for (input, expect) in tests {
        assert_eq!(is_24bit_color(input), expect);
    }
}

#[test]
fn test_is_24bit_color_hash() {
    let tests = vec![
        ("#000000", true),
        ("#FF0000", true),
        ("#FFFFFF", true),
        ("#abcdef", true),
        ("#GGGGGG", false),
        ("#ff000", false),
        ("ff000", false),
    ];
    for (input, expect) in tests {
        assert_eq!(is_24bit_color_hash(input), expect);
    }
}

#[test]
fn test_is_rgb_color() {
    let tests = vec![
        ("(0, 0, 0)", true),
        ("(000, 000, 000)", true),
        ("(255, 0, 0)", true),
        ("(255, 255, 255)", true),
        ("(255 255 255)", true),
        ("(256, 255, 255)", false),
        ("(FF, FF, FF)", false),
        ("(0, 0, 0, 0)", false),
        ("[255, 255, 255]", false),
    ];
    for (input, expect) in tests {
        assert_eq!(is_rgb_color(input), expect);
    }
}

#[test]
fn test_to_8bit_color() {
    let tests = vec![
        ("000", "\x1b[38;5;000m"),
        ("001", "\x1b[38;5;001m"),
        ("255", "\x1b[38;5;255m"),
    ];
    for (input, expect) in tests {
        assert_eq!(to_8bit_color(input, false), expect);
    }
}

#[test]
fn test_to_24bit_color() {
    let tests = vec![
        ("000000", "\x1b[38;2;0;0;0m"),
        ("FF0000", "\x1b[38;2;255;0;0m"),
        ("FFFFFF", "\x1b[38;2;255;255;255m"),
        ("abcdef", "\x1b[38;2;171;205;239m"),
    ];
    for (input, expect) in tests {
        assert_eq!(to_24bit_color(input, false), expect);
    }
}

#[test]
fn test_to_rgb_color() {
    let tests = vec![
        ("(0, 0, 0)", "\x1b[38;2;0;0;0m"),
        ("(000, 000, 000)", "\x1b[38;2;000;000;000m"),
        ("(255, 0, 0)", "\x1b[38;2;255;0;0m"),
        ("(255, 255, 255)", "\x1b[38;2;255;255;255m"),
        ("(255 255 255)", "\x1b[38;2;255;255;255m"),
    ];
    for (input, expect) in tests {
        assert_eq!(to_rgb_color(input, false), expect);
    }
}

#[test]
fn test_underlined() {
    let tests = vec![
        (to_8bit_color("123", true), "\x1b[4;38;5;123m"),
        (to_24bit_color("000000", true), "\x1b[4;38;2;0;0;0m"),
        (to_rgb_color("(0, 0, 0)", true), "\x1b[4;38;2;0;0;0m"),
    ];
    for (actual, expect) in tests {
        assert_eq!(actual, expect);
    }
}

fn coloring(color: &str, underlined: Option<bool>) -> Coloring {
    Coloring::new(color.to_string(), vec!["x".to_string()], underlined, None)
}

#[test]
fn valid_color_syntax_accepts_each_form() {
    let tests = vec![
        ("", None, "\x1b[0m"),
        ("", Some(true), "\x1b[4m"),
        ("RED", None, "\x1b[31m"),
        ("WHITE", Some(true), "\x1b[4m\x1b[37m"),
        ("RESET", None, "\x1b[0m"),
        ("184", None, "\x1b[38;5;184m"),
        ("FF0000", Some(false), "\x1b[38;2;255;0;0m"),
        ("#00ff7f", Some(true), "\x1b[4;38;2;0;255;127m"),
        ("+fffff", None, "\x1b[38;2;15;255;255m"),
        ("(128, 150, 200)", None, "\x1b[38;2;128;150;200m"),
        ("(1,2\u{3000}3)", None, "\x1b[38;2;1;2;3m"),
    ];
    for (color, underlined, expect) in tests {
        assert_eq!(valid_color_syntax(&coloring(color, underlined)), Ok(expect.to_string()));
    }
}

#[test]
fn valid_color_syntax_rejects_unknown_colors() {
    for color in ["red", "256", "GGGGGG", "(1, 2)", "#12345", "(1, 2, 300)", "-00000", "#-00000"] {
        assert_eq!(
            valid_color_syntax(&coloring(color, None)),
            Err(format!("invalid color syntax: \"{}\"", color))
        );
    }
}
