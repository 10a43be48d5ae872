use sisterm::session::{
    auto_log_format, check_log_file, choose_baud, choose_port, config_file_help_message,
    config_file_help_message_for, config_file_path, config_file_path_for, next_auth_step,
    parse_arguments, AuthNext, parse_baud_rate, ArgFlags, LogFileCheck,
};
use sisterm::setting::{Params, ReadBufSize, Setting, TcpConnectTimeout};

#[test]
fn test_config_file_help_message() {
    assert_eq!(
        config_file_help_message(),
        "Specify configuration file\n[default $HOME/.config/sisterm/config.toml]"
    );
}

#[test]
fn config_file_path_is_where_the_help_text_says() {
    assert_eq!(config_file_path(Some("/home/u".to_string())), "/home/u/.config/sisterm/config.toml");
    assert_eq!(config_file_path(None), "$HOME/.config/sisterm/config.toml");
}

fn params(auto_save_log: bool, port: Option<&str>, speed: Option<&str>) -> Option<Params> {
    let setting = Setting {
        port: port.map(|s| s.to_string()),
        speed: speed.map(|s| s.to_string()),
        crlf: true,
        read_buf_size: ReadBufSize::default(),
        tcp_connect_timeout: TcpConnectTimeout::default(),
        timestamp_format: "%H".to_string(),
        debug: true,
        timestamp: true,
        auto_save_log,
        log_format: "%Y.log".to_string(),
        log_destination: "/var/log//".to_string(),
        terminal_type: "xterm".to_string(),
        colorings: vec![],
    };
    Some(Params::from_setting(setting).unwrap())
}

#[test]
fn log_file_checks() {
    let f = Some("log.txt".to_string());
    assert_eq!(check_log_file(&None, true, false), LogFileCheck::Proceed);
    assert_eq!(check_log_file(&f, true, false), LogFileCheck::ConfirmOverwrite);
    assert_eq!(check_log_file(&f, true, true), LogFileCheck::Proceed);
    assert_eq!(check_log_file(&f, false, true), LogFileCheck::ConfirmCreate);
    assert_eq!(check_log_file(&f, false, false), LogFileCheck::Proceed);
}

#[test]
fn arguments_merge_with_configuration() {
    let p = params(true, None, None);
    assert_eq!(auto_log_format(&p), Some("/var/log/%Y.log".to_string()));
    assert_eq!(auto_log_format(&params(false, None, None)), None);
    assert_eq!(auto_log_format(&None), None);

    let args = ArgFlags {
        nocolor: false,
        timestamp: false,
        append: true,
        crlf: false,
        hexdump: true,
        write_file: None,
    };
    let flags = parse_arguments(args, &p, Some("/var/log/2024.log".to_string()));
    assert!(*flags.timestamp());
    assert!(*flags.instead_crlf());
    assert!(*flags.debug());
    assert!(*flags.hexdump());
    assert!(*flags.append());
    assert!(!*flags.nocolor());
    assert_eq!(flags.write_file(), Some("/var/log/2024.log".to_string()));

    let args = ArgFlags {
        nocolor: true,
        timestamp: false,
        append: false,
        crlf: false,
        hexdump: false,
        write_file: Some("mine.log".to_string()),
    };
    let flags = parse_arguments(args, &None, None);
    assert!(!*flags.timestamp());
    assert!(!*flags.debug());
    assert!(*flags.nocolor());
    assert_eq!(flags.write_file(), Some("mine.log".to_string()));
}

#[test]
fn port_and_baud_choices() {
    let p = params(false, Some("/dev/ttyS1"), Some("115200"));
    assert_eq!(choose_port(Some("/dev/ttyUSB0".to_string()), &p, None), Some("/dev/ttyUSB0".to_string()));
    assert_eq!(choose_port(None, &p, Some("/dev/ttyACM0".to_string())), Some("/dev/ttyS1".to_string()));
    assert_eq!(choose_port(None, &None, Some("/dev/ttyACM0".to_string())), Some("/dev/ttyACM0".to_string()));
    assert_eq!(choose_port(None, &None, None), None);
    assert_eq!(choose_baud(Some("9600".to_string()), &p), Some("115200".to_string()));
    assert_eq!(choose_baud(Some("9600".to_string()), &params(false, None, None)), Some("9600".to_string()));
    assert_eq!(choose_baud(None, &None), None);
    assert_eq!(parse_baud_rate("115200"), Some(115200));
    assert_eq!(parse_baud_rate("+9600"), Some(9600));
    assert_eq!(parse_baud_rate("4294967295"), Some(4294967295));
    assert_eq!(parse_baud_rate("4294967296"), None);
    assert_eq!(parse_baud_rate("fast"), None);
    assert_eq!(parse_baud_rate(""), None);
}

#[test]
fn windows_forms_of_the_configuration_path() {
    assert_eq!(
        config_file_help_message_for(true),
        "Specify configuration file\n[default %LOCALAPPDATA%/sisterm/config.toml]"
    );
    assert_eq!(config_file_help_message_for(false), config_file_help_message());
    assert_eq!(
        config_file_path_for(true, Some("C:/Users/u/AppData/Local".to_string())),
        "C:/Users/u/AppData/Local/sisterm/config.toml"
    );
    assert_eq!(config_file_path_for(true, None), "%LOCALAPPDATA%/sisterm/config.toml");
    assert_eq!(config_file_path_for(false, None), "$HOME/.config/sisterm/config.toml");
}

#[test]
fn ssh_login_is_tried_three_times_at_most() {
    assert_eq!(next_auth_step(1, true), AuthNext::LoggedIn);
    assert_eq!(next_auth_step(3, true), AuthNext::LoggedIn);
    assert_eq!(next_auth_step(1, false), AuthNext::AskAgain);
    assert_eq!(next_auth_step(2, false), AuthNext::AskAgain);
    assert_eq!(next_auth_step(3, false), AuthNext::GiveUp);
}
