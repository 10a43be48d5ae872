use vstd::prelude::*;
use crate::flag::{opt_string_view, Flags, FlagsView};
use crate::number::{self, parse_u32_chars};
use crate::setting::Params;
use crate::default::RETRY_AUTH_COUNT;
use crate::text::{chars_of, push_all, push_chars, string_of, sub_chars};

verus! {

/// What to ask before a session writes its log file.
#[derive(Debug, Clone, Copy, PartialEq, Eq)]
pub enum LogFileCheck {
    /// Nothing to ask.
    Proceed,
    /// The file exists and is not appended to: ask before overwriting it.
    ConfirmOverwrite,
    /// The file does not exist but appending was asked for: ask before creating it (the
    /// session then writes it afresh).
    ConfirmCreate,
}

/// What to ask about the log file `write_file`, given whether it exists and whether the
/// session appends to it.
pub fn check_log_file(write_file: &Option<String>, exists: bool, append: bool) -> (r: LogFileCheck)
    ensures
        r == (if write_file is None {
            LogFileCheck::Proceed
        } else if exists {
            if append { LogFileCheck::Proceed } else { LogFileCheck::ConfirmOverwrite }
        } else if append {
            LogFileCheck::ConfirmCreate
        } else {
            LogFileCheck::Proceed
        }),
{
    match write_file {
        None => LogFileCheck::Proceed,
        Some(_) => {
            if exists {
                if append {
                    LogFileCheck::Proceed
                } else {
                    LogFileCheck::ConfirmOverwrite
                }
            } else if append {
                LogFileCheck::ConfirmCreate
            } else {
                LogFileCheck::Proceed
            }
        },
    }
}

/// The switches given on the command line.
pub struct ArgFlags {
    pub nocolor: bool,
    pub timestamp: bool,
    pub append: bool,
    pub crlf: bool,
    pub hexdump: bool,
    pub write_file: Option<String>,
}

/// `s` without the characters `c` at its end (`trim_end_matches`).
pub open spec fn trim_end(s: Seq<char>, c: char) -> Seq<char>
    decreases s.len(),
{
    if s.len() > 0 && s.last() == c {
        trim_end(s.drop_last(), c)
    } else {
        s
    }
}

/// The `strftime` format of the log file's path when logs are saved without being asked
/// for: the log directory without its trailing slashes, a slash, and the file name format.
pub open spec fn spec_auto_log_format(destination: Seq<char>, format: Seq<char>) -> Seq<char> {
    trim_end(destination, '/') + seq!['/'] + format
}

/// The format of the log file's path, when the configuration saves logs by itself.
pub fn auto_log_format(params: &Option<Params>) -> (r: Option<String>)
    ensures
        match params {
            Some(p) => if p.auto_save_log {
                r matches Some(s) && s@ == spec_auto_log_format(p.log_destination@, p.log_format@)
            } else {
                r is None
            },
            None => r is None,
        },
{
    match params {
        Some(p) => {
            if !p.auto_save_log {
                return None;
            }
            let dest = chars_of(p.log_destination.as_str());
            let mut n = dest.len();
            assert(dest@.subrange(0, n as int) =~= dest@);
            while n > 0 && dest[n - 1] == '/'
                invariant
                    n <= dest@.len(),
                    trim_end(dest@, '/') == trim_end(dest@.subrange(0, n as int), '/'),
                decreases n,
            {
                assert(dest@.subrange(0, n as int).drop_last() =~= dest@.subrange(0, n - 1));
                n -= 1;
            }
            let kept = sub_chars(&dest, 0, n);
            assert(trim_end(dest@.subrange(0, n as int), '/') == dest@.subrange(0, n as int));
            let mut s = string_of(kept.as_slice());
            push_chars(&mut s, &['/']);
            push_all(&mut s, p.log_format.as_str());
            assert(s@ =~= spec_auto_log_format(p.log_destination@, p.log_format@));
            Some(s)
        },
        None => None,
    }
}

/// The switches of a session, from the command line and the configuration: time stamps and
/// CR LF when either asks for them, debug mode when the configuration does, and the log file
/// named on the command line or else, when the configuration saves logs by itself,
/// `auto_log_file` (its format filled in with the time).
pub fn parse_arguments(args: ArgFlags, params: &Option<Params>, auto_log_file: Option<String>) -> (r: Flags)
    ensures
        r@ == (FlagsView {
            nocolor: args.nocolor,
            timestamp: args.timestamp || (params matches Some(p) && p.timestamp),
            append: args.append,
            instead_crlf: args.crlf || (params matches Some(p) && p.crlf),
            hexdump: args.hexdump,
            debug: params matches Some(p) && p.debug,
            write_file: if args.write_file is Some {
                opt_string_view(args.write_file)
            } else if params matches Some(p) && p.auto_save_log {
                opt_string_view(auto_log_file)
            } else {
                None
            },
        }),
{
    let (timestamp, crlf, debug, auto) = match params {
        Some(p) => (args.timestamp || p.timestamp, args.crlf || p.crlf, p.debug, p.auto_save_log),
        None => (args.timestamp, args.crlf, false, false),
    };
    let write_file = match args.write_file {
        Some(w) => Some(w),
        None => if auto {
            auto_log_file
        } else {
            None
        },
    };
    let mut flags = Flags::new(args.nocolor, timestamp, args.append, crlf, debug, write_file);
    *flags.hexdump_mut() = args.hexdump;
    flags
}

/// The serial port to open: the one named on the command line, else the configuration's,
/// else the first one found.
pub fn choose_port(arg_port: Option<String>, params: &Option<Params>, detected: Option<String>) -> (r: Option<String>)
    ensures
        r == (if arg_port is Some {
            arg_port
        } else if params matches Some(p) && p.port is Some {
            params->0.port
        } else {
            detected
        }),
{
    if arg_port.is_some() {
        return arg_port;
    }
    match params {
        Some(p) => match &p.port {
            Some(port) => Some(port.clone()),
            None => detected,
        },
        None => detected,
    }
}

/// The baud rate to connect at: with a configuration, its speed before the command line's;
/// without one, the command line's.
pub fn choose_baud(arg_baud: Option<String>, params: &Option<Params>) -> (r: Option<String>)
    ensures
        r == (if params matches Some(p) && p.speed is Some { params->0.speed } else { arg_baud }),
{
    match params {
        Some(p) => match &p.speed {
            Some(s) => Some(s.clone()),
            None => arg_baud,
        },
        None => arg_baud,
    }
}

/// The baud rate as a number (`str::parse::<u32>()`).
pub fn parse_baud_rate(baud: &str) -> (r: Option<u32>)
    ensures
        r == (match number::parse_unsigned(baud@, 10, 0xffff_ffff) {
            Some(v) => Some(v as u32),
            None => None::<u32>,
        }),
{
    let chars = chars_of(baud);
    parse_u32_chars(&chars)
}

/// The help text of the `--config` option, on Windows (`windows`) or elsewhere.
pub fn config_file_help_message_for(windows: bool) -> (r: &'static str)
    ensures
        r@ == (if windows {
            "Specify configuration file\n[default %LOCALAPPDATA%/sisterm/config.toml]"@
        } else {
            "Specify configuration file\n[default $HOME/.config/sisterm/config.toml]"@
        }),
{
    if windows {
        "Specify configuration file\n[default %LOCALAPPDATA%/sisterm/config.toml]"
    } else {
        "Specify configuration file\n[default $HOME/.config/sisterm/config.toml]"
    }
}

/// The help text of the `--config` option on a POSIX system.
pub fn config_file_help_message() -> (r: &'static str)
    ensures
        r@ == "Specify configuration file\n[default $HOME/.config/sisterm/config.toml]"@,
{
    config_file_help_message_for(false)
}

/// The name of the variable that holds the directory of the configuration, as written where
/// the variable is not set: `%LOCALAPPDATA%` on Windows, `$HOME` elsewhere.
pub open spec fn dir_variable(windows: bool) -> Seq<char> {
    if windows {
        seq!['%', 'L', 'O', 'C', 'A', 'L', 'A', 'P', 'P', 'D', 'A', 'T', 'A', '%']
    } else {
        seq!['$', 'H', 'O', 'M', 'E']
    }
}

/// Where the configuration file lies below its directory: `/sisterm/config.toml` on Windows,
/// `/.config/sisterm/config.toml` elsewhere.
pub open spec fn config_suffix(windows: bool) -> Seq<char> {
    if windows {
        seq!['/', 's', 'i', 's', 't', 'e', 'r', 'm', '/', 'c', 'o', 'n', 'f', 'i', 'g', '.', 't', 'o', 'm', 'l']
    } else {
        seq!['/', '.', 'c', 'o', 'n', 'f', 'i', 'g', '/', 's', 'i', 's', 't', 'e', 'r', 'm', '/', 'c', 'o', 'n', 'f', 'i', 'g', '.', 't', 'o', 'm', 'l']
    }
}

/// The configuration file's path, on Windows (`windows`) or elsewhere, below the directory
/// `dir` (the value of `LOCALAPPDATA` on Windows, of `HOME` elsewhere), or below the
/// variable's name as written when it is not set.
pub fn config_file_path_for(windows: bool, dir: Option<String>) -> (r: String)
    ensures
        r@ == (match dir {
            Some(h) => h@,
            None => dir_variable(windows),
        }) + config_suffix(windows),
{
    let mut r = match dir {
        Some(h) => h,
        None => if windows {
            string_of(&['%', 'L', 'O', 'C', 'A', 'L', 'A', 'P', 'P', 'D', 'A', 'T', 'A', '%'])
        } else {
            string_of(&['$', 'H', 'O', 'M', 'E'])
        },
    };
    if windows {
        push_chars(&mut r, &['/', 's', 'i', 's', 't', 'e', 'r', 'm', '/', 'c', 'o', 'n', 'f', 'i', 'g', '.', 't', 'o', 'm', 'l']);
    } else {
        push_chars(&mut r, &['/', '.', 'c', 'o', 'n', 'f', 'i', 'g', '/', 's', 'i', 's', 't', 'e', 'r', 'm', '/', 'c', 'o', 'n', 'f', 'i', 'g', '.', 't', 'o', 'm', 'l']);
    }
    r
}

/// The configuration file's path on a POSIX system, `<home>/.config/sisterm/config.toml`, or
/// below `$HOME` as written when the home directory is not known.
pub fn config_file_path(home: Option<String>) -> (r: String)
    ensures
        r@ == (match home {
            Some(h) => h@,
            None => seq!['$', 'H', 'O', 'M', 'E'],
        }) + seq!['/', '.', 'c', 'o', 'n', 'f', 'i', 'g', '/', 's', 'i', 's', 't', 'e', 'r', 'm', '/', 'c', 'o', 'n', 'f', 'i', 'g', '.', 't', 'o', 'm', 'l'],
{
    config_file_path_for(false, home)
}

} // verus!

verus! {

/// What follows an attempt to log in to an SSH server.
#[derive(Debug, Clone, Copy, PartialEq, Eq)]
pub enum AuthNext {
    /// The server accepted the user and password.
    LoggedIn,
    /// Ask for the user and password again.
    AskAgain,
    /// No tries are left; the session goes on without asking again.
    GiveUp,
}

/// After the `attempt`-th try (counting from 1) to log in, which `succeeded` or not: stop
/// on success, ask again while fewer than `RETRY_AUTH_COUNT` tries were made, else give up.
pub fn next_auth_step(attempt: usize, succeeded: bool) -> (r: AuthNext)
    ensures
        r == (if succeeded {
            AuthNext::LoggedIn
        } else if attempt < RETRY_AUTH_COUNT {
            AuthNext::AskAgain
        } else {
            AuthNext::GiveUp
        }),
{
    if succeeded {
        AuthNext::LoggedIn
    } else if attempt < RETRY_AUTH_COUNT {
        AuthNext::AskAgain
    } else {
        AuthNext::GiveUp
    }
}

} // verus!
