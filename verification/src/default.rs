use vstd::prelude::*;

verus! {

pub const READ_BUFFER_SIZE: usize = 1024;
pub const TCP_CONNECT_TIMEOUT: u64 = 5;
pub const RETRY_AUTH_COUNT: usize = 3;
pub const TIMESTAMP_FORMAT: &'static str = "[%Y-%m-%d %H:%M:%S %Z] ";
pub const LOG_FORMAT: &'static str = "%Y%m%d_%H%M%S.log";
pub const LOG_DESTINATION: &'static str = "./";
pub const TERMINAL_TYPE: &'static str = "xterm";

/// The terminal type to report: the one the environment names (`TERM`), or `xterm`.
pub fn terminal_type(term: Option<String>) -> (r: String)
    ensures
        r@ == (match term {
            Some(t) => t@,
            None => TERMINAL_TYPE@,
        }),
{
    match term {
        Some(t) => t,
        None => TERMINAL_TYPE.to_string(),
    }
}

} // verus!
