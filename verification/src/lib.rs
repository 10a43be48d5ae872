pub mod color;
pub mod default;
pub mod flag;
pub mod getch;
pub mod hexdump;
pub mod negotiation;
pub mod number;
pub mod queue;
pub mod repl;
pub mod session;
pub mod setting;
pub mod text;
pub mod utf8;
