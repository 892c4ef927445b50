//! Pure decisions behind the alacritree terminal: file naming and identity,
//! OSC parsing, the PTY tap and drain state machines, and the terminal row.

pub mod text;
pub mod logdir;
pub mod upstream;
pub mod diag;
pub mod stall;
pub mod crash_log;
pub mod clipboard;
pub mod crashes;
pub mod env_block;
pub mod faces;
pub mod osc;
pub mod tap;
pub mod rearm;
pub mod row;
pub mod mouse;
