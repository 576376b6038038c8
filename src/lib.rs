//! Chat-driven media playback control: chat line parsing and command grammar,
//! outbound line framing, the player IPC request/response correlation, and the
//! shared playlist cursor.
pub mod cache;
pub mod control;
pub mod dispatch;
pub mod formats;
pub mod frame;
pub mod irc;
pub mod mpv;
pub mod text;
pub mod twitch;
pub mod util;
