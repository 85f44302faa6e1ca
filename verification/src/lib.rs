//! Resilient SSH sessions: persistent shells on remote hosts that survive
//! connection drops, and their cleanup when a window is closed.
//!
//! The library decides: which commands run on the remote host, what their
//! output means, what the log of pending closes holds. Whoever uses it talks to
//! the host, the disk and the user, and hands back what came of it.
//!
//! - `posix`, `cmd`, `upload` and `init` write commands and scripts, and `shell`
//!   models what a POSIX shell makes of them.
//! - `session`, `install` and `wal` are the procedures, one step at a time.
//! - `signal` and `verbose` hold what the process knows about itself.
//! - `text` and `filters` are what the others are built from.

pub mod cmd;
pub mod filters;
pub mod init;
pub mod install;
pub mod posix;
pub mod session;
pub mod shell;
pub mod signal;
pub mod text;
pub mod upload;
pub mod verbose;
pub mod wal;
