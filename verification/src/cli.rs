//! Command-line arguments (GNU screen compatible) and the operation they select.
use vstd::prelude::*;

verus! {

/// pmux - cross-platform terminal multiplexer (screen-compatible)
#[derive(Debug, Clone)]
pub struct Args {
    /// List sessions (screen -ls equivalent)
    pub list: bool,
    /// View/peek session screen buffer (non-interactive, unlike -r)
    pub view: bool,
    /// Resume/attach to a session (screen -r equivalent)
    pub resume: bool,
    /// Detach a session elsewhere
    pub detach: bool,
    /// Send command to a running session (screen -X equivalent)
    pub execute: bool,
    /// Session name (screen -S equivalent)
    pub session: Option<String>,
    /// Command to run (screen -s/-c equivalent)
    pub command: Option<String>,
    /// Terminal width
    pub width: u16,
    /// Terminal height
    pub height: u16,
    /// Show daemon status
    pub status: bool,
    /// Stop the daemon
    pub stop: bool,
    /// Ping the daemon
    pub ping: bool,
    /// (internal) Run as daemon
    pub daemon: bool,
    /// Command arguments for -X mode
    pub command_args: Vec<String>,
}

/// Operation mode derived from command-line flags
#[derive(Debug, Clone, Copy, PartialEq, Eq, Structural)]
pub enum Mode {
    /// Create a new session
    Create,
    /// List sessions
    List,
    /// View session screen buffer (non-interactive)
    View,
    /// Resume/attach to a session
    Resume,
    /// Execute command on running session
    Exec,
    /// Show daemon status
    Status,
    /// Stop daemon
    Stop,
    /// Ping daemon
    Ping,
    /// Run as daemon
    Daemon,
}

/// The mode the flags select: the first set flag in the order daemon, status, stop,
/// ping, list, view, exec, resume; otherwise a new session is created.
pub open spec fn mode_of(a: Args) -> Mode {
    if a.daemon {
        Mode::Daemon
    } else if a.status {
        Mode::Status
    } else if a.stop {
        Mode::Stop
    } else if a.ping {
        Mode::Ping
    } else if a.list {
        Mode::List
    } else if a.view {
        Mode::View
    } else if a.execute {
        Mode::Exec
    } else if a.resume {
        Mode::Resume
    } else {
        Mode::Create
    }
}

impl Args {
    /// Determine the operation mode based on flags
    pub fn mode(&self) -> (m: Mode)
        ensures
            m == mode_of(*self),
    {
        if self.daemon {
            return Mode::Daemon;
        }
        if self.status {
            return Mode::Status;
        }
        if self.stop {
            return Mode::Stop;
        }
        if self.ping {
            return Mode::Ping;
        }
        if self.list {
            return Mode::List;
        }
        if self.view {
            return Mode::View;
        }
        if self.execute {
            return Mode::Exec;
        }
        if self.resume {
            return Mode::Resume;
        }
        Mode::Create
    }
}

} // verus!
