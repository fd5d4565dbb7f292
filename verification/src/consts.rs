//! Named constants for values used across the codebase.
use vstd::prelude::*;

verus! {

/// Default terminal width (columns).
pub const DEFAULT_COLS: u16 = 80;

/// Default terminal height (rows).
pub const DEFAULT_ROWS: u16 = 24;

/// Tab stop interval (columns).
pub const TAB_WIDTH: u16 = 8;

/// PTY reader buffer size.
pub const PTY_READ_BUF_SIZE: usize = 65536;

/// Stdin buffer size for the attach loop.
pub const STDIN_BUF_SIZE: usize = 1024;

/// Pre-allocated capacity for the screen transcript buffer.
pub const TRANSCRIPT_BUF_CAPACITY: usize = 4096;

/// Maximum IPC message payload size (16 MiB).
pub const MAX_IPC_MESSAGE_SIZE: usize = 16 * 1024 * 1024;

/// Attach mode screen refresh interval (milliseconds).
pub const ATTACH_REFRESH_MS: u64 = 33;

/// Default timeout for the `expect` command (milliseconds).
pub const DEFAULT_EXPECT_TIMEOUT_MS: u64 = 10_000;

/// Polling interval for the `expect` command (milliseconds).
pub const EXPECT_POLL_MS: u64 = 50;

/// Interval between dead-session reap cycles (seconds).
pub const REAP_INTERVAL_SECS: u64 = 2;

/// Maximum time to wait for the daemon to start (seconds).
pub const DAEMON_STARTUP_TIMEOUT_SECS: u64 = 5;

/// Delay between pipe-busy retries (milliseconds).
pub const PIPE_RETRY_DELAY_MS: u64 = 50;

/// Maximum number of pipe-busy retries.
pub const PIPE_RETRY_MAX_ATTEMPTS: u32 = 20;

/// Environment variable to enable debug logging.
pub const ENV_LOG: &'static str = "EMX_PMUX_LOG";

/// Environment variable to set session log output directory.
pub const ENV_SESSION_LOG_PATH: &'static str = "EMX_PMUX_LOG_SESSION_PATH";

/// `CREATE_NO_WINDOW` flag for process creation on Windows.
pub const CREATE_NO_WINDOW: u32 = 0x0800_0000;

} // verus!
