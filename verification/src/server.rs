//! Server component
//!
//! Handles the server-side logic for session management and client connections.
use vstd::prelude::*;
use vstd::string::StringExecFns;

verus! {

/// Server configuration
#[derive(Debug, Clone)]
pub struct ServerConfig {
    /// Session name
    pub session_name: String,
    /// Socket name for namespace isolation (-L flag)
    pub socket_name: Option<String>,
    /// Port for TCP communication
    pub port: Option<u16>,
}

impl Default for ServerConfig {
    fn default() -> (c: Self)
        ensures
            c.session_name@ == seq!['d', 'e', 'f', 'a', 'u', 'l', 't'],
            c.socket_name is None,
            c.port is None,
    {
        let name = String::from_str("default");
        proof {
            reveal_strlit("default");
        }
        ServerConfig { session_name: name, socket_name: None, port: None }
    }
}

/// Server instance
pub struct Server {
    config: ServerConfig,
}

impl Server {
    /// The configuration the server was made with.
    pub closed spec fn config(&self) -> ServerConfig {
        self.config
    }

    /// Create a new server with the given configuration
    pub fn new(config: ServerConfig) -> (s: Self)
        ensures
            s.config() == config,
    {
        Server { config }
    }

    /// Start the server event loop. The loop is not offered yet: the call succeeds
    /// without doing anything.
    pub fn run(&mut self) -> (r: Result<(), String>)
        ensures
            r == Ok::<(), String>(()),
            final(self).config() == old(self).config(),
    {
        Ok(())
    }
}

} // verus!
