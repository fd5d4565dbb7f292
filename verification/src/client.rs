//! Client component
//!
//! Handles the client-side logic for connecting to and interacting with the server.
use vstd::prelude::*;

verus! {

/// Client configuration
#[derive(Debug, Clone)]
pub struct ClientConfig {
    /// Target session name
    pub session_name: String,
    /// Socket name for namespace isolation (-L flag)
    pub socket_name: Option<String>,
}

/// Client instance
pub struct Client {
    config: ClientConfig,
}

impl Client {
    /// The configuration the client was made with.
    pub closed spec fn config(&self) -> ClientConfig {
        self.config
    }

    /// Create a new client with the given configuration
    pub fn new(config: ClientConfig) -> (c: Self)
        ensures
            c.config() == config,
    {
        Client { config }
    }

    /// Attach to the target session. Attaching is not offered yet: the call
    /// succeeds without doing anything.
    pub fn attach(&mut self) -> (r: Result<(), String>)
        ensures
            r == Ok::<(), String>(()),
            final(self).config() == old(self).config(),
    {
        Ok(())
    }

    /// Send a command to the server. Commands are not carried yet: the call
    /// succeeds with an empty reply.
    pub fn send_command(&mut self, cmd: &str) -> (r: Result<String, String>)
        ensures
            r matches Ok(reply) && reply@ == Seq::<char>::empty(),
            final(self).config() == old(self).config(),
    {
        Ok(String::new())
    }
}

} // verus!
