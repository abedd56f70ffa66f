//! The server's configuration record.

use vstd::prelude::*;

use crate::text::{decimal, push_char, push_decimal};

verus! {

/// Where the store keeps its data.
pub struct Store {
    pub path: String,
}

/// What the server is started with.
pub struct Settings {
    pub listen_addr: String,
    pub port: u16,
    pub store: Store,
    pub seeds: Vec<String>,
}

impl Settings {
    /// The endpoint to listen on, `{listen_addr}:{port}`.
    pub fn listen_endpoint(&self) -> (r: String)
        ensures
            r@ == self.listen_addr@ + seq![':'] + decimal(self.port as nat),
    {
        let mut out = self.listen_addr.clone();
        push_char(&mut out, ':');
        push_decimal(&mut out, self.port as u64);
        out
    }
}

} // verus!
