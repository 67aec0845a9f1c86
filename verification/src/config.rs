//! Runtime configuration of the host program: the credentials and locations
//! it reads at startup and hands to the components that need them.

use vstd::prelude::*;

verus! {

/// The configuration values the host program runs with.
#[derive(Debug)]
pub struct Config {
    /// The chat-platform credential.
    pub discord_token: String,
    /// Where the persisted history lives.
    pub database_url: String,
    /// The archival store credential.
    pub imgbb_key: String,
}

impl Config {
    /// A configuration from its three values.
    pub fn new(discord_token: String, database_url: String, imgbb_key: String) -> (c: Config)
        ensures
            c.discord_token == discord_token,
            c.database_url == database_url,
            c.imgbb_key == imgbb_key,
    {
        Config { discord_token, database_url, imgbb_key }
    }
}

} // verus!
