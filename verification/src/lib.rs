//! Core library of a headless Marmot messaging agent: identities, on-disk
//! layout, relay bookkeeping and the group/message logic around the Marmot
//! Development Kit.

pub mod codec;
pub mod context;
pub mod conversation;
pub mod follows;
pub mod identity;
pub mod order;
pub mod storage;
pub mod prelude;
pub mod relay;
pub mod rpc;

use vstd::prelude::*;

verus! {

/// `std::io::Error`.
#[verifier::external_type_specification]
#[verifier::external_body]
pub struct ExIoError(std::io::Error);


/// The relays every new identity and group starts with (those of the White
/// Noise messenger).
pub open spec fn default_relay_list() -> Seq<Seq<char>> {
    seq!["wss://nos.lol"@, "wss://relay.primal.net"@, "wss://relay.damus.io"@]
}

/// Whether `text` starts with `prefix`.
pub open spec fn starts_with(text: Seq<char>, prefix: Seq<char>) -> bool {
    prefix.len() <= text.len() && text.subrange(0, prefix.len() as int) == prefix
}

/// A text starts with whatever was put first in it.
pub proof fn lemma_starts_with_concat(prefix: Seq<char>, rest: Seq<char>)
    ensures
        starts_with(prefix + rest, prefix),
{
    assert((prefix + rest).subrange(0, prefix.len() as int) =~= prefix);
}

/// The views of a list of strings.
pub open spec fn string_views(v: Seq<String>) -> Seq<Seq<char>> {
    v.map_values(|s: String| s@)
}

/// Library-wide configuration.
#[derive(Debug, Clone, Default)]
pub struct Config {
    pub default_relays: Vec<String>,
    pub identity_path: String,
}

impl Config {
    /// Returns the default relay list inherited from the White Noise app.
    pub fn default_relays() -> (r: Vec<String>)
        ensures
            string_views(r@) == default_relay_list(),
    {
        let mut v: Vec<String> = Vec::new();
        v.push(String::from_str("wss://nos.lol"));
        v.push(String::from_str("wss://relay.primal.net"));
        v.push(String::from_str("wss://relay.damus.io"));
        assert(string_views(v@) =~= default_relay_list());
        v
    }
}

/// Everything that can go wrong in the agent.
#[derive(Debug)]
pub enum Error {
    Relay(String),
    Identity(String),
    Io(std::io::Error),
    /// The message of an `anyhow::Error`.
    Any(String),
    Serialization(String),
    Storage(String),
    Group(String),
}

/// Result type of the agent.
pub type Result<T> = std::result::Result<T, Error>;

} // verus!
