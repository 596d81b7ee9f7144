//! Verified core of a minimal todo service: the route table, the JSON
//! wire format (encoding of stored items and error bodies, decoding of
//! the creation payload), response shaping, and startup configuration.
//! Text travels as UTF-8 bytes throughout.
use vstd::prelude::*;

pub mod http;
pub mod json;
pub mod laws;
pub mod parse;

verus! {

/// A stored todo item. The storage backend assigns `id` on insert;
/// `title` and `completed` are supplied by the client at creation.
pub struct Todo {
    pub id: i32,
    pub title: Vec<u8>,
    pub completed: bool,
}

/// The client-supplied payload for creating a todo item.
pub struct CreateTodo {
    pub title: Vec<u8>,
    pub completed: bool,
}

/// Raised when the startup environment lacks what the service needs.
#[derive(Debug)]
pub enum StartupError {
    MissingDatabaseUrl,
}

/// Immutable startup configuration, built once at boot and passed down.
pub struct Config {
    pub database_url: Vec<u8>,
    pub commit_sha: Vec<u8>,
    pub max_connections: u32,
    pub acquire_timeout_secs: u64,
}

/// The placeholder commit identifier, `development` as bytes.
pub open spec fn default_commit_sha() -> Seq<u8> {
    seq![100u8, 101u8, 118u8, 101u8, 108u8, 111u8, 112u8, 109u8, 101u8, 110u8, 116u8]
}

impl Config {
    /// Builds the startup configuration from the environment values handed
    /// in: the connection string is required, the commit identifier falls
    /// back to a fixed placeholder, and the pool bounds are fixed at five
    /// connections with a thirty-second acquire timeout.
    pub fn from_env(database_url: Option<Vec<u8>>, commit_sha: Option<Vec<u8>>) -> (r: Result<
        Config,
        StartupError,
    >)
        ensures
            database_url is None ==> (r matches Err(e) && e is MissingDatabaseUrl),
            database_url matches Some(u) ==> (r matches Ok(c) && c.database_url@ == u@
                && c.max_connections == 5 && c.acquire_timeout_secs == 30 && (match commit_sha {
                Some(s) => c.commit_sha@ == s@,
                None => c.commit_sha@ == default_commit_sha(),
            })),
    {
        match database_url {
            None => Err(StartupError::MissingDatabaseUrl),
            Some(url) => {
                let sha: Vec<u8> = match commit_sha {
                    Some(s) => s,
                    None => {
                        let mut d: Vec<u8> = Vec::new();
                        d.push(100);
                        d.push(101);
                        d.push(118);
                        d.push(101);
                        d.push(108);
                        d.push(111);
                        d.push(112);
                        d.push(109);
                        d.push(101);
                        d.push(110);
                        d.push(116);
                        proof {
                            assert(d@ =~= default_commit_sha());
                        }
                        d
                    },
                };
                Ok(Config {
                    database_url: url,
                    commit_sha: sha,
                    max_connections: 5,
                    acquire_timeout_secs: 30,
                })
            },
        }
    }
}

} // verus!
