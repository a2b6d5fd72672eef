//! The process-wide immutable configuration: the command-line arguments as
//! parsed, and the configuration the request handlers read. Both are set
//! once at startup and only ever read afterwards, so any number of in-flight
//! requests may share them without coordination.

use vstd::prelude::*;

verus! {

/// The command-line arguments: the port to listen on, the directory to
/// serve, and an optional `user:password` basic-auth credential.
pub struct Arguments {
    pub port: u16,
    pub root_dir: String,
    pub basic_auth_credentials: Option<String>,
}

/// What the request handlers read: the optional configured credentials and
/// the root directory all served paths are confined to.
pub struct Configuration {
    pub auth_username: Option<String>,
    pub auth_password: Option<String>,
    pub root_dir: String,
}

} // verus!
