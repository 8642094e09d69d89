//! Configuration values, built once and passed by reference.
//!
//! The supervisor reads only `PinentryConfig`; the secrets- and vault-manager
//! entries configure the wider application around it and are carried here as
//! plain values.

use vstd::prelude::*;

use crate::error::Error;

verus! {

/// How the secrets-manager credential is identified and looked up.
pub struct SecretsAPIConfig {
    /// The key under which the access token is looked up.
    pub access_token_key: String,
    /// The access token itself, when configured directly.
    pub access_token: String,
    /// The project the secrets belong to.
    pub project_name: String,
}

impl Default for SecretsAPIConfig {
    /// The built-in secrets defaults: a well-known token key, no inline
    /// token, and the application's own project name.
    fn default() -> (r: Self)
        ensures
            r.access_token_key@ == "pinentry-bitwarden-access-token"@,
            r.access_token@ == ""@,
            r.project_name@ == "pinentry-bitwarden"@,
    {
        SecretsAPIConfig {
            access_token_key: String::from_str("pinentry-bitwarden-access-token"),
            access_token: String::from_str(""),
            project_name: String::from_str("pinentry-bitwarden"),
        }
    }
}

/// The vault-manager keys; none are needed yet.
#[derive(Default)]
pub struct VaultAPIConfig {}

/// Where the pinentry helper lives and how it is reached.
pub struct PinentryConfig {
    /// The helper's program name or path, resolved against the search path.
    pub program_path: String,
    /// The helper's extra arguments, one string split on whitespace.
    pub program_args: String,
    /// The socket path through which the helper serves, absolute or
    /// explicitly user-relative.
    pub socket_path: String,
}

/// The advisory shape of a socket endpoint: an absolute path or an explicitly
/// user-relative one. Existence on disk is a separate, weaker signal.
pub open spec fn valid_endpoint(path: Seq<char>) -> bool {
    path.len() > 0 && (path[0] == '/' || path[0] == '~')
}

impl Default for PinentryConfig {
    /// The built-in defaults: the helper `pinentry-box` on the search path,
    /// started with `--start-server`, behind a user-relative socket path.
    fn default() -> (r: Self)
        ensures
            r.program_path@ == "pinentry-box"@,
            r.program_args@ == "--start-server"@,
            r.socket_path@ == "~/.pinentry-box.sock"@,
            valid_endpoint(r.socket_path@),
    {
        let r = PinentryConfig {
            program_path: String::from_str("pinentry-box"),
            program_args: String::from_str("--start-server"),
            socket_path: String::from_str("~/.pinentry-box.sock"),
        };
        proof {
            reveal_strlit("~/.pinentry-box.sock");
        }
        r
    }
}

/// Checks the advisory shape of a socket endpoint before a connect is even
/// attempted; a malformed endpoint is the connect failure `NotFound`.
pub fn check_endpoint(path: &String) -> (r: Result<(), Error>)
    ensures
        r is Ok <==> valid_endpoint(path@),
        r is Err ==> r == Err::<(), Error>(Error::NotFound),
{
    let n = path.as_str().unicode_len();
    if n == 0 {
        return Err(Error::NotFound);
    }
    let c = path.as_str().get_char(0);
    if c == '/' || c == '~' {
        Ok(())
    } else {
        Err(Error::NotFound)
    }
}

} // verus!
