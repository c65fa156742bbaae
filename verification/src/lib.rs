//! A RethinkDB driver core: the wire framing, the SCRAM-SHA-256 handshake,
//! the reply decoding rules, the cursor and the request scheduler, each as
//! verified logic that the I/O layer drives.

pub mod auth;
pub mod cursor;
pub mod id;
pub mod query;
pub mod scan;
pub mod scheduler;
pub mod trusted;
pub mod wire;

use vstd::prelude::*;
use crate::query::ReqlError;
use crate::auth::AuthError;


verus! {

/// The host that a connection goes to by default.
pub const DEFAULT_HOST: &'static str = "localhost";
/// The port that a connection goes to by default.
pub const DEFAULT_PORT: u16 = 28015;
/// The database that queries run against by default.
pub const DEFAULT_DB: &'static str = "test";
/// The user account that a connection authenticates as by default.
pub const DEFAULT_USER: &'static str = "admin";
/// The password that a connection authenticates with by default.
pub const DEFAULT_PWD: &'static str = "";

/// Everything that can go wrong on a connection.
#[derive(Debug)]
pub enum Error {
    Sync(&'static str),
    Io(std::io::Error),
    Tls(rustls::TLSError),
    Dns(webpki::InvalidDNSNameError),
    Auth(AuthError),
    Reql(ReqlError, String),
    InvalidReply(String),
    Deserialize(String),
}

impl From<std::io::Error> for Error {
    fn from(e: std::io::Error) -> (r: Self) {
        Error::Io(e)
    }
}

impl vstd::std_specs::convert::FromSpecImpl<std::io::Error> for Error {
    open spec fn obeys_from_spec() -> bool {
        true
    }

    open spec fn from_spec(v: std::io::Error) -> Self {
        Error::Io(v)
    }
}

impl From<rustls::TLSError> for Error {
    fn from(e: rustls::TLSError) -> (r: Self) {
        Error::Tls(e)
    }
}

impl vstd::std_specs::convert::FromSpecImpl<rustls::TLSError> for Error {
    open spec fn obeys_from_spec() -> bool {
        true
    }

    open spec fn from_spec(v: rustls::TLSError) -> Self {
        Error::Tls(v)
    }
}

impl From<webpki::InvalidDNSNameError> for Error {
    fn from(e: webpki::InvalidDNSNameError) -> (r: Self) {
        Error::Dns(e)
    }
}

impl vstd::std_specs::convert::FromSpecImpl<webpki::InvalidDNSNameError> for Error {
    open spec fn obeys_from_spec() -> bool {
        true
    }

    open spec fn from_spec(v: webpki::InvalidDNSNameError) -> Self {
        Error::Dns(v)
    }
}

impl From<(ReqlError, String)> for Error {
    fn from(v: (ReqlError, String)) -> (r: Self) {
        let (err, msg) = v;
        Error::Reql(err, msg)
    }
}

impl vstd::std_specs::convert::FromSpecImpl<(ReqlError, String)> for Error {
    open spec fn obeys_from_spec() -> bool {
        true
    }

    open spec fn from_spec(v: (ReqlError, String)) -> Self {
        Error::Reql(v.0, v.1)
    }
}

/// A wrapper that lends a value to code that wants a value of its own type
/// around it; it dereferences to the value.
#[derive(Copy, Clone, PartialEq, Eq, PartialOrd, Ord, Default)]
pub struct DebugImpl<T>(pub T);

impl<T> std::ops::Deref for DebugImpl<T> {
    type Target = T;

    fn deref(&self) -> (r: &T)
        ensures
            *r == self.0,
    {
        &self.0
    }
}

} // verus!
