//! From the address of a backend, written as a URL, to what a connection
//! needs of it.

use crate::error::Error;
use crate::wire::copy_range;
use vstd::prelude::*;

verus! {

#[verifier::external_type_specification]
#[verifier::external_body]
pub struct ExParseError(url::ParseError);

/// The parts of a URL that matter here, as the URL spells them.
#[derive(Clone, Debug, PartialEq, Eq)]
pub struct UrlParts {
    pub host: Option<Vec<u8>>,
    pub port: Option<u16>,
    pub username: Vec<u8>,
    pub password: Option<Vec<u8>>,
    pub path: Vec<u8>,
}

/// The parts of a URL, as contracts see them.
pub struct UrlPartsView {
    pub host: Option<Seq<u8>>,
    pub port: Option<u16>,
    pub username: Seq<u8>,
    pub password: Option<Seq<u8>>,
    pub path: Seq<u8>,
}

/// Bytes that may be absent, as contracts see them.
pub open spec fn optional_bytes(b: Option<Vec<u8>>) -> Option<Seq<u8>> {
    match b {
        Some(v) => Some(v@),
        None => None,
    }
}

impl View for UrlParts {
    type V = UrlPartsView;

    open spec fn view(&self) -> UrlPartsView {
        UrlPartsView {
            host: optional_bytes(self.host),
            port: self.port,
            username: self.username@,
            password: optional_bytes(self.password),
            path: self.path@,
        }
    }
}

/// The parts of the URL that a text spells, or nothing where the text is no
/// absolute URL.
pub uninterp spec fn url_parts(input: Seq<char>) -> Option<UrlPartsView>;

/// `url::Url::parse`, and the accessors `host_str`, `port`, `username`,
/// `password` and `path` of the URL that it gives: the parts are those of
/// the URL that `input` spells, and the parser's error comes back exactly
/// where `input` spells none.
#[verifier::external_body]
fn parse_url(input: &str) -> (r: Result<UrlParts, url::ParseError>)
    ensures
        match url_parts(input@) {
            Some(parts) => r matches Ok(p) && p@ == parts,
            None => r is Err,
        },
{
    let parsed = url::Url::parse(input)?;
    Ok(
        UrlParts {
            host: parsed.host_str().map(|h| h.as_bytes().to_vec()),
            port: parsed.port(),
            username: parsed.username().as_bytes().to_vec(),
            password: parsed.password().map(|p| p.as_bytes().to_vec()),
            path: parsed.path().as_bytes().to_vec(),
        },
    )
}

/// The port on which a backend listens where the address names none.
pub const DEFAULT_PORT: u16 = 5432;

/// Where to connect, and as whom.
#[derive(Clone, Debug, PartialEq, Eq)]
pub struct ConnectTarget {
    pub host: Vec<u8>,
    pub port: u16,
    pub user: Vec<u8>,
    pub password: Option<Vec<u8>>,
    pub database: Option<Vec<u8>>,
}

/// A target, as contracts see it.
pub struct ConnectTargetView {
    pub host: Seq<u8>,
    pub port: u16,
    pub user: Seq<u8>,
    pub password: Option<Seq<u8>>,
    pub database: Option<Seq<u8>>,
}

impl View for ConnectTarget {
    type V = ConnectTargetView;

    open spec fn view(&self) -> ConnectTargetView {
        ConnectTargetView {
            host: self.host@,
            port: self.port,
            user: self.user@,
            password: optional_bytes(self.password),
            database: optional_bytes(self.database),
        }
    }
}

/// The word `localhost`.
pub open spec fn localhost() -> Seq<u8> {
    seq![108u8, 111u8, 99u8, 97u8, 108u8, 104u8, 111u8, 115u8, 116u8]
}

/// The database that a path names: the path without the slash that it
/// starts with, and none where nothing is left.
pub open spec fn database_of(path: Seq<u8>) -> Option<Seq<u8>> {
    let name = if path.len() > 0 && path[0] == 47u8 {
        path.subrange(1, path.len() as int)
    } else {
        path
    };
    if name.len() == 0 {
        None
    } else {
        Some(name)
    }
}

/// The target that the parts of a URL give: `localhost` and the default
/// port stand in for a host and a port that the URL does not name.
pub open spec fn target_of(parts: UrlPartsView) -> ConnectTargetView {
    ConnectTargetView {
        host: match parts.host {
            Some(h) => h,
            None => localhost(),
        },
        port: match parts.port {
            Some(p) => p,
            None => DEFAULT_PORT,
        },
        user: parts.username,
        password: parts.password,
        database: database_of(parts.path),
    }
}

/// Turns the parts of a URL into a target.
pub fn resolve(parts: UrlParts) -> (target: ConnectTarget)
    ensures
        target@ == target_of(parts@),
{
    let host = match parts.host {
        Some(h) => h,
        None => {
            let mut name: Vec<u8> = Vec::new();
            name.push(108u8);
            name.push(111u8);
            name.push(99u8);
            name.push(97u8);
            name.push(108u8);
            name.push(104u8);
            name.push(111u8);
            name.push(115u8);
            name.push(116u8);
            assert(name@ =~= localhost());
            name
        },
    };
    let port = match parts.port {
        Some(p) => p,
        None => DEFAULT_PORT,
    };
    let path = parts.path.as_slice();
    let from: usize = if path.len() > 0 && path[0] == 47u8 {
        1
    } else {
        0
    };
    let database = if path.len() == from {
        None
    } else {
        let name = copy_range(path, from, path.len());
        assert(from == 0 ==> name@ =~= parts.path@);
        Some(name)
    };
    ConnectTarget { host, port, user: parts.username, password: parts.password, database }
}

/// Reads an address.
///
/// The result is the target that the URL's parts give, and `Address` where
/// the text is no URL.
pub fn connect_target(url: &str) -> (r: Result<ConnectTarget, Error>)
    ensures
        match url_parts(url@) {
            Some(parts) => r matches Ok(t) && t@ == target_of(parts),
            None => r matches Err(e) && e@ == crate::error::ErrorView::Address,
        },
{
    match parse_url(url) {
        Ok(parts) => Ok(resolve(parts)),
        Err(_) => Err(Error::Address),
    }
}

} // verus!
