//! General mesh error type covering auth, config, db, io, network.

use vstd::prelude::*;
use vstd::std_specs::convert::FromSpecImpl;
use crate::text::{extend_str, string_of};

verus! {

/// `serde_json::Error`, converted into [`MeshError::Serialization`].
#[verifier::external_type_specification]
#[verifier::external_body]
pub struct ExJsonError(serde_json::Error);

/// `rusqlite::Error`, converted into [`MeshError::Db`].
#[verifier::external_type_specification]
#[verifier::external_body]
pub struct ExSqlError(rusqlite::Error);

/// `serde_json::Error::to_string`: serde_json's own wording of the error,
/// which no clause states.
#[verifier::external_body]
fn json_error_text(e: &serde_json::Error) -> String {
    e.to_string()
}

/// `rusqlite::Error::to_string`: rusqlite's (or SQLite's) wording of the
/// error, which no clause states.
#[verifier::external_body]
fn sql_error_text(e: &rusqlite::Error) -> String {
    e.to_string()
}

#[derive(Debug)]
pub enum MeshError {
    Io(String),
    Db(String),
    Serialization(String),
    Config(String),
    Network(String),
    Auth(String),
    Internal(String),
}

/// The `Display` prefix of each variant.
pub open spec fn mesh_error_prefix(e: MeshError) -> Seq<char> {
    match e {
        MeshError::Io(_) => "IO error: "@,
        MeshError::Db(_) => "database error: "@,
        MeshError::Serialization(_) => "serialization error: "@,
        MeshError::Config(_) => "config error: "@,
        MeshError::Network(_) => "network error: "@,
        MeshError::Auth(_) => "auth error: "@,
        MeshError::Internal(_) => "internal error: "@,
    }
}

pub open spec fn mesh_error_detail(e: MeshError) -> Seq<char> {
    match e {
        MeshError::Io(s) => s@,
        MeshError::Db(s) => s@,
        MeshError::Serialization(s) => s@,
        MeshError::Config(s) => s@,
        MeshError::Network(s) => s@,
        MeshError::Auth(s) => s@,
        MeshError::Internal(s) => s@,
    }
}

impl MeshError {
    /// The error's message, as its `Display` form reads.
    pub fn message(&self) -> (s: String)
        ensures
            s@ == mesh_error_prefix(*self) + mesh_error_detail(*self),
    {
        let mut out: Vec<char> = Vec::new();
        match self {
            MeshError::Io(d) => {
                extend_str(&mut out, "IO error: ");
                extend_str(&mut out, d.as_str());
            },
            MeshError::Db(d) => {
                extend_str(&mut out, "database error: ");
                extend_str(&mut out, d.as_str());
            },
            MeshError::Serialization(d) => {
                extend_str(&mut out, "serialization error: ");
                extend_str(&mut out, d.as_str());
            },
            MeshError::Config(d) => {
                extend_str(&mut out, "config error: ");
                extend_str(&mut out, d.as_str());
            },
            MeshError::Network(d) => {
                extend_str(&mut out, "network error: ");
                extend_str(&mut out, d.as_str());
            },
            MeshError::Auth(d) => {
                extend_str(&mut out, "auth error: ");
                extend_str(&mut out, d.as_str());
            },
            MeshError::Internal(d) => {
                extend_str(&mut out, "internal error: ");
                extend_str(&mut out, d.as_str());
            },
        }
        string_of(&out)
    }
}

impl From<std::io::Error> for MeshError {
    fn from(e: std::io::Error) -> (r: Self)
        ensures
            r is Io,
    {
        MeshError::Io(crate::peers_types::io_error_text(&e))
    }
}

impl FromSpecImpl<std::io::Error> for MeshError {
    open spec fn obeys_from_spec() -> bool {
        false
    }

    open spec fn from_spec(v: std::io::Error) -> Self {
        MeshError::Io(arbitrary())
    }
}

impl From<serde_json::Error> for MeshError {
    fn from(e: serde_json::Error) -> (r: Self)
        ensures
            r is Serialization,
    {
        MeshError::Serialization(json_error_text(&e))
    }
}

impl FromSpecImpl<serde_json::Error> for MeshError {
    open spec fn obeys_from_spec() -> bool {
        false
    }

    open spec fn from_spec(v: serde_json::Error) -> Self {
        MeshError::Serialization(arbitrary())
    }
}

impl From<rusqlite::Error> for MeshError {
    fn from(e: rusqlite::Error) -> (r: Self)
        ensures
            r is Db,
    {
        MeshError::Db(sql_error_text(&e))
    }
}

impl FromSpecImpl<rusqlite::Error> for MeshError {
    open spec fn obeys_from_spec() -> bool {
        false
    }

    open spec fn from_spec(v: rusqlite::Error) -> Self {
        MeshError::Db(arbitrary())
    }
}

} // verus!
