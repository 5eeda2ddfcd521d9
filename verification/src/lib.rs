//! Core of a Mercurial-compatible source-control service: the filelog delta
//! resolver and the read side of the wire protocol.

pub mod between;
pub mod blob;
pub mod bundle2;
pub mod cache;
pub mod caps;
pub mod changeset;
pub mod client;
pub mod delta;
pub mod diff;
pub mod errors;
pub mod filelog;
pub mod importer;
pub mod nodehash;
pub mod nodemap;
pub mod path;
pub mod repo;
pub mod resolver;
pub mod roundtrip;
pub mod text;
pub mod upload;
