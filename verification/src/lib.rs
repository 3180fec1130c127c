//! Static web assets bundled into one archive and served from memory.
//!
//! The archive is a DEFLATE-compressed binary encoding of an
//! [`package::AssetPackage`]. At start-up the archive is decoded once and
//! every asset is rewritten, gzip-compressed and indexed by path, so that
//! answering a request is a lookup.

pub mod archive;
mod codec;
pub mod config;
pub mod context;
pub mod embedded_asset;
pub mod layout;
pub mod media_type;
pub mod package;
pub mod parser;
pub mod roundtrip;
pub mod server;
pub mod text;
