//! Management of locally installed ClickHouse builds: resolving a version
//! specifier against a release catalog, tracking installed versions and the
//! active default, and building download locations for release artifacts.

pub mod catalog;
pub mod cloud;
pub mod download;
pub mod error;
pub mod init;
pub mod paths;
pub mod registry;
pub mod resolve;
pub mod text;
pub mod version;
