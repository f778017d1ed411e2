//! Reading the metadata of APT package repositories: the stanza format,
//! package records, Debian version ordering and release files.

pub mod error;
pub mod text;
pub mod version;
pub mod utils;
pub mod package;
pub mod repository;
pub mod codec;
