//! Locates the on-disk index cache of a package registry: merges the
//! registry and source-replacement declarations of a hierarchy of
//! configuration files, follows the replacement chain to an index URL, and
//! derives the cache directory name from it.

pub mod cache_key;
pub mod config;
pub mod registry_url;
pub mod resolve;
pub mod source_kind;

pub use cache_key::{registry_path_from_url, short_name};
pub use config::{ConfigFile, SourceEntry};
pub use registry_url::RegistryUrl;
pub use resolve::{registry_path, registry_url, Error};
pub use source_kind::{GitReference, Kind};
