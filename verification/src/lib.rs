//! A read-only store of assets that are compiled into the binary, and the
//! reader that answers file-system queries from it.
//!
//! - [`path`]: asset paths, what lies below a folder, file extensions.
//! - [`registry`]: the registry as a mathematical map, and what each query
//!   answers from it.
//! - [`asset_table`]: the hash map that holds the registry at run time.
//! - [`asset_reader`]: the reader, and the streams of bytes and of paths that
//!   it hands out.
//! - [`plugin`]: where the host application installs the assets, and when.
//! - [`manifest`]: which folder is embedded, and under which paths.
//! - [`laws`]: what holds of all of it.

pub mod asset_reader;
pub mod asset_table;
pub mod laws;
pub mod manifest;
pub mod path;
pub mod plugin;
pub mod registry;

pub use asset_reader::{DataReader, EmbeddedAssetReader};
pub use plugin::{EmbeddedAssetPlugin, PluginMode};
