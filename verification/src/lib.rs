//! Reusable EVM token catalogue and enabled-token store.
//!
//! The catalogue merges three buckets of tokens, the user's own entries, the lists that were
//! downloaded and the list shipped with the module, and serves one row for each address on a
//! chain. Everything here is plain computation: what has to be read, fetched or written is
//! handed in and out as values.
pub mod text;
pub mod token;
pub mod config;
pub mod proxy;
pub mod store;
pub mod catalogue;
pub mod offered;
pub mod digest;
pub mod model;
pub mod tokens;
pub mod json;
pub mod events;
pub mod module;
pub mod laws;

pub use config::{ConfigSource, ListConfig, ListConfigWire};
pub use digest::{changed_chains, ChainDigests};
pub use offered::{EnabledTokenRow, OfferedError};
pub use token::{ListSource, Token, TokenError, TokenRow, TokenSource};
pub use tokens::{Counts, TokenList};
