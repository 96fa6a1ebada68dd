use vstd::prelude::*;

pub mod chunker;
pub mod config;
pub mod embed;
pub mod error;
pub mod hash;
pub mod index;
pub mod languages;
pub mod lsp;
pub mod mcp;
pub mod paths;
pub mod query;
pub mod refs;
pub mod scope;
pub mod store;
pub mod symbols;
pub mod text;
pub mod treesitter;
pub mod tsserver;
pub mod types;
pub mod watch;

verus! {

} // verus!
