//! A verified template/node engine: templates own trees of typed nodes,
//! sibling order is encoded as a doubly-linked chain over flat records,
//! and field values are validated and cast against a closed type algebra.

pub mod chain;
pub mod error;
pub mod ident;
pub mod nodes;
pub mod store;
pub mod template;
pub mod types;
pub mod values;

pub use ident::Identifier;
