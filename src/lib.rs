//! A verified cache of ERC-20 token metadata, keyed by chain and identifier.
//!
//! Stores keep every token under two slots (its address and its symbol) and never
//! fail; lookups that miss are resolved by a caller-driven fetch step whose
//! decisions live in `retrieval`.

pub mod address;
pub mod token_id;
pub mod balance;
pub mod token;
pub mod slot_table;
pub mod token_store;
pub mod basic_store;
pub mod recency;
pub mod lru_store;
pub mod error;
pub mod retrieval;
pub mod lazy_token;
pub mod known_tokens;
pub mod entry;
pub mod store_iter;
