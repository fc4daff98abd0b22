//! A local catalog of financial instrument symbols: the store, the filter
//! vocabulary, the query and search operations, the listing parser and the
//! ingestion step that merges parsed listings into the store.
use vstd::prelude::*;

pub mod symbol;
pub mod keys;
pub mod catalog;
pub mod client;
pub mod listing;
pub mod ingest;
pub mod sweep;
pub mod query;

pub use symbol::{Symbol, SymbolRec};
pub use keys::{AssetClass, Category, Exchange};
pub use catalog::{Catalog, CatalogError, Column, Predicate};
pub use client::{
    get_distinct_asset_classes, get_distinct_categories, get_distinct_exchanges, get_symbol,
    get_symbols, get_symbols_count, get_symbols_df, search_symbols, SymbolColumns,
};

pub use ingest::update_database;

verus! {

} // verus!
