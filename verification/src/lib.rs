//! PixelBox core: a verified image-index engine.
//!
//! The crate models the crawl-hash-store pipeline and the similarity-query
//! engine of an image indexer: pure distance functions over hash vectors,
//! a query tokenizer and predicate builder, an in-memory store with
//! dedup-on-insert, crawl classification rules, and the indexing
//! supervisor's state machine.  Image decoding, model-based embedding and
//! the on-disk persistence mirror are external collaborators and live with
//! the caller; the thumbnail codec and EXIF extraction are reached through
//! trusted wrappers.

pub mod codec;
pub mod crawl;
pub mod distance;
pub mod engine;
pub mod paths;
pub mod query;
pub mod record;
pub mod store;
pub mod text;
