//! Ingestion and ranking core of a personal knowledge-base search tool.
//!
//! The library turns the structured event stream of an external line-oriented
//! search process into a deduplicated document index, memoizes that
//! aggregation, and ranks the aggregated documents for a query according to
//! the relevance strategy that the active role selects.
//!
//! Everything here is executable Rust whose behaviour is stated in
//! `requires`/`ensures` contracts checked by Verus. The process-spawning,
//! file-reading shell around the library lives outside of it and hands the
//! library plain values: the captured search output, and a snapshot of the
//! file contents the aggregation pass may need.

pub mod cache;
pub mod decode;
pub mod desktop;
pub mod hash;
pub mod indexer;
pub mod score;
pub mod service;
pub mod settings;
pub mod thesaurus;
pub mod types;

pub use decode::json_decode;
pub use decode::DecodeError;
pub use desktop::Port;
pub use desktop::RequestBody;
pub use desktop::TerraphimTauriError;
pub use settings::Settings;
pub use thesaurus::score_indexed_documents;
pub use thesaurus::Thesaurus;

pub use service::Config;
pub use service::ConfigState;
pub use service::RelevanceFunction;
pub use service::Role;
pub use service::ServiceError;
pub use service::TerraphimService;

pub use score::count_occurrences;
pub use score::sort_documents;
pub use types::SearchQuery;

pub use cache::IndexCache;
pub use indexer::index_messages;
pub use indexer::spec_aggregate;
pub use indexer::LogseqIndexer;
pub use indexer::LogseqService;

pub use hash::calculate_hash;
pub use hash::decimal_string;

pub use types::Article;
pub use types::ArticleView;
pub use types::Data;
pub use types::DataView;
pub use types::FileSnapshot;
pub use types::Index;
pub use types::IndexedDocument;
pub use types::Message;
pub use types::MessageView;
