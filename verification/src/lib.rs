//! Transcript-to-subtitle segmentation and multilingual search indexing.
//!
//! The crate turns word-level speech-recognition tokens into time-coded
//! subtitle cues, renders them as SRT, WebVTT or search-index body text,
//! and keeps one tantivy search index per language with idempotent
//! upsert-by-key and ranked retrieval.

pub mod ingest;
pub mod search;
pub mod store;
pub mod subtitle;
pub mod text;
pub mod timecode;
