//! Metadata and ingestion core of a small data-lake engine.
//!
//! - [`codec`]: the binary form of column descriptors and schemas.
//! - [`names`]: cleaning and deduplication of column names.
//! - [`storage`]: storage backends and the decisions of a multipart upload.
//! - [`ingest`]: the configuration and the decisions of an ingestion job.
//! - [`catalogue`]: the durable registry of tables and their schemas.
pub mod codec;
pub mod names;
pub mod storage;
pub mod ingest;
pub mod catalogue;
