//! An S3-compatible object store: the verified logic behind request routing,
//! Signature V4 checks, bucket policies, the on-disk layout, multipart
//! uploads, quotas, the write-ahead log and the replicator.

pub mod chunked;
pub mod text;
pub mod cidr;
pub mod json;
pub mod policy;
pub mod wal;
pub mod replicator;
pub mod digest;
pub mod multipart;
pub mod quota;
pub mod sigv4;
pub mod models;
pub mod settings;
pub mod config;
pub mod storage;
pub mod middleware;
pub mod routes;
pub mod listing;
pub mod objects;
pub mod envelope;
pub mod access;
pub mod errors;
pub mod housekeeping;
pub mod dates;
pub mod batch;
pub mod xml;
pub mod bucket_docs;
