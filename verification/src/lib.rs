pub mod text;
pub mod datetime;
pub mod naming;
pub mod paths;
pub mod device_store;
pub mod manifest;
pub mod copy_engine;
pub mod transcode;
pub mod packaging;
pub mod volume;
pub mod audit_log;
pub mod sorting;
pub mod sums;
pub mod project_store;
pub mod media_indexer;
pub mod hash;
pub mod culling;
pub mod config;
