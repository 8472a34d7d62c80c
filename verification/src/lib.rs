//! Verified core of a desktop uploader for Aliyun OSS: path and region
//! normalisation, upload-path validation, listing pagers and the
//! prefix crawler, with the network and file work left to the caller.

pub mod text;
pub mod ordered;
pub mod paths;
pub mod config;
pub mod oss;
pub mod listing;
pub mod scan;
pub mod crawl;
pub mod upload;
