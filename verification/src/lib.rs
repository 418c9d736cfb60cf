pub mod arxiv;
pub mod config;
pub mod dates;
pub mod eccc;
pub mod text;
pub mod types;
pub mod curation;
pub mod watermark;
pub mod tz;
