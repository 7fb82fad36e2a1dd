pub mod text;
pub mod json;
pub mod slug;
pub mod models;
pub mod matching;
pub mod downloads;
pub mod scraper;
pub mod crawl;
pub mod page;
pub mod seo;
pub mod enrichment;
pub mod index;
pub mod config;
pub mod client;
pub mod workflow;
