//! The data model of a crawled page.
use vstd::prelude::*;

verus! {

/// A crawled page.
///
/// Some fields (description, depth, language) are meant for a future indexer
/// and are not filled yet.
#[derive(Debug)]
pub struct Page {
    pub url: String,
    pub status_code: u16,
    pub title: String,
    pub description: Option<String>,
    pub content: String,
    pub links: Vec<String>,
    // Crawler metadata
    pub depth: i32,
    pub hash: String,
    pub size: usize,
    pub content_type: Option<String>,
    pub language: Option<String>,
    // Performance
    pub crawl_time_ms: u128,
}

} // verus!
