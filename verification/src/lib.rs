//! Vertex: the verified core of a small personal search engine (URL
//! normalisation and crawl policy, HTML text extraction, full-text query
//! building and crawl bookkeeping).
pub mod text;
pub mod search;
pub mod ipv4;
pub mod ipv6;
pub mod crawler;
pub mod parser;
pub mod models;
pub mod runner;
pub mod paths;

use vstd::prelude::*;

verus! {

/// The start URLs of a crawl.
pub const SEEDS: [&'static str; 12] = [
    "https://www.rust-lang.org",
    "https://en.wikipedia.org/wiki/Main_Page",
    "https://www.wikipedia.org",
    "https://github.com",
    "https://news.ycombinator.com",
    "https://www.bbc.com",
    "https://www.python.org",
    "https://developer.mozilla.org",
    "https://stackoverflow.com",
    "https://www.gnu.org",
    "https://www.kernel.org",
    "https://lwn.net",
];

} // verus!
