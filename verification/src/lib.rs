//! Turns the item listings of a Booth.pm store page into an RSS feed.

pub mod argparse;
pub mod cache;
pub mod errors;
pub mod laws;
pub mod strings;
pub mod utils;
pub mod objects;
pub mod store_page;
pub mod service;
pub mod store_fetch;
