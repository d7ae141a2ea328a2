//! The records that a Booth store page describes.

pub mod booth_category;
pub mod booth_item;
pub mod booth_store;
pub mod multi_language_name;
