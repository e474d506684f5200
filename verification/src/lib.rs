//! A terminal news-reader engine: word wrapping, block layout, a document
//! buffer of positioned components, a scrolling viewport, a selection cursor,
//! and feed-merge ordering, all with verified contracts.

pub mod article;
pub mod blocks;
pub mod component;
pub mod controllers;
pub mod doc;
pub mod errors;
pub mod feed;
pub mod geometry;
pub mod input;
pub mod style;
pub mod textpad;
pub mod wrap;
