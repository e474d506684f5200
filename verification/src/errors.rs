//! Error taxonomy of the layout engine and the feed.

use vstd::prelude::*;

verus! {

/// A component could not be laid out at the requested width.
#[derive(Debug, PartialEq, Eq, Structural, Clone, Copy)]
pub enum LayoutError {
    /// The width is too small to fit the component's frame or a line of it.
    TooNarrow,
    /// The text or the stacked line positions exceed the machine's limits.
    Overflow,
}

impl LayoutError {
    /// A short description of the error.
    pub fn message(&self) -> (r: &'static str)
        ensures
            self is TooNarrow ==> r@ == "width too small to render the component"@,
            self is Overflow ==> r@ == "content too large to lay out"@,
    {
        match self {
            LayoutError::TooNarrow => "width too small to render the component",
            LayoutError::Overflow => "content too large to lay out",
        }
    }
}

/// The feed could not be assembled from what the sites returned.
#[derive(Debug, PartialEq, Eq, Structural, Clone, Copy)]
pub enum BackendError {
    /// No content could be scraped from the article body.
    NoContent,
    /// No articles at all could be taken from the feeds.
    FeedError,
}

impl BackendError {
    /// A short description of the error.
    pub fn message(&self) -> (r: &'static str)
        ensures
            self is NoContent ==> r@ == "Couldn't scrape content from article HTML"@,
            self is FeedError ==> r@ == "Couldn't get any articles from feed (check logs)"@,
    {
        match self {
            BackendError::NoContent => "Couldn't scrape content from article HTML",
            BackendError::FeedError => "Couldn't get any articles from feed (check logs)",
        }
    }
}

} // verus!
