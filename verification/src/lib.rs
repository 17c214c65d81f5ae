//! Extraction pipeline for a framework-rendered article site.
//!
//! The crate recovers article listings, bodies and publication dates from
//! raw page text through ordered fallback strategies, strips site-specific
//! editor artifacts from the recovered text, and prepares time-ordered feed
//! entries for rendering.

pub mod article_extractor;
pub mod content_filter;
pub mod date_resolver;
pub mod dom;
pub mod feed;
pub mod html_parser;
pub mod json;
pub mod text;

use vstd::prelude::*;

verus! {

/// Failure of an extraction run.
#[derive(Debug, PartialEq, Eq, Structural)]
pub enum ExtractError {
    /// Neither listing strategy produced any reference.
    NoListingFound,
    /// No body strategy produced content above the minimum viable length.
    NoBodyFound,
}

impl ExtractError {
    /// A short description of the failure.
    pub fn message(&self) -> (r: &'static str)
        ensures
            *self is NoListingFound ==> r@ == "no articles found in page"@,
            *self is NoBodyFound ==> r@ == "article content not found"@,
    {
        match self {
            ExtractError::NoListingFound => "no articles found in page",
            ExtractError::NoBodyFound => "article content not found",
        }
    }
}

} // verus!
