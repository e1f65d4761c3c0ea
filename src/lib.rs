//! Extraction of vehicle listings from a classifieds search-results page.
//!
//! The library locates the elements of a parsed page that stand for one
//! listing each, recovers the fields of every listing from them, and builds
//! the query URL for a search.
mod chars;
pub mod dom;
pub mod fields;
pub mod listing;
pub mod url;

pub use dom::parse_listings;
pub use fields::{extract_mileage, extract_year};
pub use dom::{CompiledSelector, Page};
pub use listing::{build_listing, collect_listings, CardFields, Listing};
pub use url::{absolute_url, url_encode};
