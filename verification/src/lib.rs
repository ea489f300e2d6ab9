//! Discovery of brand assets (favicons and web fonts) on a web page.
//!
//! The library holds the verified scanning pipeline: URL normalization,
//! markup and stylesheet analysis, bounded stylesheet/import fan-out,
//! and aggregation of font-face facts into a deduplicated, sorted catalog.
//! Network I/O lives outside the library; callers hand the fetched bodies in.

pub mod config;
pub mod css;
pub mod fetch;
pub mod fonts;
pub mod html;
pub mod order;
pub mod scan;
pub mod text;
pub mod urls;
