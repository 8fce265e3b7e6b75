//! A static blog generator's core: article metadata from file names, math
//! rendering that leaves code untouched, Markdown event handling, heading
//! anchors and tables of contents, the RSS feed, and the site's page and
//! listing rules.
pub mod text;
pub mod escape;
pub mod article;
pub mod scan;
pub mod math;
pub mod headings;
pub mod toc;
pub mod markdown;
pub mod config;
pub mod rss;
pub mod site;
