//! Content-rendering core of a small static-site generator: it turns a page's
//! Markdown source into an HTML fragment while resolving cross-document
//! concerns — stable heading anchors, link classification, summary extraction,
//! and syntax-highlighted, line-annotated code blocks.
use vstd::prelude::*;

pub mod anchor;
pub mod codeblock;
pub mod config;
pub mod content;
pub mod context;
pub mod errors;
pub mod fence;
pub mod highlight;
pub mod links;
pub mod markdown;
pub mod page;
pub mod registry;
pub mod site;
pub mod text;

pub use context::RenderContext;
pub use links::is_external_link;
pub use markdown::{markdown_to_html, render_content, Rendered};
