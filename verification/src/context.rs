//! The per-call rendering context: the configuration and the current
//! document's identity, threaded read-only through one render call.
use vstd::prelude::*;

use crate::config::Config;

verus! {

/// Everything one render call may read about its surroundings: the active
/// configuration, the current document's source path and permalink, the
/// document's relative path as the templates know it (used only in
/// code-block error reporting), and the site's permalink table.
pub struct RenderContext<'a> {
    pub config: &'a Config,
    pub current_page_path: Option<&'a str>,
    pub current_page_permalink: &'a str,
    /// The current page's or section's relative path, as the template
    /// variables carry it.
    pub current_rel_path: Option<String>,
    pub permalinks: Vec<(String, String)>,
}

impl<'a> RenderContext<'a> {
    /// Bundles the parts of one render call.
    pub fn new(
        config: &'a Config,
        current_page_path: Option<&'a str>,
        current_page_permalink: &'a str,
        current_rel_path: Option<String>,
        permalinks: Vec<(String, String)>,
    ) -> (r: RenderContext<'a>)
        ensures
            r.config == config,
            r.current_page_path == current_page_path,
            r.current_page_permalink == current_page_permalink,
            r.current_rel_path == current_rel_path,
            r.permalinks == permalinks,
    {
        RenderContext {
            config,
            current_page_path,
            current_page_permalink,
            current_rel_path,
            permalinks,
        }
    }

    /// A context over a configuration alone: no current document.
    pub fn from_config(config: &'a Config) -> (r: RenderContext<'a>)
        ensures
            r.config == config,
            r.current_page_path is None,
            r.current_page_permalink@ == Seq::<char>::empty(),
            r.current_rel_path is None,
            r.permalinks@.len() == 0,
    {
        let r = RenderContext {
            config,
            current_page_path: None,
            current_page_permalink: "",
            current_rel_path: None,
            permalinks: Vec::new(),
        };
        proof {
            reveal_strlit("");
        }
        r
    }
}

} // verus!
