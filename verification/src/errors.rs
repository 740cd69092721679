//! The rendering error taxonomy. A fence directive that fails to parse is
//! skipped where it occurs and never reaches this type; everything here
//! makes the whole document's render fail.
use vstd::prelude::*;

verus! {

/// Why a document failed to render.
#[derive(Debug, Clone, PartialEq, Eq)]
pub enum RenderError {
    /// A link without a destination; reported, rendering continues with a
    /// placeholder, and the stored error surfaces at the end.
    EmptyLink,
    /// A shortcode placeholder inside an open code fence; fatal.
    ShortcodeInCodeBlock,
    /// The syntax highlighting engine failed on a line; fatal. Carries the
    /// document's relative path when one is known.
    HighlightEngine(Option<String>),
    /// A heading end event without a matching start; fatal, and a sign of a
    /// broken upstream event stream rather than bad input.
    UnmatchedHeading,
}

impl RenderError {
    /// A short description of the failure.
    pub fn message(&self) -> (r: String)
        ensures
            r@.len() > 0,
    {
        proof {
            reveal_strlit("link destination cannot be empty");
            reveal_strlit("shortcode placeholder inside a code block");
            reveal_strlit("syntax highlighting failed");
            reveal_strlit(" in ");
            reveal_strlit("heading end without a matching start");
        }
        match self {
            RenderError::EmptyLink => "link destination cannot be empty".to_owned(),
            RenderError::ShortcodeInCodeBlock => "shortcode placeholder inside a code block".to_owned(),
            RenderError::HighlightEngine(path) => {
                let mut m = "syntax highlighting failed".to_owned();
                match path {
                    Some(p) => {
                        m.push_str(" in ");
                        m.push_str(p.as_str());
                    },
                    None => {},
                }
                proof {
                    assert(m@.len() > 0);
                }
                m
            },
            RenderError::UnmatchedHeading => "heading end without a matching start".to_owned(),
        }
    }
}

} // verus!
