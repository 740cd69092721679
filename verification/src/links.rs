//! The link classifier: each hyperlink destination is categorized as
//! external, same-document anchor, or other, recorded into the document's
//! link lists, and rewritten where the category asks for it.
use vstd::prelude::*;

use crate::context::RenderContext;
use crate::text;
use crate::text::has_prefix;

verus! {

/// The kinds of links the Markdown grammar distinguishes.
#[derive(Debug, Clone, Copy, PartialEq, Eq, Structural)]
pub enum LinkKind {
    Inline,
    Reference,
    ReferenceUnknown,
    Collapsed,
    CollapsedUnknown,
    Shortcut,
    ShortcutUnknown,
    Autolink,
    Email,
}

/// True when a link target carries an explicit `http`/`https` scheme.
pub open spec fn is_external(link: Seq<char>) -> bool {
    has_prefix(link, "http://"@) || has_prefix(link, "https://"@)
}

/// Checks whether a link target points at an external webpage.
pub fn is_external_link(link: &str) -> (r: bool)
    ensures
        r == is_external(link@),
{
    text::str_has_prefix(link, "http://") || text::str_has_prefix(link, "https://")
}

/// The internal-link records as mathematical values.
pub open spec fn ilinks_view(v: Seq<(String, Option<String>)>) -> Seq<
    (Seq<char>, Option<Seq<char>>),
> {
    v.map_values(
        |p: (String, Option<String>)|
            (
                p.0@,
                match p.1 {
                    Some(s) => Some(s@),
                    None => None,
                },
            ),
    )
}

/// Where a link's href is rewritten to: a same-document anchor becomes
/// absolute under the current permalink; everything else stands unchanged.
pub open spec fn fixed_link(
    kind: LinkKind,
    link: Seq<char>,
    path: Option<Seq<char>>,
    permalink: Seq<char>,
) -> Seq<char> {
    if kind == LinkKind::Email {
        link
    } else if has_prefix(link, "@/"@) {
        link
    } else if is_external(link) {
        link
    } else if link == "#"@ {
        link
    } else if has_prefix(link, "#"@) {
        if path is Some {
            permalink + link
        } else {
            link
        }
    } else {
        link
    }
}

/// Whether a link is recorded as external: exactly the non-email targets
/// with an `http`/`https` scheme.
pub open spec fn records_external(kind: LinkKind, link: Seq<char>) -> bool {
    kind != LinkKind::Email && !has_prefix(link, "@/"@) && is_external(link)
}

/// Whether a link is recorded as internal: exactly the non-empty
/// same-document anchors seen while the current document's path is known.
pub open spec fn records_internal(kind: LinkKind, link: Seq<char>, path: Option<Seq<char>>) -> bool {
    kind != LinkKind::Email && !has_prefix(link, "@/"@) && !is_external(link) && link != "#"@
        && has_prefix(link, "#"@) && path is Some
}

/// Rewrites one link destination and records it into the document's link
/// lists: an external target is recorded and passed through unchanged, a
/// same-document anchor is recorded against the current path and made
/// absolute, everything else passes through untouched.
pub fn link_fixer(
    kind: LinkKind,
    link: &str,
    context: &RenderContext,
    internal_links: &mut Vec<(String, Option<String>)>,
    external_links: &mut Vec<String>,
) -> (r: String)
    ensures
        ({
            let path = match context.current_page_path {
                Some(p) => Some(p@),
                None => None,
            };
            &&& r@ == fixed_link(kind, link@, path, context.current_page_permalink@)
            &&& final(external_links).deep_view() == (if records_external(kind, link@) {
                old(external_links).deep_view().push(link@)
            } else {
                old(external_links).deep_view()
            })
            &&& ilinks_view(final(internal_links)@) == (if records_internal(kind, link@, path) {
                ilinks_view(old(internal_links)@).push((path->0, Some(link@.skip(1))))
            } else {
                ilinks_view(old(internal_links)@)
            })
        }),
{
    let lv = text::chars_of(link);
    proof {
        reveal_strlit("#");
    }
    if matches!(kind, LinkKind::Email) {
        return link.to_owned();
    }
    let at_prefix = text::chars_of("@/");
    if text::slice_has_prefix(&lv, &at_prefix) {
        return link.to_owned();
    }
    if is_external_link(link) {
        let ghost old_dv = external_links.deep_view();
        external_links.push(link.to_owned());
        proof {
            assert(external_links.deep_view() =~~= old_dv.push(link@));
        }
        return link.to_owned();
    }
    let hash = text::chars_of("#");
    if text::chars_eq(&lv, &hash) {
        return link.to_owned();
    }
    if text::slice_has_prefix(&lv, &hash) {
        match context.current_page_path {
            Some(current_path) => {
                proof {
                    assert(lv@.len() >= 1);
                }
                let fragment = text::sub_vec(&lv, 1, lv.len());
                proof {
                    assert(fragment@ =~= link@.skip(1));
                }
                let ghost old_iv = ilinks_view(internal_links@);
                internal_links.push((current_path.to_owned(), Some(text::string_of(&fragment))));
                proof {
                    assert(ilinks_view(internal_links@) =~= old_iv.push(
                        (context.current_page_path->0@, Some(link@.skip(1))),
                    ));
                }
                let mut fixed = String::new();
                fixed.push_str(context.current_page_permalink);
                fixed.push_str(link);
                return fixed;
            },
            None => {
                return link.to_owned();
            },
        }
    }
    link.to_owned()
}

} // verus!
