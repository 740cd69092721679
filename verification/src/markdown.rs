//! The Markdown event transformer: the top-level driver that consumes the
//! event stream of the external Markdown parser, rewrites headings, links,
//! code blocks and paragraph boundaries, and serializes the result into the
//! rendered body with an optional summary cut at the continue-reading
//! marker.
use vstd::prelude::*;

use pulldown_cmark::{Alignment, CodeBlockKind, Event, LinkType, Options, Parser, Tag};

use crate::anchor;
use crate::anchor::{contains_str, is_anchor_of};
use crate::codeblock::CodeBlock;
use crate::context::RenderContext;
use crate::errors::RenderError;
use crate::fence::FenceSettings;
use crate::links;
use crate::links::LinkKind;
use crate::registry::SyntaxRegistry;
use crate::text;
use crate::text::{contains_seq, html_escaped};

verus! {

/// The column alignments a table can carry.
#[derive(Debug, Clone, Copy, PartialEq, Eq, Structural)]
pub enum ColumnAlignment {
    Unaligned,
    AlignLeft,
    AlignCenter,
    AlignRight,
}

/// A tag of the Markdown event stream, held with plain values.
#[derive(Debug, Clone, PartialEq, Eq)]
pub enum MdTag {
    Paragraph,
    /// A heading with its level.
    Heading(u32),
    BlockQuote,
    /// A code block: the fence info string of a fenced block, `None` for an
    /// indented one.
    CodeBlock(Option<String>),
    /// A list: the first item number of an ordered list, `None` for an
    /// unordered one.
    List(Option<u64>),
    Item,
    FootnoteDefinition(String),
    Table(Vec<ColumnAlignment>),
    TableHead,
    TableRow,
    TableCell,
    Emphasis,
    Strong,
    Strikethrough,
    /// A link: kind, destination URL, title.
    Link(LinkKind, String, String),
    /// An image: kind, destination URL, title.
    Image(LinkKind, String, String),
}

/// One event of the Markdown stream, held with plain values.
#[derive(Debug, Clone, PartialEq, Eq)]
pub enum MdEvent {
    Start(MdTag),
    End(MdTag),
    Text(String),
    Code(String),
    Html(String),
    FootnoteReference(String),
    SoftBreak,
    HardBreak,
    Rule,
    TaskListMarker(bool),
}

// ------------------------------------------------------------------
// The trusted boundary around the external Markdown parser.
// ------------------------------------------------------------------

#[verifier::external_type_specification]
#[verifier::external_body]
pub struct ExEvent<'a>(Event<'a>);

#[verifier::external_type_specification]
#[verifier::external_body]
pub struct ExTag<'a>(Tag<'a>);

#[verifier::external_type_specification]
#[verifier::external_body]
pub struct ExLinkType(LinkType);

#[verifier::external_type_specification]
#[verifier::external_body]
pub struct ExAlignment(Alignment);

/// Relies on pulldown-cmark's `LinkType`: renames each variant.
#[verifier::external_body]
fn kind_of_link_type(t: LinkType) -> LinkKind {
    match t {
        LinkType::Inline => LinkKind::Inline,
        LinkType::Reference => LinkKind::Reference,
        LinkType::ReferenceUnknown => LinkKind::ReferenceUnknown,
        LinkType::Collapsed => LinkKind::Collapsed,
        LinkType::CollapsedUnknown => LinkKind::CollapsedUnknown,
        LinkType::Shortcut => LinkKind::Shortcut,
        LinkType::ShortcutUnknown => LinkKind::ShortcutUnknown,
        LinkType::Autolink => LinkKind::Autolink,
        LinkType::Email => LinkKind::Email,
    }
}

/// Relies on pulldown-cmark's `LinkType`: renames each variant back.
#[verifier::external_body]
fn link_type_of_kind(t: &LinkKind) -> LinkType {
    match t {
        LinkKind::Inline => LinkType::Inline,
        LinkKind::Reference => LinkType::Reference,
        LinkKind::ReferenceUnknown => LinkType::ReferenceUnknown,
        LinkKind::Collapsed => LinkType::Collapsed,
        LinkKind::CollapsedUnknown => LinkType::CollapsedUnknown,
        LinkKind::Shortcut => LinkType::Shortcut,
        LinkKind::ShortcutUnknown => LinkType::ShortcutUnknown,
        LinkKind::Autolink => LinkType::Autolink,
        LinkKind::Email => LinkType::Email,
    }
}

/// Relies on pulldown-cmark's `Alignment`: renames each variant.
#[verifier::external_body]
fn alignment_of(a: Alignment) -> ColumnAlignment {
    match a {
        Alignment::None => ColumnAlignment::Unaligned,
        Alignment::Left => ColumnAlignment::AlignLeft,
        Alignment::Center => ColumnAlignment::AlignCenter,
        Alignment::Right => ColumnAlignment::AlignRight,
    }
}

/// Relies on pulldown-cmark's `Alignment`: renames each variant back.
#[verifier::external_body]
fn alignment_back(a: &ColumnAlignment) -> Alignment {
    match a {
        ColumnAlignment::Unaligned => Alignment::None,
        ColumnAlignment::AlignLeft => Alignment::Left,
        ColumnAlignment::AlignCenter => Alignment::Center,
        ColumnAlignment::AlignRight => Alignment::Right,
    }
}

/// Relies on pulldown-cmark's `Tag`: moves each variant's fields into the
/// crate's own tag type.
#[verifier::external_body]
fn tag_of(t: Tag<'_>) -> MdTag {
    match t {
        Tag::Paragraph => MdTag::Paragraph,
        Tag::Heading(level) => MdTag::Heading(level),
        Tag::BlockQuote => MdTag::BlockQuote,
        Tag::CodeBlock(CodeBlockKind::Fenced(info)) => MdTag::CodeBlock(Some(info.into_string())),
        Tag::CodeBlock(CodeBlockKind::Indented) => MdTag::CodeBlock(None),
        Tag::List(n) => MdTag::List(n),
        Tag::Item => MdTag::Item,
        Tag::FootnoteDefinition(s) => MdTag::FootnoteDefinition(s.into_string()),
        Tag::Table(a) => MdTag::Table(a.into_iter().map(alignment_of).collect()),
        other => tag_of_rest(other),
    }
}

/// Relies on pulldown-cmark's `Tag`: the remaining variants of `tag_of`.
#[verifier::external_body]
fn tag_of_rest(t: Tag<'_>) -> MdTag {
    match t {
        Tag::TableHead => MdTag::TableHead,
        Tag::TableRow => MdTag::TableRow,
        Tag::TableCell => MdTag::TableCell,
        Tag::Emphasis => MdTag::Emphasis,
        Tag::Strong => MdTag::Strong,
        Tag::Strikethrough => MdTag::Strikethrough,
        Tag::Link(k, d, ti) => MdTag::Link(kind_of_link_type(k), d.into_string(), ti.into_string()),
        Tag::Image(k, d, ti) => MdTag::Image(kind_of_link_type(k), d.into_string(), ti.into_string()),
        _ => MdTag::Paragraph,
    }
}

/// Relies on pulldown-cmark's `Tag`: moves each variant's fields back.
#[verifier::external_body]
fn tag_back(t: &MdTag) -> Tag<'static> {
    match t {
        MdTag::Paragraph => Tag::Paragraph,
        MdTag::Heading(level) => Tag::Heading(*level),
        MdTag::BlockQuote => Tag::BlockQuote,
        MdTag::CodeBlock(Some(info)) => Tag::CodeBlock(CodeBlockKind::Fenced(info.clone().into())),
        MdTag::CodeBlock(None) => Tag::CodeBlock(CodeBlockKind::Indented),
        MdTag::List(n) => Tag::List(*n),
        MdTag::Item => Tag::Item,
        MdTag::FootnoteDefinition(s) => Tag::FootnoteDefinition(s.clone().into()),
        MdTag::Table(a) => Tag::Table(a.iter().map(alignment_back).collect()),
        other => tag_back_rest(other),
    }
}

/// Relies on pulldown-cmark's `Tag`: the remaining variants of `tag_back`.
#[verifier::external_body]
fn tag_back_rest(t: &MdTag) -> Tag<'static> {
    match t {
        MdTag::TableHead => Tag::TableHead,
        MdTag::TableRow => Tag::TableRow,
        MdTag::TableCell => Tag::TableCell,
        MdTag::Emphasis => Tag::Emphasis,
        MdTag::Strong => Tag::Strong,
        MdTag::Strikethrough => Tag::Strikethrough,
        MdTag::Link(k, d, ti) => Tag::Link(link_type_of_kind(k), d.clone().into(), ti.clone().into()),
        MdTag::Image(k, d, ti) => Tag::Image(link_type_of_kind(k), d.clone().into(), ti.clone().into()),
        _ => Tag::Paragraph,
    }
}

/// Relies on pulldown-cmark's `Event`: moves each variant's fields into the
/// crate's own event type.
#[verifier::external_body]
fn event_of(e: Event<'_>) -> MdEvent {
    match e {
        Event::Start(t) => MdEvent::Start(tag_of(t)),
        Event::End(t) => MdEvent::End(tag_of(t)),
        Event::Text(s) => MdEvent::Text(s.into_string()),
        Event::Code(s) => MdEvent::Code(s.into_string()),
        Event::Html(s) => MdEvent::Html(s.into_string()),
        Event::FootnoteReference(s) => MdEvent::FootnoteReference(s.into_string()),
        Event::SoftBreak => MdEvent::SoftBreak,
        Event::HardBreak => MdEvent::HardBreak,
        Event::Rule => MdEvent::Rule,
        Event::TaskListMarker(b) => MdEvent::TaskListMarker(b),
    }
}

/// Relies on pulldown-cmark's `Event`: moves each variant's fields back.
#[verifier::external_body]
fn event_back(e: &MdEvent) -> Event<'static> {
    match e {
        MdEvent::Start(t) => Event::Start(tag_back(t)),
        MdEvent::End(t) => Event::End(tag_back(t)),
        MdEvent::Text(s) => Event::Text(s.clone().into()),
        MdEvent::Code(s) => Event::Code(s.clone().into()),
        MdEvent::Html(s) => Event::Html(s.clone().into()),
        MdEvent::FootnoteReference(s) => Event::FootnoteReference(s.clone().into()),
        MdEvent::SoftBreak => Event::SoftBreak,
        MdEvent::HardBreak => Event::HardBreak,
        MdEvent::Rule => Event::Rule,
        MdEvent::TaskListMarker(b) => Event::TaskListMarker(*b),
    }
}

/// The event stream the external Markdown parser produces for a text: a
/// name for what `Parser::new_ext` returns, a function of the text alone.
pub uninterp spec fn parse_of(s: Seq<char>) -> Seq<MdEvent>;

/// The HTML the external serializer writes for an event stream: a name for
/// what `html::push_html` returns, a function of the events alone.
pub uninterp spec fn html_of(events: Seq<MdEvent>) -> Seq<char>;

/// Relies on pulldown-cmark's `Parser::new_ext` with tables, footnotes,
/// strikethrough and task lists enabled: the tokenization of the raw
/// Markdown source into the event stream this module rewrites; the result
/// depends on the text alone.
#[verifier::external_body]
fn parse_markdown(content: &str) -> (r: Vec<MdEvent>)
    ensures
        r@ == parse_of(content@),
{
    let mut opts = Options::empty();
    opts.insert(Options::ENABLE_TABLES);
    opts.insert(Options::ENABLE_FOOTNOTES);
    opts.insert(Options::ENABLE_STRIKETHROUGH);
    opts.insert(Options::ENABLE_TASKLISTS);
    Parser::new_ext(content, opts).map(event_of).collect()
}

/// Relies on pulldown-cmark's `html::push_html`: the HTML serialization of
/// an event stream; the result depends on the events alone.
#[verifier::external_body]
fn serialize_html(events: &Vec<MdEvent>) -> (r: String)
    ensures
        r@ == html_of(events@),
{
    let mut html = String::new();
    let evs: Vec<Event<'static>> = events.iter().map(event_back).collect();
    pulldown_cmark::html::push_html(&mut html, evs.into_iter());
    html
}


// ------------------------------------------------------------------
// The reserved markers.
// ------------------------------------------------------------------

/// The token a template-driven shortcode expansion leaves behind upstream;
/// invalid inside a code fence.
pub const SHORTCODE_PLACEHOLDER: &'static str = "@@GENETICS_SHORTCODE_PLACEHOLDER@@";

/// The shortcode placeholder as a character sequence.
pub open spec fn placeholder() -> Seq<char> {
    "@@GENETICS_SHORTCODE_PLACEHOLDER@@"@
}

/// The reserved continue-reading sentinel as a character sequence.
pub open spec fn marker() -> Seq<char> {
    "<span id=\"continue-reading\"></span>"@
}

/// The placeholder's characters, for searching.
fn placeholder_chars() -> (r: Vec<char>)
    ensures
        r@ == placeholder(),
        r@.len() > 0,
{
    let r = text::chars_of("@@GENETICS_SHORTCODE_PLACEHOLDER@@");
    proof {
        reveal_strlit("@@GENETICS_SHORTCODE_PLACEHOLDER@@");
    }
    r
}

/// The marker's characters, for searching.
fn marker_chars() -> (r: Vec<char>)
    ensures
        r@ == marker(),
        r@.len() > 0,
{
    let r = text::chars_of("<span id=\"continue-reading\"></span>");
    proof {
        reveal_strlit("<span id=\"continue-reading\"></span>");
    }
    r
}

// ------------------------------------------------------------------
// Plain helpers over event streams.
// ------------------------------------------------------------------

/// The plain text carried by a run of events: the `Text` and `Code`
/// payloads concatenated, everything else skipped.
pub open spec fn text_of(events: Seq<MdEvent>) -> Seq<char>
    decreases events.len(),
{
    if events.len() == 0 {
        Seq::empty()
    } else {
        (match events[0] {
            MdEvent::Text(s) => s@,
            MdEvent::Code(s) => s@,
            _ => Seq::empty(),
        }) + text_of(events.drop_first())
    }
}

/// Extracts the plain text of the events between `from` and `to`.
fn get_text(events: &Vec<MdEvent>, from: usize, to: usize) -> (r: String)
    requires
        from <= to <= events@.len(),
    ensures
        r@ == text_of(events@.subrange(from as int, to as int)),
{
    let mut title = String::new();
    let mut i: usize = from;
    proof {
        assert(events@.subrange(from as int, from as int) =~= Seq::<MdEvent>::empty());
    }
    while i < to
        invariant
            from <= i <= to <= events@.len(),
            title@ + text_of(events@.subrange(i as int, to as int)) == text_of(
                events@.subrange(from as int, to as int),
            ),
        decreases to - i,
    {
        let ghost pre = events@.subrange(i as int, to as int);
        proof {
            assert(pre.drop_first() =~= events@.subrange(i as int + 1, to as int));
            assert(pre[0] == events@[i as int]);
        }
        match &events[i] {
            MdEvent::Text(s) => {
                title.push_str(s.as_str());
            },
            MdEvent::Code(s) => {
                title.push_str(s.as_str());
            },
            _ => {},
        }
        i = i + 1;
    }
    proof {
        assert(events@.subrange(i as int, to as int) =~= Seq::<MdEvent>::empty());
        assert(title@ + Seq::<char>::empty() =~= title@);
    }
    title
}

// ------------------------------------------------------------------
// Headings.
// ------------------------------------------------------------------

/// A heading located in the in-flight event buffer: the positions of its
/// start and end events, its level, an explicit id when the source carried
/// one, and its CSS classes.
#[derive(Debug)]
pub struct HeadingStruct {
    pub start_idx: usize,
    pub end_idx: usize,
    pub level: u32,
    pub id: Option<String>,
    pub classes: Vec<String>,
}

/// The classes of a heading as mathematical values.
pub open spec fn classes_view(classes: Seq<String>) -> Seq<Seq<char>> {
    classes.map_values(|s: String| s@)
}

/// The HTML of a rewritten heading start: level, escaped id, and escaped,
/// space-joined classes when there are any.
pub open spec fn heading_html(level: nat, id: Seq<char>, classes: Seq<Seq<char>>) -> Seq<char> {
    "<h"@ + text::dec_str(level) + " id=\""@ + html_escaped(id) + seq!['"'] + (if classes.len()
        > 0 {
        " class=\""@ + text::join_char(classes.map_values(|c: Seq<char>| html_escaped(c)), ' ')
            + seq!['"']
    } else {
        Seq::<char>::empty()
    }) + seq!['>']
}

impl HeadingStruct {
    /// A heading reference opened at `start`; its end is not known yet.
    pub fn new(start: usize, level: u32, anchor_id: Option<String>, classes: &Vec<String>) -> (r:
        HeadingStruct)
        ensures
            r.start_idx == start,
            r.end_idx == 0,
            r.level == level,
            r.id == anchor_id,
            r.classes@ == classes@,
    {
        let mut cs: Vec<String> = Vec::new();
        let mut i: usize = 0;
        while i < classes.len()
            invariant
                i <= classes@.len(),
                cs@ == classes@.take(i as int),
            decreases classes@.len() - i,
        {
            cs.push(classes[i].clone());
            i = i + 1;
            proof {
                assert(cs@ =~= classes@.take(i as int));
            }
        }
        proof {
            assert(classes@.take(i as int) =~= classes@);
        }
        HeadingStruct { start_idx: start, end_idx: 0, level, id: anchor_id, classes: cs }
    }

    /// Writes the heading's opening markup with the given anchor id.
    pub fn format_to_html(&self, id: &str) -> (r: String)
        ensures
            r@ == heading_html(self.level as nat, id@, classes_view(self.classes@)),
    {
        let mut buffer: Vec<char> = text::chars_of("<h");
        let level_chars = text::dec_chars(self.level as u128);
        text::append_chars(&mut buffer, &level_chars);
        let id_open = text::chars_of(" id=\"");
        text::append_chars(&mut buffer, &id_open);
        let idv = text::chars_of(id);
        text::push_html_escaped(&mut buffer, &idv);
        buffer.push('"');
        if self.classes.len() > 0 {
            let class_open = text::chars_of(" class=\"");
            text::append_chars(&mut buffer, &class_open);
            let mut toks: Vec<Vec<char>> = Vec::new();
            let mut i: usize = 0;
            while i < self.classes.len()
                invariant
                    i <= self.classes@.len(),
                    toks.deep_view() == classes_view(self.classes@).take(i as int).map_values(
                        |c: Seq<char>| html_escaped(c),
                    ),
                decreases self.classes@.len() - i,
            {
                let ghost old_dv = toks.deep_view();
                let cv = text::chars_of(self.classes[i].as_str());
                let mut e: Vec<char> = Vec::new();
                text::push_html_escaped(&mut e, &cv);
                proof {
                    assert(e@ =~= html_escaped(self.classes@[i as int]@));
                }
                let ghost ev = e@;
                toks.push(e);
                i = i + 1;
                proof {
                    assert(toks.deep_view() =~~= old_dv.push(ev));
                    assert(toks.deep_view() =~= classes_view(self.classes@).take(
                        i as int,
                    ).map_values(|c: Seq<char>| html_escaped(c)));
                }
            }
            proof {
                assert(classes_view(self.classes@).take(i as int) =~= classes_view(self.classes@));
            }
            let joined = text::join_chars(&toks, ' ');
            text::append_chars(&mut buffer, &joined);
            buffer.push('"');
        }
        buffer.push('>');
        proof {
            assert(buffer@ =~= heading_html(self.level as nat, id@, classes_view(self.classes@)));
        }
        text::string_of(&buffer)
    }
}

/// Whether an event opens a heading.
pub open spec fn is_heading_start(e: MdEvent) -> bool {
    e is Start && e->Start_0 is Heading
}

/// Whether an event closes a heading.
pub open spec fn is_heading_end(e: MdEvent) -> bool {
    e is End && e->End_0 is Heading
}

/// Locates the heading start/end pairs of the buffered stream. A heading
/// end with no heading started before it, or a heading left without an end,
/// is a stream invariant violation and fatal.
pub fn get_heading_refs(events: &Vec<MdEvent>) -> (r: Result<Vec<HeadingStruct>, RenderError>)
    ensures
        match r {
            Ok(refs) => {
                &&& forall|k: int|
                    0 <= k < refs@.len() ==> {
                        let hr = #[trigger] refs@[k];
                        &&& hr.start_idx < hr.end_idx < events@.len()
                        &&& events@[hr.start_idx as int] == MdEvent::Start(MdTag::Heading(hr.level))
                        &&& is_heading_end(events@[hr.end_idx as int])
                        &&& hr.id is None
                        &&& hr.classes@.len() == 0
                    }
                &&& forall|k1: int, k2: int|
                    0 <= k1 < k2 < refs@.len() ==> (#[trigger] refs@[k1]).start_idx < (
                    #[trigger] refs@[k2]).start_idx
                &&& forall|k: int|
                    0 <= k < refs@.len() - 1 ==> (#[trigger] refs@[k]).end_idx < refs@[k
                        + 1].start_idx
                &&& forall|i: int|
                    0 <= i < events@.len() && is_heading_start(#[trigger] events@[i]) ==> exists|
                        k: int,
                    | 0 <= k < refs@.len() && (#[trigger] refs@[k]).start_idx == i
            },
            Err(e) => e is UnmatchedHeading,
        },
        (forall|i: int| 0 <= i < events@.len() ==> !is_heading_event(#[trigger] events@[i])) ==> r
            is Ok,
{
    let mut starts: Vec<(usize, u32)> = Vec::new();
    let mut ends: Vec<Option<usize>> = Vec::new();
    let mut i: usize = 0;
    while i < events.len()
        invariant
            i <= events@.len(),
            starts@.len() == ends@.len(),
            forall|k: int|
                0 <= k < starts@.len() ==> {
                    let st = #[trigger] starts@[k];
                    &&& st.0 < i
                    &&& events@[st.0 as int] == MdEvent::Start(MdTag::Heading(st.1))
                    &&& match ends@[k] {
                        Some(e) => st.0 < e < i && is_heading_end(events@[e as int]),
                        None => true,
                    }
                },
            forall|k1: int, k2: int|
                0 <= k1 < k2 < starts@.len() ==> (#[trigger] starts@[k1]).0 < (
                #[trigger] starts@[k2]).0,
            forall|k: int|
                0 <= k < starts@.len() - 1 ==> (match ends@[k] {
                    Some(e) => e < (#[trigger] starts@[k + 1]).0,
                    None => true,
                }),
            forall|j: int|
                0 <= j < i && is_heading_start(#[trigger] events@[j]) ==> exists|k: int|
                    0 <= k < starts@.len() && (#[trigger] starts@[k]).0 == j,
        decreases events@.len() - i,
    {
        match &events[i] {
            MdEvent::Start(MdTag::Heading(level)) => {
                proof {
                    assert(events@[i as int] == MdEvent::Start(MdTag::Heading(*level)));
                }
                let ghost s0 = starts@;
                let ghost e0 = ends@;
                starts.push((i, *level));
                ends.push(None);
                proof {
                    assert((starts@[starts@.len() - 1]).0 == i as int);
                    assert forall|k: int| 0 <= k < starts@.len() - 1 implies (match ends@[k] {
                        Some(e) => e < (#[trigger] starts@[k + 1]).0,
                        None => true,
                    }) by {
                        if k < s0.len() - 1 {
                            assert(ends@[k] == e0[k] && starts@[k + 1] == s0[k + 1]);
                        } else {
                            assert(k == s0.len() - 1);
                            let st = s0[k];
                            assert(match e0[k] {
                                Some(e) => st.0 < e < i,
                                None => true,
                            });
                            assert(ends@[k] == e0[k]);
                            assert((starts@[k + 1]).0 == i as int);
                        }
                    }
                    assert forall|j: int|
                        0 <= j < i + 1 && is_heading_start(#[trigger] events@[j]) implies exists|
                        k: int,
                    | 0 <= k < starts@.len() && (#[trigger] starts@[k]).0 == j by {
                        if j < i {
                            let k = choose|k: int| 0 <= k < s0.len() && (#[trigger] s0[k]).0 == j;
                            assert((starts@[k]).0 == j);
                        } else {
                            assert((starts@[starts@.len() - 1]).0 == j);
                        }
                    }
                }
            },
            MdEvent::End(MdTag::Heading(_)) => {
                proof {
                    assert(is_heading_end(events@[i as int]));
                }
                if ends.len() == 0 {
                    proof {
                        assert(is_heading_end(events@[i as int]));
                    }
                    return Err(RenderError::UnmatchedHeading);
                }
                let last = ends.len() - 1;
                let ghost e0 = ends@;
                ends.set(last, Some(i));
                proof {
                    assert forall|k: int| 0 <= k < starts@.len() - 1 implies (match ends@[k] {
                        Some(e) => e < (#[trigger] starts@[k + 1]).0,
                        None => true,
                    }) by {
                        assert(ends@[k] == e0[k]);
                    }
                }
            },
            _ => {
                proof {
                    assert(!is_heading_start(events@[i as int]));
                }
            },
        }
        i = i + 1;
    }
    let mut refs: Vec<HeadingStruct> = Vec::new();
    let no_classes: Vec<String> = Vec::new();
    let mut k: usize = 0;
    while k < starts.len()
        invariant
            k <= starts@.len(),
            starts@.len() == ends@.len(),
            refs@.len() == k,
            no_classes@.len() == 0,
            forall|j: int|
                0 <= j < starts@.len() ==> {
                    let st = #[trigger] starts@[j];
                    &&& st.0 < events@.len()
                    &&& events@[st.0 as int] == MdEvent::Start(MdTag::Heading(st.1))
                    &&& match ends@[j] {
                        Some(e) => st.0 < e < events@.len() && is_heading_end(events@[e as int]),
                        None => true,
                    }
                },
            forall|k1: int, k2: int|
                0 <= k1 < k2 < starts@.len() ==> (#[trigger] starts@[k1]).0 < (
                #[trigger] starts@[k2]).0,
            forall|j: int|
                0 <= j < starts@.len() - 1 ==> (match ends@[j] {
                    Some(e) => e < (#[trigger] starts@[j + 1]).0,
                    None => true,
                }),
            forall|j: int|
                0 <= j < refs@.len() ==> {
                    let hr = #[trigger] refs@[j];
                    &&& hr.start_idx == starts@[j].0
                    &&& hr.level == starts@[j].1
                    &&& (j < starts@.len() - 1 ==> (match ends@[j] {
                        Some(e) => hr.end_idx == e,
                        None => false,
                    }))
                    &&& hr.start_idx < hr.end_idx < events@.len()
                    &&& events@[hr.start_idx as int] == MdEvent::Start(MdTag::Heading(hr.level))
                    &&& is_heading_end(events@[hr.end_idx as int])
                    &&& hr.id is None
                    &&& hr.classes@.len() == 0
                },
        decreases starts@.len() - k,
    {
        let (s, level) = starts[k];
        match ends[k] {
            Some(e) => {
                let mut hr = HeadingStruct::new(s, level, None, &no_classes);
                hr.end_idx = e;
                refs.push(hr);
            },
            None => {
                proof {
                    assert(is_heading_start(events@[starts@[k as int].0 as int]));
                }
                return Err(RenderError::UnmatchedHeading);
            },
        }
        k = k + 1;
    }
    proof {
        assert(forall|i2: int|
            0 <= i2 < events@.len() && is_heading_start(#[trigger] events@[i2]) ==> exists|kk: int|
                0 <= kk < starts@.len() && (#[trigger] starts@[kk]).0 == i2);
        assert forall|i2: int|
            0 <= i2 < events@.len() && is_heading_start(#[trigger] events@[i2]) implies exists|
            kk: int,
        | 0 <= kk < refs@.len() && (#[trigger] refs@[kk]).start_idx == i2 by {
            let kk = choose|kk: int| 0 <= kk < starts@.len() && (#[trigger] starts@[kk]).0 == i2;
            assert(refs@[kk].start_idx == i2);
        }
    }
    Ok(refs)
}


// ------------------------------------------------------------------
// The tag stack and the summary cut.
// ------------------------------------------------------------------

/// The element kind one open tag stands for; tags are tracked and matched
/// by kind.
#[derive(Debug, Clone, Copy, PartialEq, Eq, Structural)]
pub enum TagKey {
    KeyParagraph,
    KeyHeading(u32),
    KeyBlockQuote,
    KeyCodeBlock,
    KeyOrderedList,
    KeyUnorderedList,
    KeyItem,
    KeyFootnote,
    KeyTable,
    KeyTableHead,
    KeyTableRow,
    KeyTableCell,
    KeyEmphasis,
    KeyStrong,
    KeyStrikethrough,
    KeyLink,
    KeyImage,
}

/// The element kind of a tag.
pub open spec fn tag_key(t: MdTag) -> TagKey {
    match t {
        MdTag::Paragraph => TagKey::KeyParagraph,
        MdTag::Heading(level) => TagKey::KeyHeading(level),
        MdTag::BlockQuote => TagKey::KeyBlockQuote,
        MdTag::CodeBlock(_) => TagKey::KeyCodeBlock,
        MdTag::List(n) => if n is Some {
            TagKey::KeyOrderedList
        } else {
            TagKey::KeyUnorderedList
        },
        MdTag::Item => TagKey::KeyItem,
        MdTag::FootnoteDefinition(_) => TagKey::KeyFootnote,
        MdTag::Table(_) => TagKey::KeyTable,
        MdTag::TableHead => TagKey::KeyTableHead,
        MdTag::TableRow => TagKey::KeyTableRow,
        MdTag::TableCell => TagKey::KeyTableCell,
        MdTag::Emphasis => TagKey::KeyEmphasis,
        MdTag::Strong => TagKey::KeyStrong,
        MdTag::Strikethrough => TagKey::KeyStrikethrough,
        MdTag::Link(_, _, _) => TagKey::KeyLink,
        MdTag::Image(_, _, _) => TagKey::KeyImage,
    }
}

/// Reads the element kind of a tag.
fn key_of(t: &MdTag) -> (k: TagKey)
    ensures
        k == tag_key(*t),
{
    match t {
        MdTag::Paragraph => TagKey::KeyParagraph,
        MdTag::Heading(level) => TagKey::KeyHeading(*level),
        MdTag::BlockQuote => TagKey::KeyBlockQuote,
        MdTag::CodeBlock(_) => TagKey::KeyCodeBlock,
        MdTag::List(n) => match n {
            Some(_) => TagKey::KeyOrderedList,
            None => TagKey::KeyUnorderedList,
        },
        MdTag::Item => TagKey::KeyItem,
        MdTag::FootnoteDefinition(_) => TagKey::KeyFootnote,
        MdTag::Table(_) => TagKey::KeyTable,
        MdTag::TableHead => TagKey::KeyTableHead,
        MdTag::TableRow => TagKey::KeyTableRow,
        MdTag::TableCell => TagKey::KeyTableCell,
        MdTag::Emphasis => TagKey::KeyEmphasis,
        MdTag::Strong => TagKey::KeyStrong,
        MdTag::Strikethrough => TagKey::KeyStrikethrough,
        MdTag::Link(_, _, _) => TagKey::KeyLink,
        MdTag::Image(_, _, _) => TagKey::KeyImage,
    }
}

/// The topmost position of `k` in the stack, `-1` when absent.
pub open spec fn rposition_key(stack: Seq<TagKey>, k: TagKey) -> int
    decreases stack.len(),
{
    if stack.len() == 0 {
        -1
    } else if stack.last() == k {
        stack.len() - 1
    } else {
        rposition_key(stack.drop_last(), k)
    }
}

/// What the topmost position means.
proof fn lemma_rposition(stack: Seq<TagKey>, k: TagKey)
    ensures
        rposition_key(stack, k) < 0 ==> forall|j: int| 0 <= j < stack.len() ==> stack[j] != k,
        rposition_key(stack, k) >= 0 ==> {
            let p = rposition_key(stack, k);
            p < stack.len() && stack[p] == k && (forall|j: int| p < j < stack.len() ==> stack[j] != k)
        },
    decreases stack.len(),
{
    if stack.len() > 0 && stack.last() != k {
        lemma_rposition(stack.drop_last(), k);
        assert(forall|j: int| 0 <= j < stack.len() - 1 ==> stack[j] == stack.drop_last()[j]);
    }
}

/// How one event changes the stack of open tags: a start pushes its kind, an
/// end cuts the stack back to below the topmost matching kind (clearing it
/// when nothing matches), anything else leaves it alone.
pub open spec fn stack_step(stack: Seq<TagKey>, e: MdEvent) -> Seq<TagKey> {
    match e {
        MdEvent::Start(t) => stack.push(tag_key(t)),
        MdEvent::End(t) => {
            let p = rposition_key(stack, tag_key(t));
            if p < 0 {
                stack.take(0)
            } else {
                stack.take(p)
            }
        },
        _ => stack,
    }
}

/// The tags still open after the first `i` events.
pub open spec fn tag_stack(events: Seq<MdEvent>, i: int) -> Seq<TagKey>
    decreases i,
{
    if i <= 0 {
        Seq::empty()
    } else {
        stack_step(tag_stack(events, i - 1), events[i - 1])
    }
}

/// Computes the tags still open after the first `upto` events.
fn open_tags(events: &Vec<MdEvent>, upto: usize) -> (r: Vec<TagKey>)
    requires
        upto <= events@.len(),
    ensures
        r@ == tag_stack(events@, upto as int),
{
    let mut stack: Vec<TagKey> = Vec::new();
    let mut i: usize = 0;
    while i < upto
        invariant
            i <= upto <= events@.len(),
            stack@ == tag_stack(events@, i as int),
        decreases upto - i,
    {
        match &events[i] {
            MdEvent::Start(t) => {
                stack.push(key_of(t));
            },
            MdEvent::End(t) => {
                let k = key_of(t);
                proof {
                    lemma_rposition(stack@, k);
                }
                let mut j: usize = stack.len();
                let mut found: usize = 0;
                let mut any = false;
                while j > 0 && !any
                    invariant
                        j <= stack@.len(),
                        !any ==> forall|q: int| j <= q < stack@.len() ==> stack@[q] != k,
                        any ==> found < stack@.len() && stack@[found as int] == k && (forall|
                            q: int,
                        | found < q < stack@.len() ==> stack@[q] != k),
                    decreases j,
                {
                    if stack[j - 1] == k {
                        found = j - 1;
                        any = true;
                    }
                    j = j - 1;
                }
                proof {
                    if any {
                        assert(rposition_key(stack@, k) == found) by {
                            lemma_rposition(stack@, k);
                            let p = rposition_key(stack@, k);
                            if p < 0 {
                                assert(stack@[found as int] != k);
                            } else if p < found {
                                assert(stack@[found as int] != k);
                            } else if found < p {
                                assert(stack@[p] != k);
                            }
                        }
                    } else {
                        assert(rposition_key(stack@, k) < 0) by {
                            lemma_rposition(stack@, k);
                            let p = rposition_key(stack@, k);
                            if p >= 0 {
                                assert(stack@[p] != k);
                            }
                        }
                    }
                }
                let cut = if any {
                    found
                } else {
                    0
                };
                proof {
                    assert(tag_stack(events@, i as int).take(stack@.len() as int) =~= stack@);
                }
                while stack.len() > cut
                    invariant
                        cut <= stack@.len(),
                        stack@.len() <= tag_stack(events@, i as int).len(),
                        stack@ == tag_stack(events@, i as int).take(stack@.len() as int),
                    decreases stack@.len(),
                {
                    proof {
                        assert(tag_stack(events@, i as int).take(stack@.len() as int).len()
                            == stack@.len());
                    }
                    stack.pop();
                    proof {
                        assert(tag_stack(events@, i as int).take(stack@.len() as int) =~= tag_stack(
                            events@,
                            i as int,
                        ).take(stack@.len() as int + 1).drop_last());
                    }
                }
                proof {
                    assert(stack@ =~= stack_step(tag_stack(events@, i as int), events@[i as int]));
                }
            },
            _ => {},
        }
        i = i + 1;
    }
    stack
}

/// Whether an event is the reserved continue-reading sentinel.
pub open spec fn is_marker(e: MdEvent) -> bool {
    e is Html && e->Html_0@ == marker()
}

/// The position of the first continue-reading sentinel, or the stream's
/// length when there is none.
pub open spec fn marker_event_index(events: Seq<MdEvent>) -> int
    decreases events.len(),
{
    if events.len() == 0 {
        0
    } else if is_marker(events[0]) {
        0
    } else {
        1 + marker_event_index(events.drop_first())
    }
}

/// What the marker position means.
proof fn lemma_marker_index(events: Seq<MdEvent>)
    ensures
        0 <= marker_event_index(events) <= events.len(),
        marker_event_index(events) < events.len() ==> is_marker(
            events[marker_event_index(events)],
        ),
        forall|j: int| 0 <= j < marker_event_index(events) ==> !is_marker(#[trigger] events[j]),
    decreases events.len(),
{
    if events.len() > 0 && !is_marker(events[0]) {
        lemma_marker_index(events.drop_first());
        assert(forall|j: int| 1 <= j < events.len() ==> events[j] == events.drop_first()[j - 1]);
    }
}

/// A first-marker position is the marker position.
proof fn lemma_marker_index_unique(events: Seq<MdEvent>, i: int)
    requires
        0 <= i < events.len(),
        is_marker(events[i]),
        forall|j: int| 0 <= j < i ==> !is_marker(#[trigger] events[j]),
    ensures
        marker_event_index(events) == i,
{
    lemma_marker_index(events);
    let m = marker_event_index(events);
    if m < i {
        assert(!is_marker(events[m]));
    } else if i < m {
        assert(!is_marker(events[i]));
    }
}

/// Finds the first continue-reading sentinel among the events.
fn find_marker_event(events: &Vec<MdEvent>) -> (r: usize)
    ensures
        r == marker_event_index(events@),
        r <= events@.len(),
{
    let mv = marker_chars();
    let mut i: usize = 0;
    while i < events.len()
        invariant
            i <= events@.len(),
            mv@ == marker(),
            forall|j: int| 0 <= j < i ==> !is_marker(#[trigger] events@[j]),
        decreases events@.len() - i,
    {
        match &events[i] {
            MdEvent::Html(s) => {
                let sv = text::chars_of(s.as_str());
                if text::chars_eq(&sv, &mv) {
                    proof {
                        lemma_marker_index_unique(events@, i as int);
                    }
                    return i;
                }
            },
            _ => {},
        }
        i = i + 1;
    }
    proof {
        lemma_marker_index(events@);
        let m = marker_event_index(events@);
        if m < events@.len() {
            assert(!is_marker(events@[m]));
        }
    }
    events.len()
}

/// The closing markup of one open tag kind; an image needs none.
pub open spec fn close_text(k: TagKey) -> Seq<char> {
    match k {
        TagKey::KeyParagraph => "</p>"@,
        TagKey::KeyHeading(level) => "</h"@ + text::dec_str(level as nat) + seq!['>'],
        TagKey::KeyBlockQuote => "</blockquote>"@,
        TagKey::KeyCodeBlock => "</code></pre>"@,
        TagKey::KeyOrderedList => "</ol>"@,
        TagKey::KeyUnorderedList => "</ul>"@,
        TagKey::KeyItem => "</li>"@,
        TagKey::KeyFootnote => "</div>"@,
        TagKey::KeyTable => "</table>"@,
        TagKey::KeyTableHead => "</thead>"@,
        TagKey::KeyTableRow => "</tr>"@,
        TagKey::KeyTableCell => "</td>"@,
        TagKey::KeyEmphasis => "</em>"@,
        TagKey::KeyStrong => "</strong>"@,
        TagKey::KeyStrikethrough => "</del>"@,
        TagKey::KeyLink => "</a>"@,
        TagKey::KeyImage => Seq::empty(),
    }
}

/// The closing markup of a whole stack, innermost tag first.
pub open spec fn closes_of(stack: Seq<TagKey>) -> Seq<char>
    decreases stack.len(),
{
    if stack.len() == 0 {
        Seq::empty()
    } else {
        close_text(stack.last()) + closes_of(stack.drop_last())
    }
}

/// Appends the closing markup of one tag kind.
fn push_close_text(out: &mut Vec<char>, k: TagKey)
    ensures
        final(out)@ == old(out)@ + close_text(k),
{
    match k {
        TagKey::KeyParagraph => {
            let t = text::chars_of("</p>");
            text::append_chars(out, &t);
        },
        TagKey::KeyHeading(level) => {
            let t = text::chars_of("</h");
            text::append_chars(out, &t);
            let d = text::dec_chars(level as u128);
            text::append_chars(out, &d);
            out.push('>');
            proof {
                assert(out@ =~= old(out)@ + close_text(k));
            }
        },
        TagKey::KeyBlockQuote => {
            let t = text::chars_of("</blockquote>");
            text::append_chars(out, &t);
        },
        TagKey::KeyCodeBlock => {
            let t = text::chars_of("</code></pre>");
            text::append_chars(out, &t);
        },
        TagKey::KeyOrderedList => {
            let t = text::chars_of("</ol>");
            text::append_chars(out, &t);
        },
        TagKey::KeyUnorderedList => {
            let t = text::chars_of("</ul>");
            text::append_chars(out, &t);
        },
        TagKey::KeyItem => {
            let t = text::chars_of("</li>");
            text::append_chars(out, &t);
        },
        TagKey::KeyFootnote => {
            let t = text::chars_of("</div>");
            text::append_chars(out, &t);
        },
        TagKey::KeyTable => {
            let t = text::chars_of("</table>");
            text::append_chars(out, &t);
        },
        TagKey::KeyTableHead => {
            let t = text::chars_of("</thead>");
            text::append_chars(out, &t);
        },
        TagKey::KeyTableRow => {
            let t = text::chars_of("</tr>");
            text::append_chars(out, &t);
        },
        TagKey::KeyTableCell => {
            let t = text::chars_of("</td>");
            text::append_chars(out, &t);
        },
        TagKey::KeyEmphasis => {
            let t = text::chars_of("</em>");
            text::append_chars(out, &t);
        },
        TagKey::KeyStrong => {
            let t = text::chars_of("</strong>");
            text::append_chars(out, &t);
        },
        TagKey::KeyStrikethrough => {
            let t = text::chars_of("</del>");
            text::append_chars(out, &t);
        },
        TagKey::KeyLink => {
            let t = text::chars_of("</a>");
            text::append_chars(out, &t);
        },
        TagKey::KeyImage => {
            proof {
                assert(out@ =~= old(out)@ + close_text(k));
            }
        },
    }
}

/// Closing a stack with one more tag below closes the tag last.
proof fn lemma_closes_cons(x: TagKey, rest: Seq<TagKey>)
    ensures
        closes_of(seq![x] + rest) == closes_of(rest) + close_text(x),
    decreases rest.len(),
{
    let v = seq![x] + rest;
    if rest.len() == 0 {
        assert(v =~= seq![x]);
        assert(v.drop_last() =~= Seq::<TagKey>::empty());
        assert(closes_of(Seq::<TagKey>::empty()) == Seq::<char>::empty());
        assert(closes_of(v) == close_text(x) + Seq::<char>::empty());
        assert(close_text(x) + Seq::<char>::empty() =~= close_text(x));
        assert(closes_of(rest) + close_text(x) =~= close_text(x));
    } else {
        lemma_closes_cons(x, rest.drop_last());
        assert(v.last() == rest.last());
        assert(v.drop_last() =~= seq![x] + rest.drop_last());
        assert(closes_of(v) == close_text(rest.last()) + (closes_of(rest.drop_last())
            + close_text(x)));
        assert(closes_of(v) =~= closes_of(rest) + close_text(x));
    }
}

/// The summary of a rendered body: everything before the first
/// continue-reading sentinel, repaired with the closing markup of every tag
/// the cut left open; `None` when the body carries no sentinel.
pub fn compute_summary(body: &str, events: &Vec<MdEvent>) -> (r: Option<String>)
    ensures
        match r {
            Some(s) => exists|idx: int|
                text::first_at(body@, marker(), idx) && s@ == body@.take(idx) + closes_of(
                    tag_stack(events@, marker_event_index(events@)),
                ),
            None => !contains_seq(body@, marker()),
        },
{
    let bv = text::chars_of(body);
    let mv = marker_chars();
    match text::find_sub(&bv, &mv) {
        None => None,
        Some(idx) => {
            let mut out = text::sub_vec(&bv, 0, idx);
            proof {
                assert(out@ =~= body@.take(idx as int));
            }
            let cut = find_marker_event(events);
            let stack = open_tags(events, cut);
            let mut j: usize = stack.len();
            proof {
                assert(stack@.skip(j as int) =~= Seq::<TagKey>::empty());
                assert(closes_of(Seq::<TagKey>::empty()) == Seq::<char>::empty());
                assert(out@ =~= body@.take(idx as int) + closes_of(stack@.skip(j as int)));
            }
            while j > 0
                invariant
                    j <= stack@.len(),
                    stack@ == tag_stack(events@, marker_event_index(events@)),
                    out@ == body@.take(idx as int) + closes_of(stack@.skip(j as int)),
                decreases j,
            {
                j = j - 1;
                proof {
                    assert(stack@.skip(j as int) =~= seq![stack@[j as int]] + stack@.skip(
                        j as int + 1,
                    ));
                    lemma_closes_cons(stack@[j as int], stack@.skip(j as int + 1));
                }
                push_close_text(&mut out, stack[j]);
                proof {
                    assert(out@ =~= body@.take(idx as int) + closes_of(stack@.skip(j as int)));
                }
            }
            proof {
                assert(stack@.skip(0) =~= stack@);
            }
            Some(text::string_of(&out))
        },
    }
}


// ------------------------------------------------------------------
// The first rewriting pass.
// ------------------------------------------------------------------

/// The text with its emoji shortcodes substituted: a name for what the
/// emoji replacement engine returns, a function of the text alone.
pub uninterp spec fn emoji_of(s: Seq<char>) -> Seq<char>;

/// Relies on gh-emoji's `Replacer::replace_all`: every `:code:` emoji
/// shortcode replaced by its emoji character; a pure function of the text.
#[verifier::external_body]
fn replace_emoji(s: &str) -> (r: String)
    ensures
        r@ == emoji_of(s@),
{
    gh_emoji::Replacer::new().replace_all(s).into_owned()
}

/// Whether the event stream stands inside an open code block just before
/// its `i`-th event.
pub open spec fn in_code(events: Seq<MdEvent>, i: int) -> bool
    decreases i,
{
    if i <= 0 {
        false
    } else {
        match events[i - 1] {
            MdEvent::Start(MdTag::CodeBlock(_)) => true,
            MdEvent::End(MdTag::CodeBlock(_)) => false,
            _ => in_code(events, i - 1),
        }
    }
}

/// A shortcode placeholder inside an open code fence: fatal for the
/// document.
pub open spec fn has_shortcode_in_code(events: Seq<MdEvent>) -> bool {
    exists|i: int|
        0 <= i < events.len() && (#[trigger] events[i]) is Text && in_code(events, i)
            && contains_seq(events[i]->Text_0@, placeholder())
}

/// A link start with an empty destination among the first `i` events.
pub open spec fn empty_link_before(events: Seq<MdEvent>, i: int) -> bool {
    exists|j: int|
        0 <= j < i && (#[trigger] events[j]) is Start && events[j]->Start_0 is Link
            && events[j]->Start_0->Link_1@.len() == 0
}

/// A link start with an empty destination anywhere.
pub open spec fn has_empty_link(events: Seq<MdEvent>) -> bool {
    empty_link_before(events, events.len() as int)
}

/// An empty link seen early is still seen later.
proof fn lemma_empty_link_mono(events: Seq<MdEvent>, i: int, j: int)
    requires
        empty_link_before(events, i),
        i <= j,
    ensures
        empty_link_before(events, j),
{
    let w = choose|w: int|
        0 <= w < i && (#[trigger] events[w]) is Start && events[w]->Start_0 is Link
            && events[w]->Start_0->Link_1@.len() == 0;
    assert(0 <= w < j && events[w] is Start && events[w]->Start_0 is Link
        && events[w]->Start_0->Link_1@.len() == 0);
}

/// The external destination one event records, if any.
pub open spec fn ext_head(e: MdEvent) -> Seq<Seq<char>> {
    if e is Start && e->Start_0 is Link {
        let k = e->Start_0->Link_0;
        let d = e->Start_0->Link_1;
        if d@.len() > 0 && links::records_external(k, d@) {
            seq![d@]
        } else {
            Seq::empty()
        }
    } else {
        Seq::empty()
    }
}

/// The external destinations recorded from the `i`-th event on.
pub open spec fn externals_from(events: Seq<MdEvent>, i: nat) -> Seq<Seq<char>>
    decreases events.len() - i,
{
    if i >= events.len() {
        Seq::empty()
    } else {
        ext_head(events[i as int]) + externals_from(events, i + 1)
    }
}

/// The external destinations of the whole stream, one entry per occurrence,
/// in order.
pub open spec fn externals_of(events: Seq<MdEvent>) -> Seq<Seq<char>> {
    externals_from(events, 0)
}

/// The internal-link record one event makes, if any.
pub open spec fn int_head(e: MdEvent, path: Option<Seq<char>>) -> Seq<
    (Seq<char>, Option<Seq<char>>),
> {
    if e is Start && e->Start_0 is Link {
        let k = e->Start_0->Link_0;
        let d = e->Start_0->Link_1;
        if d@.len() > 0 && links::records_internal(k, d@, path) {
            seq![(path->0, Some(d@.skip(1)))]
        } else {
            Seq::empty()
        }
    } else {
        Seq::empty()
    }
}

/// The internal links recorded from the `i`-th event on.
pub open spec fn internals_from(events: Seq<MdEvent>, path: Option<Seq<char>>, i: nat) -> Seq<
    (Seq<char>, Option<Seq<char>>),
>
    decreases events.len() - i,
{
    if i >= events.len() {
        Seq::empty()
    } else {
        int_head(events[i as int], path) + internals_from(events, path, i + 1)
    }
}

/// The internal links of the whole stream, in order.
pub open spec fn internals_of(events: Seq<MdEvent>, path: Option<Seq<char>>) -> Seq<
    (Seq<char>, Option<Seq<char>>),
> {
    internals_from(events, path, 0)
}

/// Whether an event is a heading start or end.
pub open spec fn is_heading_event(e: MdEvent) -> bool {
    is_heading_start(e) || is_heading_end(e)
}

/// The current page's path as a mathematical value.
pub open spec fn path_view(context: RenderContext) -> Option<Seq<char>> {
    match context.current_page_path {
        Some(p) => Some(p@),
        None => None,
    }
}

/// The outcome of the first rewriting pass.
pub struct FirstPass {
    pub events: Vec<MdEvent>,
    pub internal_links: Vec<(String, Option<String>)>,
    pub external_links: Vec<String>,
    /// The first non-fatal error, kept for the end of the render.
    pub recorded: Option<RenderError>,
}

/// The earlier of a recorded error and a fresh one.
fn first_err(recorded: Option<RenderError>, e: RenderError) -> (r: RenderError)
    ensures
        match recorded {
            Some(e0) => r == e0,
            None => r == e,
        },
{
    match recorded {
        Some(e0) => e0,
        None => e,
    }
}

/// The single forward pass over the event stream: code blocks are rendered,
/// links classified and rewritten, emoji substituted, one paragraph end
/// suppressed after each paragraph start, and the document's link lists
/// collected. A shortcode placeholder inside a code fence and a highlighting
/// engine failure are fatal; an empty link destination is recorded and
/// surfaces at the end of the render.
#[verifier::rlimit(100)]
fn first_pass<'a>(
    events: Vec<MdEvent>,
    context: &RenderContext<'a>,
    reg: &'a SyntaxRegistry,
) -> (r: Result<FirstPass, RenderError>)
    ensures
        ({
            let path = path_view(*context);
            &&& r is Ok ==> r->Ok_0.external_links.deep_view() == externals_of(events@)
            &&& r is Ok ==> links::ilinks_view(r->Ok_0.internal_links@) == internals_of(
                events@,
                path,
            )
            &&& r is Ok ==> !has_shortcode_in_code(events@)
            &&& r is Ok ==> ((r->Ok_0.recorded is Some) == has_empty_link(events@))
            &&& r is Ok ==> (r->Ok_0.recorded is Some ==> r->Ok_0.recorded->0 is EmptyLink)
            &&& r is Ok ==> ((forall|j: int|
                0 <= j < events@.len() ==> !is_heading_event(#[trigger] events@[j])) ==> (forall|
                j: int,
            |
                0 <= j < r->Ok_0.events@.len() ==> !is_heading_event(
                    #[trigger] r->Ok_0.events@[j],
                )))
            &&& r is Err ==> (r->Err_0 is ShortcodeInCodeBlock ==> has_shortcode_in_code(events@))
            &&& r is Err ==> (r->Err_0 is EmptyLink ==> has_empty_link(events@))
            &&& r is Err ==> (r->Err_0 is HighlightEngine
                ==> context.config.markdown.highlight_code)
            &&& (!context.config.markdown.highlight_code && !has_shortcode_in_code(events@))
                ==> r is Ok
        }),
{
    let ghost orig = events@;
    let ghost path = path_view(*context);
    let mut rest = events;
    let mut out: Vec<MdEvent> = Vec::new();
    let mut internal_links: Vec<(String, Option<String>)> = Vec::new();
    let mut external_links: Vec<String> = Vec::new();
    let mut accumulated = String::new();
    let mut code_block: Option<CodeBlock<'a>> = None;
    let mut stop_next_end_p = false;
    let mut recorded: Option<RenderError> = None;
    let ghost mut i: int = 0;
    proof {
        assert(orig.skip(0) =~= orig);
        assert(externals_of(orig) =~= external_links.deep_view() + externals_from(orig, 0));
        assert(internals_of(orig, path) =~= links::ilinks_view(internal_links@) + internals_from(
            orig,
            path,
            0,
        ));
    }
    while rest.len() > 0
        invariant
            orig == events@,
            0 <= i <= orig.len(),
            rest@ == orig.skip(i),
            (code_block is Some) == in_code(orig, i),
            !context.config.markdown.highlight_code && code_block is Some
                ==> code_block->0.highlighter is NoHighlight,
            externals_of(orig) == external_links.deep_view() + externals_from(orig, i as nat),
            internals_of(orig, path) == links::ilinks_view(internal_links@) + internals_from(
                orig,
                path,
                i as nat,
            ),
            forall|j: int|
                0 <= j < i ==> !((#[trigger] orig[j]) is Text && in_code(orig, j) && contains_seq(
                    orig[j]->Text_0@,
                    placeholder(),
                )),
            (recorded is Some) == empty_link_before(orig, i),
            recorded is Some ==> recorded->0 is EmptyLink,
            path == path_view(*context),
            (forall|j: int| 0 <= j < orig.len() ==> !is_heading_event(#[trigger] orig[j])) ==> (
            forall|j: int| 0 <= j < out@.len() ==> !is_heading_event(#[trigger] out@[j])),
        decreases orig.len() - i,
    {
        let e = rest.remove(0);
        proof {
            assert(e == orig[i]);
            assert(orig.skip(i).drop_first() =~= orig.skip(i + 1));
            assert(externals_from(orig, i as nat) == ext_head(orig[i]) + externals_from(
                orig,
                i as nat + 1,
            ));
            assert(internals_from(orig, path, i as nat) == int_head(orig[i], path)
                + internals_from(orig, path, i as nat + 1));
        }
        let ghost ext0 = external_links.deep_view();
        let ghost int0 = links::ilinks_view(internal_links@);
        match e {
            MdEvent::Text(s) => {
                if code_block.is_some() {
                    let sv = text::chars_of(s.as_str());
                    let ph = placeholder_chars();
                    if text::contains_sub(&sv, &ph) {
                        proof {
                            assert(orig[i] is Text && in_code(orig, i) && contains_seq(
                                orig[i]->Text_0@,
                                placeholder(),
                            ));
                            assert(has_shortcode_in_code(orig));
                            if recorded is Some {
                                lemma_empty_link_mono(orig, i, orig.len() as int);
                            }
                        }
                        return Err(first_err(recorded, RenderError::ShortcodeInCodeBlock));
                    }
                    accumulated.push_str(s.as_str());
                } else {
                    let t = if context.config.markdown.render_emoji {
                        replace_emoji(s.as_str())
                    } else {
                        s
                    };
                    let tv = text::chars_of(t.as_str());
                    let ph = placeholder_chars();
                    if !text::contains_sub(&tv, &ph) {
                        out.push(MdEvent::Text(t));
                    }
                }
            },
            MdEvent::Start(MdTag::CodeBlock(kind)) => {
                let fence = match &kind {
                    Some(info) => FenceSettings::new(info.as_str()),
                    None => FenceSettings::new(""),
                };
                let rel_path = match &context.current_rel_path {
                    Some(p) => Some(p.as_str()),
                    None => None,
                };
                match CodeBlock::new(fence, context.config, rel_path, reg) {
                    Ok((block, begin)) => {
                        code_block = Some(block);
                        out.push(MdEvent::Html(begin));
                    },
                    Err(e2) => {
                        proof {
                            if recorded is Some {
                                lemma_empty_link_mono(orig, i, orig.len() as int);
                            }
                        }
                        return Err(first_err(recorded, e2));
                    },
                }
            },
            MdEvent::End(MdTag::CodeBlock(_)) => {
                let cb = code_block;
                code_block = None;
                match cb {
                    Some(mut block) => {
                        match block.highlight(accumulated.as_str()) {
                            Ok(html) => {
                                out.push(MdEvent::Html(html));
                                accumulated = String::new();
                            },
                            Err(e2) => {
                                proof {
                                    if recorded is Some {
                                        lemma_empty_link_mono(orig, i, orig.len() as int);
                                    }
                                }
                                return Err(first_err(recorded, e2));
                            },
                        }
                    },
                    None => {},
                }
                out.push(MdEvent::Html("</code></pre>".to_owned()));
            },
            MdEvent::Start(MdTag::Link(k, dest, title)) => {
                if dest.as_str().is_empty() {
                    recorded = Some(first_err(recorded, RenderError::EmptyLink));
                    out.push(MdEvent::Start(MdTag::Link(k, "#".to_owned(), title)));
                } else {
                    let fixed = links::link_fixer(
                        k,
                        dest.as_str(),
                        context,
                        &mut internal_links,
                        &mut external_links,
                    );
                    if links::is_external_link(dest.as_str()) {
                        let mut h = text::chars_of("<a href='");
                        let dv = text::chars_of(dest.as_str());
                        text::push_href_escaped(&mut h, &dv);
                        let mid = text::chars_of("'>");
                        text::append_chars(&mut h, &mid);
                        let tv = text::chars_of(title.as_str());
                        text::append_chars(&mut h, &tv);
                        let tail = text::chars_of("</a>");
                        text::append_chars(&mut h, &tail);
                        out.push(MdEvent::Html(text::string_of(&h)));
                    } else {
                        out.push(MdEvent::Start(MdTag::Link(k, fixed, title)));
                    }
                }
            },
            MdEvent::Start(MdTag::Paragraph) => {
                stop_next_end_p = true;
                out.push(MdEvent::Start(MdTag::Paragraph));
            },
            MdEvent::End(MdTag::Paragraph) => {
                if stop_next_end_p {
                    stop_next_end_p = false;
                    out.push(MdEvent::Html(String::new()));
                } else {
                    out.push(MdEvent::End(MdTag::Paragraph));
                }
            },
            other => {
                out.push(other);
            },
        }
        proof {
            i = i + 1;
            assert(externals_of(orig) =~= external_links.deep_view() + externals_from(
                orig,
                i as nat,
            ));
            assert(internals_of(orig, path) =~= links::ilinks_view(internal_links@)
                + internals_from(orig, path, i as nat));
        }
    }
    proof {
        assert(externals_from(orig, i as nat) =~= Seq::<Seq<char>>::empty());
        assert(external_links.deep_view() + Seq::<Seq<char>>::empty() =~= external_links.deep_view());
        assert(internals_from(orig, path, i as nat) =~= Seq::<
            (Seq<char>, Option<Seq<char>>),
        >::empty());
        assert(links::ilinks_view(internal_links@) + Seq::<
            (Seq<char>, Option<Seq<char>>),
        >::empty() =~= links::ilinks_view(internal_links@));
    }
    Ok(FirstPass { events: out, internal_links, external_links, recorded })
}


// ------------------------------------------------------------------
// The second pass and the public entry points.
// ------------------------------------------------------------------

/// Whether an event survives the cleanup between the passes: empty text and
/// empty HTML nodes are dropped.
pub open spec fn keeps(e: MdEvent) -> bool {
    match e {
        MdEvent::Text(s) => s@.len() > 0,
        MdEvent::Html(s) => s@.len() > 0,
        _ => true,
    }
}

/// The stream with empty text and HTML nodes dropped.
pub open spec fn retained_from(events: Seq<MdEvent>, i: nat) -> Seq<MdEvent>
    decreases events.len() - i,
{
    if i >= events.len() {
        Seq::empty()
    } else {
        (if keeps(events[i as int]) {
            seq![events[i as int]]
        } else {
            Seq::<MdEvent>::empty()
        }) + retained_from(events, i + 1)
    }
}

/// Drops empty text and HTML nodes from the stream.
fn retain_nonempty(events: Vec<MdEvent>) -> (r: Vec<MdEvent>)
    ensures
        r@ == retained_from(events@, 0),
        (forall|j: int| 0 <= j < events@.len() ==> !is_heading_event(#[trigger] events@[j]))
            ==> (forall|j: int| 0 <= j < r@.len() ==> !is_heading_event(#[trigger] r@[j])),
{
    let ghost orig = events@;
    let mut rest = events;
    let mut out: Vec<MdEvent> = Vec::new();
    let ghost mut i: int = 0;
    proof {
        assert(orig.skip(0) =~= orig);
        assert(retained_from(orig, 0) =~= out@ + retained_from(orig, 0));
    }
    while rest.len() > 0
        invariant
            orig == events@,
            0 <= i <= orig.len(),
            rest@ == orig.skip(i),
            retained_from(orig, 0) == out@ + retained_from(orig, i as nat),
            (forall|j: int| 0 <= j < orig.len() ==> !is_heading_event(#[trigger] orig[j])) ==> (
            forall|j: int| 0 <= j < out@.len() ==> !is_heading_event(#[trigger] out@[j])),
        decreases orig.len() - i,
    {
        let e = rest.remove(0);
        proof {
            assert(e == orig[i]);
            assert(orig.skip(i).drop_first() =~= orig.skip(i + 1));
        }
        let keep = match &e {
            MdEvent::Text(s) => !s.as_str().is_empty(),
            MdEvent::Html(s) => !s.as_str().is_empty(),
            _ => true,
        };
        if keep {
            out.push(e);
        }
        proof {
            i = i + 1;
            assert(retained_from(orig, 0) =~= out@ + retained_from(orig, i as nat));
        }
    }
    proof {
        assert(retained_from(orig, i as nat) =~= Seq::<MdEvent>::empty());
        assert(out@ + Seq::<MdEvent>::empty() =~= out@);
    }
    out
}

/// The anchor ids of a run of headings.
pub open spec fn heading_ids(headings: Seq<crate::content::Heading>) -> Seq<Seq<char>> {
    headings.map_values(|h: crate::content::Heading| h.id@)
}

/// How one document's headings were rewritten: `rs` locates each heading's
/// start and end events in the incoming stream, one entry per heading
/// record; each record carries that heading's level and, as title, the
/// plain text between its start and end; in the outgoing stream each
/// heading start is replaced by the heading's final markup and every other
/// event stands unchanged.
#[verifier::opaque]
pub open spec fn heading_layout(
    rs: Seq<(int, int, u32)>,
    before: Seq<MdEvent>,
    after: Seq<MdEvent>,
    headings: Seq<crate::content::Heading>,
) -> bool {
    &&& rs.len() == headings.len()
    &&& after.len() == before.len()
    &&& (forall|k: int|
        0 <= k < rs.len() ==> {
            let hr = #[trigger] rs[k];
            &&& 0 <= hr.0 < hr.1 < before.len()
            &&& before[hr.0] == MdEvent::Start(MdTag::Heading(hr.2))
            &&& headings[k].level == hr.2
            &&& headings[k].title@ == text_of(before.subrange(hr.0 + 1, hr.1))
            &&& after[hr.0] is Html
            &&& after[hr.0]->Html_0@ == heading_html(hr.2 as nat, headings[k].id@, Seq::empty())
        })
    &&& (forall|k1: int, k2: int|
        0 <= k1 < k2 < rs.len() ==> (#[trigger] rs[k1]).0 < (#[trigger] rs[k2]).0)
    &&& (forall|i: int|
        0 <= i < before.len() && is_heading_start(#[trigger] before[i]) ==> (exists|k: int|
            0 <= k < rs.len() && (#[trigger] rs[k]).0 == i))
    &&& (forall|i: int|
        0 <= i < before.len() && (forall|k: int| 0 <= k < rs.len() ==> (#[trigger] rs[k]).0 != i)
            ==> #[trigger] after[i] == before[i])
}

/// The second pass: every located heading start is replaced by its final
/// markup, carrying an anchor that no earlier heading of the document uses;
/// the document's table-of-contents records are collected. The anchors
/// allocated for one document are pairwise distinct, and each is exactly
/// what the allocator grants for the title against the ids taken so far.
#[verifier::rlimit(100)]
fn process_headings(events: &mut Vec<MdEvent>, permalink: &str) -> (r: Result<
    (Vec<crate::content::Heading>, Ghost<Seq<(int, int, u32)>>),
    RenderError,
>)
    ensures
        match r {
            Ok(pair) => {
                let headings = pair.0;
                &&& (forall|k1: int, k2: int|
                    0 <= k1 < k2 < headings@.len() ==> (#[trigger] headings@[k1]).id@ != (
                    #[trigger] headings@[k2]).id@)
                &&& (forall|k: int|
                    0 <= k < headings@.len() ==> is_anchor_of(
                        heading_ids(headings@).take(k),
                        (#[trigger] headings@[k]).title@,
                        headings@[k].id@,
                    ))
                &&& (forall|k: int|
                    0 <= k < headings@.len() ==> (#[trigger] headings@[k]).permalink@ == permalink@
                        + seq!['#'] + headings@[k].id@)
                &&& heading_layout(pair.1@, old(events)@, final(events)@, headings@)
            },
            Err(e) => e is UnmatchedHeading,
        },
        (forall|j: int|
            0 <= j < old(events)@.len() ==> !is_heading_event(#[trigger] old(events)@[j])) ==> r
            is Ok,
{
    let refs = match get_heading_refs(events) {
        Ok(refs) => refs,
        Err(e) => {
            proof {
                if forall|j: int|
                    0 <= j < old(events)@.len() ==> !is_heading_event(#[trigger] old(events)@[j]) {
                    assert(false);
                }
            }
            return Err(e);
        },
    };
    Ok(rewrite_heading_refs(events, refs, permalink))
}

/// Rewrites the located headings in place and builds their records; the
/// work of the second pass once the pairs are known.
#[verifier::rlimit(100)]
fn rewrite_heading_refs(
    events: &mut Vec<MdEvent>,
    refs: Vec<HeadingStruct>,
    permalink: &str,
) -> (r: (Vec<crate::content::Heading>, Ghost<Seq<(int, int, u32)>>))
    requires
        forall|j: int|
            0 <= j < refs@.len() ==> (#[trigger] refs@[j]).start_idx < refs@[j].end_idx < old(
                events,
            )@.len(),
        forall|j: int| 0 <= j < refs@.len() ==> (#[trigger] refs@[j]).id is None,
        forall|j: int| 0 <= j < refs@.len() ==> (#[trigger] refs@[j]).classes@.len() == 0,
        forall|j: int|
            0 <= j < refs@.len() ==> old(events)@[(#[trigger] refs@[j]).start_idx as int]
                == MdEvent::Start(MdTag::Heading(refs@[j].level)),
        forall|j1: int, j2: int|
            0 <= j1 < j2 < refs@.len() ==> (#[trigger] refs@[j1]).start_idx < (
            #[trigger] refs@[j2]).start_idx,
        forall|i: int|
            0 <= i < old(events)@.len() && is_heading_start(#[trigger] old(events)@[i]) ==> (
            exists|j: int| 0 <= j < refs@.len() && (#[trigger] refs@[j]).start_idx == i),
    ensures
        ({
            let headings = r.0;
            &&& final(events)@.len() == old(events)@.len()
            &&& (forall|k1: int, k2: int|
                0 <= k1 < k2 < headings@.len() ==> (#[trigger] headings@[k1]).id@ != (
                #[trigger] headings@[k2]).id@)
            &&& (forall|k: int|
                0 <= k < headings@.len() ==> is_anchor_of(
                    heading_ids(headings@).take(k),
                    (#[trigger] headings@[k]).title@,
                    headings@[k].id@,
                ))
            &&& (forall|k: int|
                0 <= k < headings@.len() ==> (#[trigger] headings@[k]).permalink@ == permalink@
                    + seq!['#'] + headings@[k].id@)
            &&& heading_layout(r.1@, old(events)@, final(events)@, headings@)
        }),
{
    let mut inserted_anchors: Vec<String> = Vec::new();
    let mut headings: Vec<crate::content::Heading> = Vec::new();
    let ghost rsg = Seq::new(
        refs@.len(),
        |j: int| (refs@[j].start_idx as int, refs@[j].end_idx as int, refs@[j].level),
    );
    let mut k: usize = 0;
    while k < refs.len()
        invariant
            headings@.len() == k <= refs@.len(),
            events@.len() == old(events)@.len(),
            rsg == Seq::new(
                refs@.len(),
                |j: int| (refs@[j].start_idx as int, refs@[j].end_idx as int, refs@[j].level),
            ),
            forall|j: int|
                0 <= j < refs@.len() ==> (#[trigger] refs@[j]).start_idx < refs@[j].end_idx
                    < events@.len(),
            forall|j: int| 0 <= j < refs@.len() ==> (#[trigger] refs@[j]).id is None,
            forall|j: int| 0 <= j < refs@.len() ==> (#[trigger] refs@[j]).classes@.len() == 0,
            forall|j: int|
                0 <= j < refs@.len() ==> old(events)@[(#[trigger] refs@[j]).start_idx as int]
                    == MdEvent::Start(MdTag::Heading(refs@[j].level)),
            forall|j1: int, j2: int|
                0 <= j1 < j2 < refs@.len() ==> (#[trigger] refs@[j1]).start_idx < (
                #[trigger] refs@[j2]).start_idx,
            forall|i: int|
                0 <= i < old(events)@.len() && is_heading_start(#[trigger] old(events)@[i])
                    ==> (exists|j: int|
                    0 <= j < refs@.len() && (#[trigger] refs@[j]).start_idx == i),
            forall|i: int|
                0 <= i < events@.len() && (forall|j: int|
                    0 <= j < k ==> (#[trigger] refs@[j]).start_idx != i)
                    ==> #[trigger] events@[i] == old(events)@[i],
            forall|j: int|
                0 <= j < k ==> (#[trigger] events@[refs@[j].start_idx as int]) is Html
                    && events@[refs@[j].start_idx as int]->Html_0@ == heading_html(
                    refs@[j].level as nat,
                    headings@[j].id@,
                    Seq::empty(),
                ),
            forall|j: int|
                0 <= j < k ==> (#[trigger] headings@[j]).title@ == text_of(
                    old(events)@.subrange(
                        refs@[j].start_idx as int + 1,
                        refs@[j].end_idx as int,
                    ),
                ) && headings@[j].level == refs@[j].level,
            inserted_anchors.deep_view() =~= heading_ids(headings@),
            forall|k1: int, k2: int|
                0 <= k1 < k2 < headings@.len() ==> (#[trigger] headings@[k1]).id@ != (
                #[trigger] headings@[k2]).id@,
            forall|j: int|
                0 <= j < headings@.len() ==> is_anchor_of(
                    heading_ids(headings@).take(j),
                    (#[trigger] headings@[j]).title@,
                    headings@[j].id@,
                ),
            forall|j: int|
                0 <= j < headings@.len() ==> (#[trigger] headings@[j]).permalink@ == permalink@
                    + seq!['#'] + headings@[j].id@,
        decreases refs@.len() - k,
    {
        let start_idx = refs[k].start_idx;
        let end_idx = refs[k].end_idx;
        proof {
            assert forall|idx: int|
                start_idx + 1 <= idx < end_idx implies events@[idx] == old(events)@[idx] by {
                assert forall|j: int|
                    0 <= j < k implies (#[trigger] refs@[j]).start_idx != idx by {
                    assert(refs@[j].start_idx < refs@[k as int].start_idx);
                }
            }
            assert(events@.subrange(start_idx as int + 1, end_idx as int) =~= old(
                events,
            )@.subrange(start_idx as int + 1, end_idx as int));
        }
        let title = get_text(events, start_idx + 1, end_idx);
        let id = match &refs[k].id {
            Some(explicit) => explicit.clone(),
            None => anchor::get_anchor(&inserted_anchors, title.clone()),
        };
        proof {
            assert(!contains_str(inserted_anchors.deep_view(), id@) ==> !heading_ids(
                headings@,
            ).contains(id@));
        }
        let ghost ids0 = inserted_anchors.deep_view();
        let ghost idv = id@;
        inserted_anchors.push(id.clone());
        proof {
            assert(inserted_anchors.deep_view() =~~= ids0.push(idv));
        }
        let html = refs[k].format_to_html(id.as_str());
        proof {
            assert(classes_view(refs@[k as int].classes@) =~= Seq::<Seq<char>>::empty());
            assert(html@ == heading_html(refs@[k as int].level as nat, idv, Seq::empty()));
        }
        let ghost hv = html@;
        let ghost ev0 = events@;
        events.set(start_idx, MdEvent::Html(html));
        proof {
            assert(events@[start_idx as int] is Html);
            assert(events@[start_idx as int]->Html_0@ == hv);
            assert(forall|i: int|
                0 <= i < events@.len() && i != start_idx ==> #[trigger] events@[i] == ev0[i]);
        }
        let mut plink = String::new();
        plink.push_str(permalink);
        plink.push_str("#");
        plink.push_str(id.as_str());
        proof {
            reveal_strlit("#");
            assert(plink@ =~= permalink@ + seq!['#'] + id@);
        }
        let h = crate::content::Heading {
            level: refs[k].level,
            id,
            title,
            permalink: plink,
            children: Vec::new(),
        };
        let ghost h0 = headings@;
        headings.push(h);
        k = k + 1;
        proof {
            assert(headings@.last().id@ == idv);
            assert(heading_ids(headings@) =~= heading_ids(h0).push(idv));
            assert(heading_ids(headings@).take(headings@.len() - 1) =~= heading_ids(h0));
            assert forall|k1: int, k2: int|
                0 <= k1 < k2 < headings@.len() implies (#[trigger] headings@[k1]).id@ != (
            #[trigger] headings@[k2]).id@ by {
                if k2 == headings@.len() - 1 {
                    if refs@[k2].id is None {
                        assert(!contains_str(ids0, headings@[k2].id@));
                        assert(ids0[k1] == headings@[k1].id@);
                    }
                }
            }
            assert forall|j: int|
                0 <= j < headings@.len() implies is_anchor_of(
                heading_ids(headings@).take(j),
                (#[trigger] headings@[j]).title@,
                headings@[j].id@,
            ) by {
                if j < headings@.len() - 1 {
                    assert(heading_ids(headings@).take(j) =~= heading_ids(h0).take(j));
                    assert(headings@[j] == h0[j]);
                }
            }
            assert forall|i: int|
                0 <= i < events@.len() && (forall|j: int|
                    0 <= j < k ==> (#[trigger] refs@[j]).start_idx != i) implies #[trigger] events@[i]
                == old(events)@[i] by {
                assert(refs@[k as int - 1].start_idx != i);
                assert(forall|j: int| 0 <= j < k - 1 ==> (#[trigger] refs@[j]).start_idx != i);
                assert(events@[i] == ev0[i]);
            }
            assert forall|j: int|
                0 <= j < k implies (#[trigger] events@[refs@[j].start_idx as int]) is Html
                && events@[refs@[j].start_idx as int]->Html_0@ == heading_html(
                refs@[j].level as nat,
                headings@[j].id@,
                Seq::empty(),
            ) by {
                if j < k - 1 {
                    assert(refs@[j].start_idx < refs@[k as int - 1].start_idx);
                    assert(events@[refs@[j].start_idx as int] == ev0[refs@[j].start_idx as int]);
                    assert(headings@[j] == h0[j]);
                } else {
                    assert(headings@[j].id@ == idv);
                }
            }
            assert forall|j: int|
                0 <= j < k implies (#[trigger] headings@[j]).title@ == text_of(
                old(events)@.subrange(refs@[j].start_idx as int + 1, refs@[j].end_idx as int),
            ) && headings@[j].level == refs@[j].level by {
                if j < k - 1 {
                    assert(headings@[j] == h0[j]);
                }
            }
        }
    }
    proof {
        lemma_heading_layout_assemble(rsg, refs@, old(events)@, events@, headings@);
    }
    (headings, Ghost(rsg))
}

/// Assembles the heading-layout description from the facts the heading
/// pass establishes ref by ref.
proof fn lemma_heading_layout_assemble(
    rsg: Seq<(int, int, u32)>,
    refs: Seq<HeadingStruct>,
    before: Seq<MdEvent>,
    after: Seq<MdEvent>,
    headings: Seq<crate::content::Heading>,
)
    requires
        rsg == Seq::new(
            refs.len(),
            |j: int| (refs[j].start_idx as int, refs[j].end_idx as int, refs[j].level),
        ),
        headings.len() == refs.len(),
        after.len() == before.len(),
        forall|j: int|
            0 <= j < refs.len() ==> (#[trigger] refs[j]).start_idx < refs[j].end_idx
                < after.len(),
        forall|j: int|
            0 <= j < refs.len() ==> before[(#[trigger] refs[j]).start_idx as int]
                == MdEvent::Start(MdTag::Heading(refs[j].level)),
        forall|j1: int, j2: int|
            0 <= j1 < j2 < refs.len() ==> (#[trigger] refs[j1]).start_idx < (
            #[trigger] refs[j2]).start_idx,
        forall|i: int|
            0 <= i < before.len() && is_heading_start(#[trigger] before[i]) ==> (exists|j: int|
                0 <= j < refs.len() && (#[trigger] refs[j]).start_idx == i),
        forall|i: int|
            0 <= i < after.len() && (forall|j: int|
                0 <= j < refs.len() ==> (#[trigger] refs[j]).start_idx != i)
                ==> #[trigger] after[i] == before[i],
        forall|j: int|
            0 <= j < refs.len() ==> (#[trigger] after[refs[j].start_idx as int]) is Html
                && after[refs[j].start_idx as int]->Html_0@ == heading_html(
                refs[j].level as nat,
                headings[j].id@,
                Seq::empty(),
            ),
        forall|j: int|
            0 <= j < refs.len() ==> (#[trigger] headings[j]).title@ == text_of(
                before.subrange(refs[j].start_idx as int + 1, refs[j].end_idx as int),
            ) && headings[j].level == refs[j].level,
    ensures
        heading_layout(rsg, before, after, headings),
{
    reveal(heading_layout);
    assert forall|j: int| 0 <= j < rsg.len() implies {
        let hr = #[trigger] rsg[j];
        &&& 0 <= hr.0 < hr.1 < before.len()
        &&& before[hr.0] == MdEvent::Start(MdTag::Heading(hr.2))
        &&& headings[j].level == hr.2
        &&& headings[j].title@ == text_of(before.subrange(hr.0 + 1, hr.1))
        &&& after[hr.0] is Html
        &&& after[hr.0]->Html_0@ == heading_html(hr.2 as nat, headings[j].id@, Seq::empty())
    } by {
        assert(rsg[j].0 == refs[j].start_idx as int);
        assert(rsg[j].1 == refs[j].end_idx as int);
        assert(rsg[j].2 == refs[j].level);
        assert(refs[j].start_idx < refs[j].end_idx < after.len());
        assert(after[refs[j].start_idx as int] is Html);
        assert(headings[j].title@ == text_of(
            before.subrange(refs[j].start_idx as int + 1, refs[j].end_idx as int),
        ));
    }
    assert forall|j1: int, j2: int|
        0 <= j1 < j2 < rsg.len() implies (#[trigger] rsg[j1]).0 < (#[trigger] rsg[j2]).0 by {
        assert(refs[j1].start_idx < refs[j2].start_idx);
    }
    assert forall|i: int|
        0 <= i < before.len() && is_heading_start(#[trigger] before[i]) implies (exists|j: int|
            0 <= j < rsg.len() && (#[trigger] rsg[j]).0 == i) by {
        let j = choose|j: int| 0 <= j < refs.len() && (#[trigger] refs[j]).start_idx == i;
        assert((rsg[j]).0 == i);
    }
    assert forall|i: int|
        0 <= i < before.len() && (forall|j: int|
            0 <= j < rsg.len() ==> (#[trigger] rsg[j]).0 != i) implies #[trigger] after[i]
        == before[i] by {
        assert forall|j: int| 0 <= j < refs.len() implies (#[trigger] refs[j]).start_idx != i by {
            assert((rsg[j]).0 != i);
        }
    }
}

/// Whether a heading's final markup stands in the stream: an HTML event
/// carrying exactly the heading markup of its level and id.
pub open spec fn heading_rendered(events: Seq<MdEvent>, h: crate::content::Heading) -> bool {
    exists|i: int|
        0 <= i < events.len() && (#[trigger] events[i]) is Html && events[i]->Html_0@
            == heading_html(h.level as nat, h.id@, Seq::empty())
}

/// The outcome of the whole event-stream transformation.
pub struct Transformed {
    /// The rewritten stream, ready for serialization.
    pub events: Vec<MdEvent>,
    /// The document's table-of-contents records.
    pub headings: Vec<crate::content::Heading>,
    /// Links into site-local pages: relative path plus optional anchor.
    pub internal_links: Vec<(String, Option<String>)>,
    /// Outgoing links to external webpages.
    pub external_links: Vec<String>,
}

/// Transforms a Markdown event stream: the single forward rewriting pass,
/// the cleanup of empty nodes, and the heading pass. On success the link
/// lists are exactly the stream's external and internal link occurrences in
/// order, and the heading anchors are pairwise distinct; any error leaves
/// the document unrendered.
pub fn transform_events<'a>(
    events: Vec<MdEvent>,
    context: &RenderContext<'a>,
    reg: &'a SyntaxRegistry,
) -> (r: Result<Transformed, RenderError>)
    ensures
        ({
            let path = path_view(*context);
            &&& r is Ok ==> r->Ok_0.external_links.deep_view() == externals_of(events@)
            &&& r is Ok ==> links::ilinks_view(r->Ok_0.internal_links@) == internals_of(
                events@,
                path,
            )
            &&& r is Ok ==> !has_shortcode_in_code(events@) && !has_empty_link(events@)
            &&& r is Ok ==> (forall|k1: int, k2: int|
                0 <= k1 < k2 < r->Ok_0.headings@.len() ==> (#[trigger] r->Ok_0.headings@[k1]).id@
                    != (#[trigger] r->Ok_0.headings@[k2]).id@)
            &&& r is Ok ==> (forall|k: int|
                0 <= k < r->Ok_0.headings@.len() ==> is_anchor_of(
                    heading_ids(r->Ok_0.headings@).take(k),
                    (#[trigger] r->Ok_0.headings@[k]).title@,
                    r->Ok_0.headings@[k].id@,
                ))
            &&& r is Ok ==> (forall|k: int|
                0 <= k < r->Ok_0.headings@.len() ==> (#[trigger] r->Ok_0.headings@[k]).permalink@
                    == context.current_page_permalink@ + seq!['#'] + r->Ok_0.headings@[k].id@)
            &&& r is Ok ==> (forall|k: int|
                0 <= k < r->Ok_0.headings@.len() ==> heading_rendered(
                    r->Ok_0.events@,
                    #[trigger] r->Ok_0.headings@[k],
                ))
            &&& r is Err ==> (r->Err_0 is ShortcodeInCodeBlock ==> has_shortcode_in_code(events@))
            &&& r is Err ==> (r->Err_0 is EmptyLink ==> has_empty_link(events@))
            &&& r is Err ==> (r->Err_0 is HighlightEngine
                ==> context.config.markdown.highlight_code)
            &&& (!context.config.markdown.highlight_code && !has_shortcode_in_code(events@)
                && !has_empty_link(events@) && (forall|j: int|
                0 <= j < events@.len() ==> !is_heading_event(#[trigger] events@[j]))) ==> r is Ok
        }),
{
    let fp = match first_pass(events, context, reg) {
        Ok(fp) => fp,
        Err(e) => {
            return Err(e);
        },
    };
    let mut retained = retain_nonempty(fp.events);
    let (headings, layout) = match process_headings(&mut retained, context.current_page_permalink) {
        Ok(pair) => pair,
        Err(e) => {
            return Err(first_err(fp.recorded, e));
        },
    };
    proof {
        reveal(heading_layout);
        let rs = layout@;
        assert forall|k: int|
            0 <= k < headings@.len() implies heading_rendered(
            retained@,
            #[trigger] headings@[k],
        ) by {
            let hr = rs[k];
            assert(retained@[hr.0] is Html && retained@[hr.0]->Html_0@ == heading_html(
                hr.2 as nat,
                headings@[k].id@,
                Seq::empty(),
            ));
            assert(headings@[k].level == hr.2);
        }
    }
    match fp.recorded {
        Some(e) => Err(e),
        None => Ok(
            Transformed {
                events: retained,
                headings,
                internal_links: fp.internal_links,
                external_links: fp.external_links,
            },
        ),
    }
}

/// What one render call produces.
#[derive(Debug)]
pub struct Rendered {
    /// The document's whole rendered body.
    pub body: String,
    /// The body cut at the continue-reading sentinel and repaired, when the
    /// sentinel occurs.
    pub summary: Option<String>,
    /// Links to site-local pages: relative path plus optional anchor target.
    pub internal_links: Vec<(String, Option<String>)>,
    /// Outgoing links to external webpages (HTTP and HTTPS targets).
    pub external_links: Vec<String>,
}

/// Converts Markdown text to HTML: the external parser tokenizes the text
/// (`parse_of`), the verified transformer rewrites the event stream, and
/// the external serializer writes the body (`html_of`); the summary is the
/// body cut at the first continue-reading sentinel, repaired with the
/// closing markup of every tag the cut left open. The link lists and the
/// error taxonomy are those of `transform_events`, stated here over the
/// parse of the text itself.
pub fn markdown_to_html<'a>(
    content: &str,
    context: &RenderContext<'a>,
    reg: &'a SyntaxRegistry,
) -> (r: Result<Rendered, RenderError>)
    ensures
        ({
            let events = parse_of(content@);
            let path = path_view(*context);
            &&& r is Ok ==> r->Ok_0.external_links.deep_view() == externals_of(events)
            &&& r is Ok ==> links::ilinks_view(r->Ok_0.internal_links@) == internals_of(
                events,
                path,
            )
            &&& r is Ok ==> !has_shortcode_in_code(events) && !has_empty_link(events)
            &&& (has_shortcode_in_code(events) || has_empty_link(events)) ==> r is Err
            &&& r is Err ==> (r->Err_0 is ShortcodeInCodeBlock ==> has_shortcode_in_code(events))
            &&& r is Err ==> (r->Err_0 is EmptyLink ==> has_empty_link(events))
            &&& r is Err ==> (r->Err_0 is HighlightEngine
                ==> context.config.markdown.highlight_code)
            &&& (!context.config.markdown.highlight_code && !has_shortcode_in_code(events)
                && !has_empty_link(events) && (forall|j: int|
                0 <= j < events.len() ==> !is_heading_event(#[trigger] events[j]))) ==> r is Ok
            &&& r is Ok ==> (exists|evs: Seq<MdEvent>|
                r->Ok_0.body@ == html_of(evs) && (match r->Ok_0.summary {
                    Some(s) => exists|idx: int|
                        text::first_at(r->Ok_0.body@, marker(), idx) && s@ == r->Ok_0.body@.take(
                            idx,
                        ) + closes_of(tag_stack(evs, marker_event_index(evs))),
                    None => !contains_seq(r->Ok_0.body@, marker()),
                }))
        }),
{
    let events = parse_markdown(content);
    let t = match transform_events(events, context, reg) {
        Ok(t) => t,
        Err(e) => {
            return Err(e);
        },
    };
    let body = serialize_html(&t.events);
    let summary = compute_summary(body.as_str(), &t.events);
    let ghost evsg = t.events@;
    let ghost st0 = tag_stack(t.events@, marker_event_index(t.events@));
    let ghost mut idxg: int = 0;
    proof {
        if summary is Some {
            idxg = choose|idx: int|
                text::first_at(body@, marker(), idx) && summary->0@ == body@.take(idx) + closes_of(
                    st0,
                );
        }
    }
    let rendered = Rendered {
        body,
        summary,
        internal_links: t.internal_links,
        external_links: t.external_links,
    };
    proof {
        assert(rendered.body@ == html_of(evsg));
        if rendered.summary is Some {
            assert(text::first_at(rendered.body@, marker(), idxg));
            assert(rendered.summary->0@ == rendered.body@.take(idxg) + closes_of(st0));
            assert(exists|idx2: int|
                text::first_at(rendered.body@, marker(), idx2) && rendered.summary->0@
                    == rendered.body@.take(idx2) + closes_of(
                    tag_stack(evsg, marker_event_index(evsg)),
                ));
        }
    }
    Ok(rendered)
}

/// Renders Markdown content to HTML using the provided context; the whole
/// transformation and its guarantees are those of `markdown_to_html`.
pub fn render_content<'a>(
    content: &str,
    context: &RenderContext<'a>,
    reg: &'a SyntaxRegistry,
) -> (r: Result<Rendered, RenderError>)
    ensures
        ({
            let events = parse_of(content@);
            let path = path_view(*context);
            &&& r is Ok ==> r->Ok_0.external_links.deep_view() == externals_of(events)
            &&& r is Ok ==> links::ilinks_view(r->Ok_0.internal_links@) == internals_of(
                events,
                path,
            )
            &&& r is Ok ==> !has_shortcode_in_code(events) && !has_empty_link(events)
            &&& (has_shortcode_in_code(events) || has_empty_link(events)) ==> r is Err
            &&& r is Err ==> (r->Err_0 is ShortcodeInCodeBlock ==> has_shortcode_in_code(events))
            &&& r is Err ==> (r->Err_0 is EmptyLink ==> has_empty_link(events))
            &&& r is Err ==> (r->Err_0 is HighlightEngine
                ==> context.config.markdown.highlight_code)
            &&& (!context.config.markdown.highlight_code && !has_shortcode_in_code(events)
                && !has_empty_link(events) && (forall|j: int|
                0 <= j < events.len() ==> !is_heading_event(#[trigger] events[j]))) ==> r is Ok
            &&& r is Ok ==> (exists|evs: Seq<MdEvent>|
                r->Ok_0.body@ == html_of(evs) && (match r->Ok_0.summary {
                    Some(s) => exists|idx: int|
                        text::first_at(r->Ok_0.body@, marker(), idx) && s@ == r->Ok_0.body@.take(
                            idx,
                        ) + closes_of(tag_stack(evs, marker_event_index(evs))),
                    None => !contains_seq(r->Ok_0.body@, marker()),
                }))
        }),
{
    markdown_to_html(content, context, reg)
}


/// The end events that close a whole stack, innermost tag first.
pub open spec fn closing_keys(stack: Seq<TagKey>) -> Seq<TagKey>
    decreases stack.len(),
{
    if stack.len() == 0 {
        Seq::empty()
    } else {
        seq![stack.last()] + closing_keys(stack.drop_last())
    }
}

/// One matching close pops exactly the top of the stack.
proof fn lemma_pop_step(stack: Seq<TagKey>)
    requires
        stack.len() > 0,
    ensures
        rposition_key(stack, stack.last()) == stack.len() - 1,
        stack.take(stack.len() - 1) == stack.drop_last(),
{
    assert(stack.take(stack.len() - 1) =~= stack.drop_last());
}

/// Folding the stack through a run of key applications, one at a time.
pub open spec fn apply_closes(stack: Seq<TagKey>, keys: Seq<TagKey>) -> Seq<TagKey>
    decreases keys.len(),
{
    if keys.len() == 0 {
        stack
    } else {
        let p = rposition_key(stack, keys[0]);
        let next = if p < 0 {
            stack.take(0)
        } else {
            stack.take(p)
        };
        apply_closes(next, keys.drop_first())
    }
}

/// The recorded closes repair the cut completely: closing every tag of the
/// stack from the top down, by the same matching rule the scan uses, leaves
/// no tag open. A summary truncated at the marker and extended with the
/// recorded closing markup therefore carries no dangling unclosed tag.
pub proof fn lemma_repair_closes_all(stack: Seq<TagKey>)
    ensures
        apply_closes(stack, closing_keys(stack)) == Seq::<TagKey>::empty(),
    decreases stack.len(),
{
    if stack.len() == 0 {
        assert(apply_closes(stack, closing_keys(stack)) =~= Seq::<TagKey>::empty());
    } else {
        lemma_pop_step(stack);
        lemma_repair_closes_all(stack.drop_last());
        assert(closing_keys(stack)[0] == stack.last());
        assert(closing_keys(stack).drop_first() =~= closing_keys(stack.drop_last()));
    }
}

} // verus!
