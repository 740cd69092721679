//! The code block renderer: one fenced block's accumulated text turned into
//! an HTML fragment, with optional line numbers, hidden lines, and
//! highlighted lines.
//!
//! A block runs `Open -> accumulate -> Close`: on `Open` the fence settings
//! and highlighter are resolved and the opening wrapper emitted; text
//! arriving before `Close` is buffered verbatim; on `Close` the buffer is
//! split into lines that keep their endings, hidden lines are dropped, and
//! each remaining line is rendered in order.
use vstd::prelude::*;

use crate::config::Config;
use crate::errors::RenderError;
use crate::fence::{FenceSettings, LineRange};
use crate::highlight::{fix_highlighting, marked_style_of, SyntaxHighlighter};
use crate::registry::SyntaxRegistry;
use crate::text;
use crate::text::{code_escaped, dec_str, split_lines};

verus! {

/// True when the 1-indexed line number `n` falls in one of the ranges.
pub open spec fn in_ranges(rs: Seq<LineRange>, n: nat) -> bool {
    exists|i: int| 0 <= i < rs.len() && (#[trigger] rs[i]).from <= n <= rs[i].to
}

/// Decides `in_ranges`.
fn in_ranges_exec(rs: &Vec<LineRange>, n: u128) -> (r: bool)
    ensures
        r == in_ranges(rs@, n as nat),
{
    let mut i: usize = 0;
    while i < rs.len()
        invariant
            i <= rs@.len(),
            forall|j: int| 0 <= j < i ==> !((#[trigger] rs@[j]).from <= n as nat <= rs@[j].to),
        decreases rs@.len() - i,
    {
        if rs[i].from as u128 <= n && n <= rs[i].to as u128 {
            return true;
        }
        i = i + 1;
    }
    false
}

/// The lines of a block that stay visible: each line paired with its
/// original 1-indexed position, the lines inside a hide range dropped, the
/// original relative order kept.
pub open spec fn visible_from(lines: Seq<Seq<char>>, hide: Seq<LineRange>, i: nat) -> Seq<
    (nat, Seq<char>),
>
    decreases lines.len() - i,
{
    if i >= lines.len() {
        Seq::empty()
    } else if in_ranges(hide, i + 1) {
        visible_from(lines, hide, i + 1)
    } else {
        seq![((i + 1) as nat, lines[i as int])] + visible_from(lines, hide, i + 1)
    }
}

/// The visible lines of a block.
pub open spec fn visible_lines(lines: Seq<Seq<char>>, hide: Seq<LineRange>) -> Seq<
    (nat, Seq<char>),
> {
    visible_from(lines, hide, 0)
}

/// One rendered line cell, wrapped in a mark when its line is highlighted;
/// an inline-theme block writes its background declaration into the mark.
pub open spec fn mark_wrap(marked: bool, style: Option<Seq<char>>, inner: Seq<char>) -> Seq<char> {
    if marked {
        match style {
            Some(s) => "<mark style=\""@ + s + "\">"@ + inner + "</mark>"@,
            None => "<mark>"@ + inner + "</mark>"@,
        }
    } else {
        inner
    }
}

/// One rendered line, wrapped in a numbered table row when line numbers are
/// on.
pub open spec fn row_wrap(line_numbers: bool, num: nat, cell: Seq<char>) -> Seq<char> {
    if line_numbers {
        "<tr><td>"@ + dec_str(num) + "</td><td>"@ + cell + "</td></tr>"@
    } else {
        cell
    }
}

/// The rows of a block: the rendered cell of each visible line, in order,
/// marked when its original line number is highlighted, and numbered by
/// that original number shifted by the configured start. `cells` carries
/// one rendered fragment per visible line.
pub open spec fn rendered_rows(
    vis: Seq<(nat, Seq<char>)>,
    cells: Seq<Seq<char>>,
    hl: Seq<LineRange>,
    line_numbers: bool,
    start: nat,
    style: Option<Seq<char>>,
) -> Seq<char>
    decreases vis.len(),
{
    if vis.len() == 0 {
        Seq::empty()
    } else {
        row_wrap(
            line_numbers,
            (start + vis[0].0 - 1) as nat,
            mark_wrap(in_ranges(hl, vis[0].0), style, cells[0]),
        ) + rendered_rows(vis.drop_first(), cells.drop_first(), hl, line_numbers, start, style)
    }
}

/// The visible lines rendered by code escaping alone.
pub open spec fn escaped_cells(vis: Seq<(nat, Seq<char>)>) -> Seq<Seq<char>> {
    vis.map_values(|p: (nat, Seq<char>)| code_escaped(p.1))
}

/// The rendered rows under the escaping strategy: every visible line
/// HTML-escaped and unmarked by any style.
pub open spec fn plain_rows(
    vis: Seq<(nat, Seq<char>)>,
    hl: Seq<LineRange>,
    line_numbers: bool,
    start: nat,
) -> Seq<char> {
    rendered_rows(vis, escaped_cells(vis), hl, line_numbers, start, None)
}

/// The shell around a block's rows: a table when line numbers are on.
pub open spec fn block_frame(line_numbers: bool, rows: Seq<char>) -> Seq<char> {
    if line_numbers {
        "<table><tbody>"@ + rows + "</tbody></table>"@
    } else {
        rows
    }
}

/// The whole rendered body of a block under the escaping strategy.
pub open spec fn plain_block_html(
    content: Seq<char>,
    hide: Seq<LineRange>,
    hl: Seq<LineRange>,
    line_numbers: bool,
    start: nat,
) -> Seq<char> {
    block_frame(
        line_numbers,
        plain_rows(visible_lines(split_lines(content), hide), hl, line_numbers, start),
    )
}

/// The state of one fenced code block between its opening and its close.
pub struct CodeBlock<'config> {
    pub highlighter: SyntaxHighlighter<'config>,
    pub line_numbers: bool,
    pub line_number_start: usize,
    pub highlight_lines: Vec<LineRange>,
    pub hide_lines: Vec<LineRange>,
    /// The language written into the wrapper's CSS class; `text` when the
    /// requested language matched no grammar.
    pub lang_class: String,
    /// The document's relative path, carried for error reporting.
    pub path: Option<String>,
}

impl<'config> CodeBlock<'config> {
    /// Opens a block: resolves the fence settings against the registry and
    /// configuration, constructs the highlighter, and returns the opening
    /// wrapper to emit before the block's body. A registry that carries not
    /// even the plain-text grammar falls back to plain escaping.
    pub fn new(
        fence: FenceSettings,
        config: &'config Config,
        path: Option<&str>,
        reg: &'config SyntaxRegistry,
    ) -> (r: Result<(CodeBlock<'config>, String), RenderError>)
        ensures
            r is Ok,
            ({
                let (block, begin) = r->Ok_0;
                &&& begin@ == "<pre><code class=\"language-"@ + block.lang_class@ + "\">"@
                &&& block.line_numbers == fence.line_numbers
                &&& block.line_number_start == fence.line_number_start
                &&& block.highlight_lines@ == fence.highlight_lines@
                &&& block.hide_lines@ == fence.hide_lines@
                &&& (!config.markdown.highlight_code ==> block.highlighter is NoHighlight)
                &&& (fence.language is None ==> block.lang_class@ == "text"@)
                &&& (fence.language is Some ==> block.lang_class@ == fence.language->0@
                    || block.lang_class@ == "text"@)
            }),
    {
        let language = match &fence.language {
            Some(l) => Some(l.as_str()),
            None => None,
        };
        let (highlighter, matched) = match fix_highlighting(language, config, reg) {
            Some(syntax_theme) => {
                let m = matches!(syntax_theme.style, crate::highlight::HighlightStyle::Followed);
                (SyntaxHighlighter::new(config.markdown.highlight_code, syntax_theme), m)
            },
            None => (SyntaxHighlighter::NoHighlight, false),
        };
        let lang_class = match &fence.language {
            Some(l) => {
                if matched {
                    l.as_str().to_owned()
                } else {
                    "text".to_owned()
                }
            },
            None => "text".to_owned(),
        };
        let mut begin = String::new();
        begin.push_str("<pre><code class=\"language-");
        begin.push_str(lang_class.as_str());
        begin.push_str("\">");
        let block = CodeBlock {
            highlighter,
            line_numbers: fence.line_numbers,
            line_number_start: fence.line_number_start,
            highlight_lines: fence.highlight_lines,
            hide_lines: fence.hide_lines,
            lang_class,
            path: match path {
                Some(p) => Some(p.to_owned()),
                None => None,
            },
        };
        Ok((block, begin))
    }

    /// Closes a block: splits the accumulated text into lines that keep
    /// their endings, drops every line inside a hide range, and renders the
    /// rest in their original order — numbered and marked as configured.
    /// Whatever the per-line strategy produced, the answer is the block
    /// frame around one row per visible line, in order, carrying the row,
    /// number and mark structure; under the escaping strategy the whole
    /// output is exactly `plain_block_html`. An engine failure is fatal for
    /// the block.
    #[verifier::rlimit(100)]
    pub fn highlight(&mut self, content: &str) -> (r: Result<String, RenderError>)
        ensures
            final(self).line_numbers == old(self).line_numbers,
            final(self).line_number_start == old(self).line_number_start,
            final(self).hide_lines@ == old(self).hide_lines@,
            final(self).highlight_lines@ == old(self).highlight_lines@,
            final(self).lang_class == old(self).lang_class,
            final(self).path == old(self).path,
            old(self).highlighter is NoHighlight ==> final(self).highlighter is NoHighlight,
            old(self).highlighter is Inlined ==> final(self).highlighter is Inlined,
            old(self).highlighter is Classed ==> final(self).highlighter is Classed,
            r is Ok ==> (exists|cells: Seq<Seq<char>>|
                cells.len() == visible_lines(
                    split_lines(content@),
                    old(self).hide_lines@,
                ).len() && r->Ok_0@ == block_frame(
                    old(self).line_numbers,
                    rendered_rows(
                        visible_lines(split_lines(content@), old(self).hide_lines@),
                        cells,
                        old(self).highlight_lines@,
                        old(self).line_numbers,
                        old(self).line_number_start as nat,
                        marked_style_of(old(self).highlighter),
                    ),
                )),
            old(self).highlighter is NoHighlight ==> r is Ok && r->Ok_0@ == plain_block_html(
                content@,
                old(self).hide_lines@,
                old(self).highlight_lines@,
                old(self).line_numbers,
                old(self).line_number_start as nat,
            ),
            r is Err ==> !(old(self).highlighter is NoHighlight) && r->Err_0 is HighlightEngine,
    {
        let cv = text::chars_of(content);
        let lines = text::split_lines_exec(&cv);
        let ghost lseq = lines.deep_view();
        let mark_style = self.highlighter.marked_style();
        let ghost ms = marked_style_of(self.highlighter);
        proof {
            assert(self.highlighter is NoHighlight ==> ms is None);
        }
        let mut buffer = String::new();
        if self.line_numbers {
            buffer.push_str("<table><tbody>");
        }
        let ghost vis = visible_lines(lseq, self.hide_lines@);
        let ghost mut done: Seq<(nat, Seq<char>)> = Seq::empty();
        let ghost mut cells: Seq<Seq<char>> = Seq::empty();
        let mut i: usize = 0;
        proof {
            assert(visible_from(lseq, self.hide_lines@, 0) =~= vis);
            assert(rendered_rows(done, cells, self.highlight_lines@, self.line_numbers,
                self.line_number_start as nat, ms) == Seq::<char>::empty());
        }
        while i < lines.len()
            invariant
                i <= lines@.len(),
                lseq == lines.deep_view(),
                lseq.len() == lines@.len(),
                self.line_numbers == old(self).line_numbers,
                self.line_number_start == old(self).line_number_start,
                self.hide_lines@ == old(self).hide_lines@,
                self.highlight_lines@ == old(self).highlight_lines@,
                self.lang_class == old(self).lang_class,
                self.path == old(self).path,
                old(self).highlighter is NoHighlight ==> self.highlighter is NoHighlight,
                old(self).highlighter is Inlined ==> self.highlighter is Inlined,
                old(self).highlighter is Classed ==> self.highlighter is Classed,
                ms == marked_style_of(old(self).highlighter),
                match mark_style {
                    Some(s) => ms is Some && s@ == ms->0,
                    None => ms is None,
                },
                old(self).highlighter is NoHighlight ==> ms is None,
                vis == visible_lines(lseq, self.hide_lines@),
                vis =~= done + visible_from(lseq, self.hide_lines@, i as nat),
                cells.len() == done.len(),
                buffer@ == (if self.line_numbers {
                    "<table><tbody>"@
                } else {
                    Seq::<char>::empty()
                }) + rendered_rows(
                    done,
                    cells,
                    self.highlight_lines@,
                    self.line_numbers,
                    self.line_number_start as nat,
                    ms,
                ),
                self.highlighter is NoHighlight ==> cells =~= escaped_cells(done),
            decreases lines@.len() - i,
        {
            let one_indexed: u128 = i as u128 + 1;
            proof {
                assert(lseq[i as int] =~= lines@[i as int]@);
            }
            if in_ranges_exec(&self.hide_lines, one_indexed) {
                i = i + 1;
                proof {
                    assert(visible_from(lseq, self.hide_lines@, (i - 1) as nat) == visible_from(
                        lseq,
                        self.hide_lines@,
                        i as nat,
                    ));
                }
                continue ;
            }
            let marked = in_ranges_exec(&self.highlight_lines, one_indexed);
            let line_s = text::string_of(&lines[i]);
            let rendered = match self.highlighter.highlight_line(line_s.as_str()) {
                Ok(s) => s,
                Err(_) => {
                    let path = match &self.path {
                        Some(p) => Some(p.clone()),
                        None => None,
                    };
                    return Err(RenderError::HighlightEngine(path));
                },
            };
            let ghost b0 = buffer@;
            let ghost numn = (self.line_number_start + one_indexed - 1) as nat;
            if self.line_numbers {
                buffer.push_str("<tr><td>");
                let num: u128 = self.line_number_start as u128 + one_indexed - 1;
                let num_chars = text::dec_chars(num);
                let num_s = text::string_of(&num_chars);
                buffer.push_str(num_s.as_str());
                buffer.push_str("</td><td>");
            }
            let ghost b1 = buffer@;
            proof {
                if self.line_numbers {
                    assert(b1 =~= b0 + "<tr><td>"@ + dec_str(numn) + "</td><td>"@);
                }
            }
            if marked {
                match &mark_style {
                    Some(style) => {
                        buffer.push_str("<mark style=\"");
                        buffer.push_str(style.as_str());
                        buffer.push_str("\">");
                    },
                    None => {
                        buffer.push_str("<mark>");
                    },
                }
            }
            buffer.push_str(rendered.as_str());
            if marked {
                buffer.push_str("</mark>");
            }
            let ghost b2 = buffer@;
            proof {
                assert(b2 =~= b1 + mark_wrap(marked, ms, rendered@));
            }
            if self.line_numbers {
                buffer.push_str("</td></tr>");
            }
            proof {
                assert(buffer@ =~= b0 + row_wrap(
                    self.line_numbers,
                    numn,
                    mark_wrap(marked, ms, rendered@),
                ));
            }
            i = i + 1;
            proof {
                let entry = ((i as nat), lseq[i as int - 1]);
                let rest = visible_from(lseq, self.hide_lines@, i as nat);
                assert(visible_from(lseq, self.hide_lines@, (i - 1) as nat) == seq![entry] + rest);
                let done0 = done;
                let cells0 = cells;
                assert(done0 + (seq![entry] + rest) =~= (done0.push(entry)) + rest);
                done = done0.push(entry);
                cells = cells0.push(rendered@);
                let hl = self.highlight_lines@;
                let ln = self.line_numbers;
                let start = self.line_number_start as nat;
                let single = rendered_rows(seq![entry], seq![rendered@], hl, ln, start, ms);
                assert(seq![entry].drop_first() =~= Seq::<(nat, Seq<char>)>::empty());
                assert(rendered_rows(
                    seq![entry].drop_first(),
                    seq![rendered@].drop_first(),
                    hl,
                    ln,
                    start,
                    ms,
                ) == Seq::<char>::empty());
                let cell = mark_wrap(in_ranges(hl, entry.0), ms, rendered@);
                assert(numn == (start + entry.0 - 1) as nat);
                assert(single =~= row_wrap(ln, (start + entry.0 - 1) as nat, cell));
                lemma_rendered_rows_push(done0, cells0, entry, rendered@, hl, ln, start, ms);
                assert(rendered_rows(done, cells, hl, ln, start, ms) == rendered_rows(
                    done0,
                    cells0,
                    hl,
                    ln,
                    start,
                    ms,
                ) + single);
                assert(buffer@ =~= (if ln {
                    "<table><tbody>"@
                } else {
                    Seq::<char>::empty()
                }) + rendered_rows(done, cells, hl, ln, start, ms));
                if self.highlighter is NoHighlight {
                    assert(rendered@ == code_escaped(entry.1));
                    assert(escaped_cells(done) =~= escaped_cells(done0).push(
                        code_escaped(entry.1),
                    ));
                    assert(cells =~= escaped_cells(done));
                }
            }
        }
        if self.line_numbers {
            buffer.push_str("</tbody></table>");
        }
        proof {
            assert(visible_from(lseq, self.hide_lines@, i as nat) =~= Seq::<(nat, Seq<char>)>::empty());
            assert(done =~= vis);
            assert(cells.len() == vis.len());
            assert(buffer@ =~= block_frame(
                self.line_numbers,
                rendered_rows(
                    vis,
                    cells,
                    self.highlight_lines@,
                    self.line_numbers,
                    self.line_number_start as nat,
                    ms,
                ),
            ));
            if self.highlighter is NoHighlight {
                assert(rendered_rows(
                    vis,
                    cells,
                    self.highlight_lines@,
                    self.line_numbers,
                    self.line_number_start as nat,
                    ms,
                ) == plain_rows(
                    vis,
                    self.highlight_lines@,
                    self.line_numbers,
                    self.line_number_start as nat,
                ));
                assert(buffer@ =~= plain_block_html(
                    content@,
                    self.hide_lines@,
                    self.highlight_lines@,
                    self.line_numbers,
                    self.line_number_start as nat,
                ));
            }
        }
        Ok(buffer)
    }
}

/// Rendering one more visible line appends one more row.
proof fn lemma_rendered_rows_push(
    vis: Seq<(nat, Seq<char>)>,
    cells: Seq<Seq<char>>,
    entry: (nat, Seq<char>),
    cell: Seq<char>,
    hl: Seq<LineRange>,
    line_numbers: bool,
    start: nat,
    style: Option<Seq<char>>,
)
    requires
        cells.len() == vis.len(),
    ensures
        rendered_rows(vis.push(entry), cells.push(cell), hl, line_numbers, start, style)
            == rendered_rows(vis, cells, hl, line_numbers, start, style) + rendered_rows(
            seq![entry],
            seq![cell],
            hl,
            line_numbers,
            start,
            style,
        ),
    decreases vis.len(),
{
    if vis.len() == 0 {
        assert(vis.push(entry) =~= seq![entry]);
        assert(cells.push(cell) =~= seq![cell]);
        assert(rendered_rows(vis, cells, hl, line_numbers, start, style) + rendered_rows(
            seq![entry],
            seq![cell],
            hl,
            line_numbers,
            start,
            style,
        ) =~= rendered_rows(seq![entry], seq![cell], hl, line_numbers, start, style));
    } else {
        lemma_rendered_rows_push(
            vis.drop_first(),
            cells.drop_first(),
            entry,
            cell,
            hl,
            line_numbers,
            start,
            style,
        );
        assert(vis.push(entry).drop_first() =~= vis.drop_first().push(entry));
        assert(cells.push(cell).drop_first() =~= cells.drop_first().push(cell));
        assert(vis.push(entry)[0] == vis[0]);
        assert(cells.push(cell)[0] == cells[0]);
        assert(rendered_rows(vis.push(entry), cells.push(cell), hl, line_numbers, start, style)
            =~= rendered_rows(vis, cells, hl, line_numbers, start, style) + rendered_rows(
            seq![entry],
            seq![cell],
            hl,
            line_numbers,
            start,
            style,
        ));
    }
}

} // verus!
