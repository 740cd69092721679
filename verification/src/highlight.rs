//! The syntax highlighter: one source line rendered to an HTML fragment
//! under one of three strategies, decided once per code block.
//!
//! With highlighting disabled every line is HTML-escaped verbatim
//! (`NoHighlight`). With a concrete color theme, a running
//! tokenizer-highlighter emits inline-styled spans (`Inlined`). With the
//! theme deferred to an external stylesheet, a running parser plus scope
//! stack emits class-named spans whose nesting threads across lines
//! (`Classed`).
use vstd::prelude::*;

use syntect::easy::HighlightLines;
use syntect::highlighting::Theme;
use syntect::parsing::{ParseState, ScopeStack, SyntaxReference, SyntaxSet};

use crate::config::Config;
use crate::errors::RenderError;
use crate::registry;
use crate::registry::SyntaxRegistry;
use crate::text;
use crate::text::{code_escaped, dec_str};

verus! {

/// Whether a requested language matched a grammar in the registry.
#[derive(Debug, Clone, Copy, PartialEq, Eq, Structural)]
pub enum HighlightStyle {
    /// The requested language matched a grammar.
    Followed,
    /// No language requested, or none matched: plain text.
    Plain,
}

/// The resolved pairing of a grammar with an optional color theme, computed
/// once per code block from configuration and requested language.
pub struct SyntaxTheme<'config> {
    pub syntax: &'config SyntaxReference,
    pub theme: Option<&'config Theme>,
    pub style: HighlightStyle,
    pub syntax_set: &'config SyntaxSet,
}

/// The registry token a requested language is looked up under: `js` and
/// `javascript` are served by the TypeScript grammar, everything else by
/// its own name.
pub open spec fn lookup_token_of(lang: Seq<char>) -> Seq<char> {
    if lang == "js"@ || lang == "javascript"@ {
        "ts"@
    } else {
        lang
    }
}

/// Chooses the registry token for a requested language.
fn lookup_token<'a>(lang: &'a str) -> (r: &'a str)
    ensures
        r@ == lookup_token_of(lang@),
{
    let lv = text::chars_of(lang);
    let js = text::chars_of("js");
    let javascript = text::chars_of("javascript");
    if text::chars_eq(&lv, &js) || text::chars_eq(&lv, &javascript) {
        "ts"
    } else {
        lang
    }
}

/// Resolves a requested language against the registry: the language's
/// lookup token (`lookup_token_of`) is tried first; an unmatched or absent
/// language falls back to the plain-text grammar. The theme comes from the
/// configuration, `None` when it reads `css`. `None` comes back only when
/// the fallback itself is needed and the registry carries no plain-text
/// grammar.
pub fn fix_highlighting<'config>(
    language: Option<&str>,
    config: &'config Config,
    reg: &'config SyntaxRegistry,
) -> (st: Option<SyntaxTheme<'config>>)
    ensures
        st is Some ==> (st->0.style == HighlightStyle::Followed ==> language is Some),
        st is Some ==> (config.markdown.highlight_theme@ == "css"@ ==> st->0.theme is None),
        st is Some && language is None ==> st->0.style == HighlightStyle::Plain,
{
    let theme = config.markdown.get_highlight_theme(&reg.theme_set);
    match language {
        Some(lang) => {
            let capture = lookup_token(lang);
            match registry::find_syntax_by_token(&reg.syntax_set, capture) {
                Some(syntax) => Some(
                    SyntaxTheme {
                        syntax,
                        syntax_set: &reg.syntax_set,
                        theme,
                        style: HighlightStyle::Followed,
                    },
                ),
                None => {
                    match registry::find_syntax_plain_text(&reg.syntax_set) {
                        Some(syntax) => Some(
                            SyntaxTheme {
                                syntax,
                                syntax_set: &reg.syntax_set,
                                theme,
                                style: HighlightStyle::Plain,
                            },
                        ),
                        None => None,
                    }
                },
            }
        },
        None => {
            match registry::find_syntax_plain_text(&reg.syntax_set) {
                Some(syntax) => Some(
                    SyntaxTheme {
                        syntax,
                        theme,
                        style: HighlightStyle::Plain,
                        syntax_set: &reg.syntax_set,
                    },
                ),
                None => None,
            }
        },
    }
}

/// The decimal digits of `m`, left-padded with zeros to three places;
/// `m` is below 1000.
pub open spec fn padded3(m: nat) -> Seq<char>
    recommends
        m < 1000,
{
    if m < 10 {
        seq!['0', '0'] + dec_str(m)
    } else if m < 100 {
        seq!['0'] + dec_str(m)
    } else {
        dec_str(m)
    }
}

/// The CSS text of a color: `rgb(r,g,b)` for an opaque color, else
/// `rgba(r,g,b,0.xxx)` with the alpha written to three decimal places,
/// rounded to nearest.
pub open spec fn color_css_spec(c: (u8, u8, u8, u8)) -> Seq<char> {
    if c.3 == 255 {
        "rgb("@ + dec_str(c.0 as nat) + seq![','] + dec_str(c.1 as nat) + seq![','] + dec_str(
            c.2 as nat,
        ) + seq![')']
    } else {
        "rgba("@ + dec_str(c.0 as nat) + seq![','] + dec_str(c.1 as nat) + seq![','] + dec_str(
            c.2 as nat,
        ) + seq![','] + seq!['0', '.'] + padded3(((c.3 as nat) * 1000 + 127) / 255) + seq![')']
    }
}

/// Writes a color as CSS text.
fn color_css(c: (u8, u8, u8, u8)) -> (r: Vec<char>)
    ensures
        r@ == color_css_spec(c),
{
    let mut r: Vec<char>;
    if c.3 == 255 {
        r = text::chars_of("rgb(");
    } else {
        r = text::chars_of("rgba(");
    }
    let d0 = text::dec_chars(c.0 as u128);
    text::append_chars(&mut r, &d0);
    r.push(',');
    let d1 = text::dec_chars(c.1 as u128);
    text::append_chars(&mut r, &d1);
    r.push(',');
    let d2 = text::dec_chars(c.2 as u128);
    text::append_chars(&mut r, &d2);
    if c.3 != 255 {
        r.push(',');
        r.push('0');
        r.push('.');
        let milli = ((c.3 as u32) * 1000 + 127) / 255;
        if milli < 10 {
            r.push('0');
            r.push('0');
        } else if milli < 100 {
            r.push('0');
        }
        let dm = text::dec_chars(milli as u128);
        text::append_chars(&mut r, &dm);
    }
    r.push(')');
    proof {
        assert(r@ =~= color_css_spec(c));
    }
    r
}

/// One opening span carrying a class list.
pub open spec fn span_open(classes: Seq<char>) -> Seq<char> {
    "<span class=\""@ + classes + "\">"@
}

/// A run of opening spans, outermost first.
pub open spec fn span_opens(classes: Seq<Seq<char>>) -> Seq<char>
    decreases classes.len(),
{
    if classes.len() == 0 {
        Seq::empty()
    } else {
        span_opens(classes.drop_last()) + span_open(classes.last())
    }
}

/// `n` closing spans.
pub open spec fn span_closes(n: nat) -> Seq<char>
    decreases n,
{
    if n == 0 {
        Seq::empty()
    } else {
        span_closes((n - 1) as nat) + "</span>"@
    }
}

/// A scope's atoms written as CSS classes: each atom `z-`-prefixed, the
/// results space-joined.
pub open spec fn z_classes(atoms: Seq<Seq<char>>) -> Seq<char> {
    text::join_char(atoms.map_values(|a: Seq<char>| "z-"@ + a), ' ')
}

/// Writes a scope's atom names as `z-`-prefixed, space-joined CSS classes.
fn scope_classes_text(atoms: &Vec<String>) -> (r: String)
    ensures
        r@ == z_classes(atoms.deep_view()),
{
    let mut toks: Vec<Vec<char>> = Vec::new();
    let mut i: usize = 0;
    while i < atoms.len()
        invariant
            i <= atoms@.len(),
            toks.deep_view() == atoms.deep_view().take(i as int).map_values(
                |a: Seq<char>| "z-"@ + a,
            ),
        decreases atoms@.len() - i,
    {
        let ghost old_dv = toks.deep_view();
        let mut t = text::chars_of("z-");
        let av = text::chars_of(atoms[i].as_str());
        text::append_chars(&mut t, &av);
        proof {
            assert(atoms.deep_view()[i as int] == atoms@[i as int]@);
            assert(t@ =~= "z-"@ + atoms.deep_view()[i as int]);
        }
        let ghost tv = t@;
        toks.push(t);
        i = i + 1;
        proof {
            assert(toks.deep_view() =~~= old_dv.push(tv));
            assert(toks.deep_view() =~= atoms.deep_view().take(i as int).map_values(
                |a: Seq<char>| "z-"@ + a,
            ));
        }
    }
    proof {
        assert(atoms.deep_view().take(i as int) =~= atoms.deep_view());
    }
    let joined = text::join_chars(&toks, ' ');
    text::string_of(&joined)
}

/// The inline-styled strategy: a running tokenizer and highlighter bound to
/// one grammar and one concrete theme.
pub struct InlineHighlighter<'config> {
    pub syntax_set: &'config SyntaxSet,
    pub h: HighlightLines<'config>,
    /// The redundant foreground declaration stripped from each line.
    pub fg_color: String,
    /// The theme background, left off spans that share it.
    pub bg_color: (u8, u8, u8, u8),
}

impl<'config> InlineHighlighter<'config> {
    /// Builds the per-block inline highlighting state: the redundant
    /// foreground marker is the theme's default foreground written as an
    /// inline style.
    pub fn new(
        syntax: &'config SyntaxReference,
        syntax_set: &'config SyntaxSet,
        theme: &'config Theme,
    ) -> (r: InlineHighlighter<'config>) {
        let h = registry::new_highlight_lines(syntax, theme);
        let fg = match registry::theme_foreground(theme) {
            Some(c) => c,
            None => (0, 0, 0, 255),
        };
        let bg = match registry::theme_background(theme) {
            Some(c) => c,
            None => (255, 255, 255, 255),
        };
        let mut fg_color = String::new();
        fg_color.push_str(" style=\"color:");
        let css = color_css(fg);
        let css_s = text::string_of(&css);
        fg_color.push_str(css_s.as_str());
        fg_color.push_str(";\"");
        InlineHighlighter { syntax_set, h, fg_color, bg_color: bg }
    }

    /// Highlights one line: tokenizes it against the running state, styles
    /// the tokens inline, and strips the redundant foreground declaration.
    /// Whatever the engine styled, the answer is that text with every
    /// occurrence of the block's foreground declaration removed. An engine
    /// failure is fatal for the block.
    pub fn highlight_line(&mut self, line: &str) -> (r: Result<String, RenderError>)
        ensures
            final(self).fg_color == old(self).fg_color,
            final(self).bg_color == old(self).bg_color,
            r is Ok ==> (exists|h: Seq<char>|
                r->Ok_0@ == text::remove_all(h, old(self).fg_color@)),
            r is Err ==> r->Err_0 is HighlightEngine,
    {
        let regions = match registry::highlight_regions(&mut self.h, line, self.syntax_set) {
            Some(v) => v,
            None => {
                return Err(RenderError::HighlightEngine(None));
            },
        };
        let highlighted = match registry::styled_html(&regions, self.bg_color) {
            Some(s) => s,
            None => {
                return Err(RenderError::HighlightEngine(None));
            },
        };
        let hv = text::chars_of(highlighted.as_str());
        let fv = text::chars_of(self.fg_color.as_str());
        if fv.len() == 0 {
            proof {
                assert(highlighted@ == text::remove_all(hv@, fv@));
            }
            return Ok(highlighted);
        }
        let stripped = text::remove_all_chars(&hv, &fv);
        Ok(text::string_of(&stripped))
    }
}

/// The class-named strategy: a running parser state plus the stack of
/// scopes still open from earlier lines.
pub struct ClassHighlighter<'config> {
    pub syntax_set: &'config SyntaxSet,
    pub parse_state: ParseState,
    pub scope_stack: ScopeStack,
}

impl<'config> ClassHighlighter<'config> {
    /// Builds the per-block classed highlighting state.
    pub fn new(syntax: &'config SyntaxReference, syntax_set: &'config SyntaxSet) -> (r:
        ClassHighlighter<'config>) {
        ClassHighlighter {
            parse_state: registry::parse_state_new(syntax),
            syntax_set,
            scope_stack: registry::scope_stack_new(),
        }
    }

    /// Highlights one line: scopes still open from earlier lines are
    /// reopened in front, the line's own tokens become class-named spans,
    /// and every scope still open afterwards is closed so the context
    /// threads across lines. The answer always reads as a run of opening
    /// spans, the engine's span contents, and a run of closing spans; the
    /// class texts come from the process-local scope interning table. An
    /// engine failure is fatal for the block.
    pub fn highlight_line(&mut self, line: &str) -> (r: Result<String, RenderError>)
        ensures
            r is Ok ==> (exists|classes: Seq<Seq<char>>, contents: Seq<char>, n: nat|
                r->Ok_0@ == span_opens(classes) + contents + span_closes(n)),
            r is Err ==> r->Err_0 is HighlightEngine,
    {
        let mut formatted = String::new();
        let open_scopes = registry::stack_scopes(&self.scope_stack);
        let ghost mut classes: Seq<Seq<char>> = Seq::empty();
        let mut i: usize = 0;
        proof {
            assert(formatted@ =~= span_opens(classes));
        }
        while i < open_scopes.len()
            invariant
                i <= open_scopes@.len(),
                classes.len() == i,
                formatted@ == span_opens(classes),
            decreases open_scopes@.len() - i,
        {
            formatted.push_str("<span class=\"");
            let atoms = registry::scope_atoms(&open_scopes[i]);
            let class_text = scope_classes_text(&atoms);
            formatted.push_str(class_text.as_str());
            formatted.push_str("\">");
            proof {
                let c0 = classes;
                classes = classes.push(class_text@);
                assert(classes.drop_last() =~= c0);
                assert(classes.last() == class_text@);
                assert(formatted@ =~= span_opens(c0) + span_open(class_text@));
                assert(formatted@ =~= span_opens(classes));
            }
            i = i + 1;
        }
        let contents = match registry::classed_line_spans(
            &mut self.parse_state,
            line,
            self.syntax_set,
            &mut self.scope_stack,
        ) {
            Some(s) => s,
            None => {
                return Err(RenderError::HighlightEngine(None));
            },
        };
        formatted.push_str(contents.as_str());
        let ghost mid = contents@;
        let still_open = registry::stack_scopes(&self.scope_stack);
        let mut j: usize = 0;
        proof {
            assert(formatted@ =~= span_opens(classes) + mid + span_closes(0));
        }
        while j < still_open.len()
            invariant
                j <= still_open@.len(),
                formatted@ == span_opens(classes) + mid + span_closes(j as nat),
            decreases still_open@.len() - j,
        {
            formatted.push_str("</span>");
            j = j + 1;
            proof {
                assert(formatted@ =~= span_opens(classes) + mid + span_closes(j as nat));
            }
        }
        Ok(formatted)
    }
}

/// The mark styling a strategy writes onto highlighted lines: the inline
/// strategy's block background declaration; nothing for the others.
pub open spec fn marked_style_of(h: SyntaxHighlighter) -> Option<Seq<char>> {
    if h is Inlined {
        Some("background-color: "@ + color_css_spec(h->Inlined_0.bg_color) + ";"@)
    } else {
        None
    }
}

/// The strategy chosen for one code block, decided once at block start and
/// never changed mid-block.
pub enum SyntaxHighlighter<'config> {
    /// Inline-styled spans under a concrete theme.
    Inlined(InlineHighlighter<'config>),
    /// Class-named spans, colors deferred to a stylesheet.
    Classed(ClassHighlighter<'config>),
    /// HTML-escaping only.
    NoHighlight,
}

impl<'config> SyntaxHighlighter<'config> {
    /// Picks the strategy: escaping when highlighting is off, inline styles
    /// under a concrete theme, class names otherwise.
    pub fn new(highlight_code: bool, st: SyntaxTheme<'config>) -> (r: SyntaxHighlighter<'config>)
        ensures
            !highlight_code ==> r is NoHighlight,
            highlight_code && st.theme is Some ==> r is Inlined,
            highlight_code && st.theme is None ==> r is Classed,
    {
        if highlight_code {
            match st.theme {
                Some(theme) => SyntaxHighlighter::Inlined(
                    InlineHighlighter::new(st.syntax, st.syntax_set, theme),
                ),
                None => SyntaxHighlighter::Classed(ClassHighlighter::new(st.syntax, st.syntax_set)),
            }
        } else {
            SyntaxHighlighter::NoHighlight
        }
    }

    /// Highlights one line under the block's strategy. Without highlighting
    /// the answer is exactly the code-escaped line; under the inline
    /// strategy it is the engine's text with the block's foreground
    /// declaration stripped; under the classed strategy it reads as opening
    /// spans, contents, closing spans.
    pub fn highlight_line(&mut self, line: &str) -> (r: Result<String, RenderError>)
        ensures
            *old(self) is NoHighlight ==> *final(self) is NoHighlight && r is Ok && r->Ok_0@
                == code_escaped(line@),
            *old(self) is Inlined ==> *final(self) is Inlined && final(self)->Inlined_0.fg_color
                == old(self)->Inlined_0.fg_color && final(self)->Inlined_0.bg_color == old(
                self,
            )->Inlined_0.bg_color,
            *old(self) is Inlined && r is Ok ==> (exists|h: Seq<char>|
                r->Ok_0@ == text::remove_all(h, old(self)->Inlined_0.fg_color@)),
            *old(self) is Classed ==> *final(self) is Classed,
            *old(self) is Classed && r is Ok ==> (exists|
                classes: Seq<Seq<char>>,
                contents: Seq<char>,
                n: nat,
            |
                r->Ok_0@ == span_opens(classes) + contents + span_closes(n)),
            r is Err ==> r->Err_0 is HighlightEngine,
    {
        match self {
            SyntaxHighlighter::Inlined(highlighter) => highlighter.highlight_line(line),
            SyntaxHighlighter::Classed(highlighter) => highlighter.highlight_line(line),
            SyntaxHighlighter::NoHighlight => {
                let lv = text::chars_of(line);
                let mut out: Vec<char> = Vec::new();
                text::push_code_escaped(&mut out, &lv);
                proof {
                    assert(out@ =~= code_escaped(line@));
                }
                Ok(text::string_of(&out))
            },
        }
    }

    /// The block-level background declaration of the inline strategy; the
    /// other strategies carry none.
    pub fn marked_style(&self) -> (r: Option<String>)
        ensures
            (r is Some) == (marked_style_of(*self) is Some),
            r is Some ==> r->0@ == marked_style_of(*self)->0,
    {
        match self {
            SyntaxHighlighter::Inlined(highlighter) => {
                let mut major_style = String::new();
                major_style.push_str("background-color: ");
                let css = color_css(highlighter.bg_color);
                let css_s = text::string_of(&css);
                major_style.push_str(css_s.as_str());
                major_style.push_str(";");
                Some(major_style)
            },
            SyntaxHighlighter::Classed(_) => None,
            SyntaxHighlighter::NoHighlight => None,
        }
    }
}


/// Highlights a standalone snippet under the default configuration, where
/// code highlighting is off: the content code-escaped inside a
/// `<pre><code>` wrapper whose class carries the requested language when
/// the registry knows it, and `text` otherwise.
pub fn highlight_code(content: &str, language: Option<&str>, reg: &SyntaxRegistry) -> (r: Result<
    String,
    RenderError,
>)
    ensures
        r is Ok,
        ({
            exists|cls: Seq<char>|
                r->Ok_0@ == "<pre><code class=\"language-"@ + cls + "\">"@ + code_escaped(content@)
                    + "</code></pre>"@ && (language is None ==> cls == "text"@) && (language is Some
                    ==> cls == language->0@ || cls == "text"@)
        }),
{
    let matched = match language {
        Some(l) => registry::find_syntax_by_token(&reg.syntax_set, l).is_some(),
        None => false,
    };
    let mut out = text::chars_of("<pre><code class=\"language-");
    let ghost mut cls: Seq<char> = "text"@;
    match language {
        Some(l) => {
            if matched {
                let lv = text::chars_of(l);
                text::append_chars(&mut out, &lv);
                proof {
                    cls = l@;
                }
            } else {
                let tv = text::chars_of("text");
                text::append_chars(&mut out, &tv);
            }
        },
        None => {
            let tv = text::chars_of("text");
            text::append_chars(&mut out, &tv);
        },
    }
    let close_attr = text::chars_of("\">");
    text::append_chars(&mut out, &close_attr);
    let cv = text::chars_of(content);
    text::push_code_escaped(&mut out, &cv);
    let tail = text::chars_of("</code></pre>");
    text::append_chars(&mut out, &tail);
    proof {
        assert(out@ =~= "<pre><code class=\"language-"@ + cls + "\">"@ + code_escaped(content@)
            + "</code></pre>"@);
    }
    Ok(text::string_of(&out))
}

} // verus!
