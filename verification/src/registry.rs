//! The syntax registry: the process-wide, read-only collections of known
//! grammars and color themes, held as explicit values and passed by handle
//! into the highlighting components, together with the trusted declarations
//! of the highlighting engine's types and calls.
use vstd::prelude::*;

use syntect::easy::HighlightLines;
use syntect::highlighting::{Style, Theme, ThemeSet};
use syntect::parsing::{ParseState, Scope, ScopeStack, ScopeStackOp, SyntaxReference, SyntaxSet};

verus! {

#[verifier::external_type_specification]
#[verifier::external_body]
pub struct ExSyntaxSet(SyntaxSet);

#[verifier::external_type_specification]
#[verifier::external_body]
pub struct ExSyntaxReference(SyntaxReference);

#[verifier::external_type_specification]
#[verifier::external_body]
pub struct ExTheme(Theme);

#[verifier::external_type_specification]
#[verifier::external_body]
pub struct ExThemeSet(ThemeSet);

#[verifier::external_type_specification]
#[verifier::external_body]
pub struct ExParseState(ParseState);

#[verifier::external_type_specification]
#[verifier::external_body]
pub struct ExScopeStack(ScopeStack);

#[verifier::external_type_specification]
#[verifier::external_body]
pub struct ExScope(Scope);

#[verifier::external_type_specification]
#[verifier::external_body]
pub struct ExScopeStackOp(ScopeStackOp);

#[verifier::external_type_specification]
#[verifier::external_body]
pub struct ExStyle(Style);

#[verifier::external_type_specification]
#[verifier::external_body]
pub struct ExHighlightLines<'a>(HighlightLines<'a>);

/// Relies on syntect's `SyntaxSet::load_defaults_newlines`: the built-in
/// grammar collection.
#[verifier::external_body]
fn load_default_syntax_set() -> SyntaxSet {
    SyntaxSet::load_defaults_newlines()
}

/// Relies on syntect's `ThemeSet::load_defaults`: the built-in color
/// themes.
#[verifier::external_body]
fn load_default_theme_set() -> ThemeSet {
    ThemeSet::load_defaults()
}

/// Relies on syntect's `SyntaxSet::find_syntax_by_token`: a grammar lookup
/// by name or file extension; nothing is assumed of the answer.
#[verifier::external_body]
pub(crate) fn find_syntax_by_token<'a>(ss: &'a SyntaxSet, token: &str) -> Option<&'a SyntaxReference> {
    ss.find_syntax_by_token(token)
}

/// Relies on syntect's `SyntaxSet::find_syntax_by_name`: the fallback
/// plain-text grammar, present in the loaded default set but not in an
/// empty one, so its absence comes back as `None` rather than a panic.
#[verifier::external_body]
pub(crate) fn find_syntax_plain_text<'a>(ss: &'a SyntaxSet) -> Option<&'a SyntaxReference> {
    ss.find_syntax_by_name("Plain Text")
}

/// Relies on syntect's `ThemeSet`: `themes` is a map from theme name to
/// theme; this looks one name up.
#[verifier::external_body]
pub(crate) fn theme_set_get<'a>(ts: &'a ThemeSet, name: &str) -> Option<&'a Theme> {
    ts.themes.get(name)
}

/// Relies on syntect's `Theme`: picks the theme's foreground color apart
/// into its red, green, blue and alpha channels.
#[verifier::external_body]
pub(crate) fn theme_foreground(t: &Theme) -> Option<(u8, u8, u8, u8)> {
    t.settings.foreground.map(|c| (c.r, c.g, c.b, c.a))
}

/// Relies on syntect's `Theme`: picks the theme's background color apart
/// into its red, green, blue and alpha channels.
#[verifier::external_body]
pub(crate) fn theme_background(t: &Theme) -> Option<(u8, u8, u8, u8)> {
    t.settings.background.map(|c| (c.r, c.g, c.b, c.a))
}

/// Relies on syntect's `HighlightLines::new`: fresh per-block highlighting
/// state bound to one grammar and one theme.
#[verifier::external_body]
pub(crate) fn new_highlight_lines<'a>(syntax: &SyntaxReference, theme: &'a Theme) -> HighlightLines<
    'a,
> {
    HighlightLines::new(syntax, theme)
}

/// Relies on syntect's `HighlightLines::highlight_line`: advances the
/// block's highlight state by one line and styles that line's tokens; an
/// engine failure comes back as `None`.
#[verifier::external_body]
pub(crate) fn highlight_regions<'a, 'b>(
    h: &mut HighlightLines<'a>,
    line: &'b str,
    ss: &SyntaxSet,
) -> Option<Vec<(Style, &'b str)>> {
    h.highlight_line(line, ss).ok()
}

/// Relies on syntect's `styled_line_to_highlighted_html` with
/// `IncludeBackground::IfDifferent`: inline-styled spans for one line,
/// leaving out backgrounds equal to the block's own; an engine failure
/// comes back as `None`.
#[verifier::external_body]
pub(crate) fn styled_html(v: &Vec<(Style, &str)>, bg: (u8, u8, u8, u8)) -> Option<String> {
    let color = syntect::highlighting::Color { r: bg.0, g: bg.1, b: bg.2, a: bg.3 };
    syntect::html::styled_line_to_highlighted_html(
        v.as_slice(),
        syntect::html::IncludeBackground::IfDifferent(color),
    ).ok()
}

/// Relies on syntect's `ParseState::new`: fresh per-block parse state
/// bound to one grammar.
#[verifier::external_body]
pub(crate) fn parse_state_new(syntax: &SyntaxReference) -> ParseState {
    ParseState::new(syntax)
}

/// Relies on syntect's `ScopeStack::new`: the empty scope stack.
#[verifier::external_body]
pub(crate) fn scope_stack_new() -> ScopeStack {
    ScopeStack::new()
}

/// Relies on syntect's `ScopeStack::as_slice`: the scopes currently open,
/// bottom first.
#[verifier::external_body]
pub(crate) fn stack_scopes(st: &ScopeStack) -> Vec<Scope> {
    st.as_slice().to_vec()
}

/// Relies on syntect's `ParseState::parse_line` and
/// `line_tokens_to_classed_spans` with the space-joined `z-` class style:
/// one line tokenized against the running parse state and rendered as
/// class-named spans, advancing the shared scope stack. The two calls stand
/// together because the span renderer indexes the line at offsets the
/// tokenization of that same line produced; handing it anything else can
/// read out of range. An engine failure comes back as `None`.
#[verifier::external_body]
pub(crate) fn classed_line_spans(
    ps: &mut ParseState,
    line: &str,
    ss: &SyntaxSet,
    stack: &mut ScopeStack,
) -> Option<String> {
    let ops = ps.parse_line(line, ss).ok()?;
    syntect::html::line_tokens_to_classed_spans(
        line,
        ops.as_slice(),
        syntect::html::ClassStyle::SpacedPrefixed { prefix: "z-" },
        stack,
    ).ok().map(|p| p.0)
}

/// Relies on syntect's `Scope::len`, `Scope::atom_at` and the shared scope
/// interning table `SCOPE_REPO`: the scope's atom names, outermost first.
/// Atom indices below the scope's own length are in range, and the lock is
/// poisoned only after an earlier panic. The interning table is per
/// process, so nothing is stated of the names.
#[verifier::external_body]
pub(crate) fn scope_atoms(scope: &Scope) -> Vec<String> {
    let repo = syntect::parsing::SCOPE_REPO.lock().unwrap();
    (0..scope.len()).map(|i| repo.atom_str(scope.atom_at(i as usize)).to_string()).collect()
}

/// The process-wide syntax registry: the grammar set and theme set loaded
/// once and passed by handle, read-only, into every rendering call.
pub struct SyntaxRegistry {
    pub syntax_set: SyntaxSet,
    pub theme_set: ThemeSet,
}

impl SyntaxRegistry {
    /// Loads the built-in grammars and themes.
    pub fn load() -> SyntaxRegistry {
        SyntaxRegistry { syntax_set: load_default_syntax_set(), theme_set: load_default_theme_set() }
    }
}

} // verus!
