//! The fence-directive mini-language: the info string after an opening code
//! fence (for example ```` ```rust,hl_lines=1-3,linenostart=10 ````) parsed
//! into structured settings.
//!
//! The info string is split on commas into tokens; a token is either a
//! recognized `key=value` directive, the flag `enablelinenumbers`, or a bare
//! language identifier. Unparsable directives and duplicate language tokens
//! are skipped, and the rest of the string is still processed.
use vstd::prelude::*;

use crate::text;
use crate::text::{
    all_digits, dec_str, digits_val, find_char_spec, join_char, sep_free, split_char, trimmed,
};

verus! {

/// An inclusive range of 1-indexed line numbers, kept normalized so that
/// `from <= to`.
#[derive(Clone, Copy, PartialEq, Eq, Structural, Debug)]
pub struct LineRange {
    pub from: usize,
    pub to: usize,
}

/// The settings carried by one code fence.
#[derive(Debug)]
pub struct FenceSettings {
    pub name: Option<String>,
    pub hide_lines: Vec<LineRange>,
    pub highlight_lines: Vec<LineRange>,
    pub line_number_start: usize,
    pub line_numbers: bool,
    pub language: Option<String>,
}

/// One directive recognized inside a fence info string.
#[derive(Debug)]
pub enum FenceToken {
    /// Enable line numbers.
    EnableLineNumbers,
    /// Initial line number shown next to the first line.
    InitialNumber(usize),
    /// Ranges of lines left out of the rendered block.
    HideLines(Vec<LineRange>),
    /// Ranges of lines marked as highlighted.
    HighlightLine(Vec<LineRange>),
    /// Name attached to the fence.
    Name(String),
    /// Language identifier of the fence.
    Language(String),
}

/// Mathematical model of `FenceSettings`.
pub struct FenceModel {
    pub name: Option<Seq<char>>,
    pub hide_lines: Seq<LineRange>,
    pub highlight_lines: Seq<LineRange>,
    pub line_number_start: usize,
    pub line_numbers: bool,
    pub language: Option<Seq<char>>,
}

impl View for FenceSettings {
    type V = FenceModel;

    open spec fn view(&self) -> FenceModel {
        FenceModel {
            name: match self.name {
                Some(s) => Some(s@),
                None => None,
            },
            hide_lines: self.hide_lines@,
            highlight_lines: self.highlight_lines@,
            line_number_start: self.line_number_start,
            line_numbers: self.line_numbers,
            language: match self.language {
                Some(s) => Some(s@),
                None => None,
            },
        }
    }
}

/// The settings of a fence with no directives.
pub open spec fn default_fence() -> FenceModel {
    FenceModel {
        name: None,
        hide_lines: Seq::empty(),
        highlight_lines: Seq::empty(),
        line_number_start: 1,
        line_numbers: false,
        language: None,
    }
}

/// A non-empty digit string whose value fits the machine.
pub open spec fn valid_num(s: Seq<char>) -> bool {
    s.len() > 0 && all_digits(s) && digits_val(s) <= usize::MAX
}

/// One range token read: either `N`, or `A-B` normalized so the bounds are
/// non-decreasing.
pub open spec fn range_of(s: Seq<char>) -> Option<LineRange> {
    let i = find_char_spec(s, '-');
    if i < 0 {
        if valid_num(s) {
            Some(LineRange { from: digits_val(s) as usize, to: digits_val(s) as usize })
        } else {
            None
        }
    } else {
        let a = s.take(i);
        let b = s.skip(i + 1);
        if valid_num(a) && valid_num(b) {
            let x = digits_val(a) as usize;
            let y = digits_val(b) as usize;
            if y < x {
                Some(LineRange { from: y, to: x })
            } else {
                Some(LineRange { from: x, to: y })
            }
        } else {
            None
        }
    }
}

/// The ranges read from a list of space-separated tokens; unreadable tokens
/// are skipped.
pub open spec fn ranges_of_toks(toks: Seq<Seq<char>>) -> Seq<LineRange>
    decreases toks.len(),
{
    if toks.len() == 0 {
        Seq::empty()
    } else {
        match range_of(toks[0]) {
            Some(r) => seq![r] + ranges_of_toks(toks.drop_first()),
            None => ranges_of_toks(toks.drop_first()),
        }
    }
}

/// The ranges read from one range-set value.
pub open spec fn ranges_of(s: Seq<char>) -> Seq<LineRange> {
    ranges_of_toks(split_char(s, ' '))
}

/// How one comma-separated token changes the settings. Unparsable values
/// and a second language token leave the settings as they were.
pub open spec fn apply_token(m: FenceModel, tok: Seq<char>) -> FenceModel {
    let t = trimmed(tok);
    let segs = split_char(t, '=');
    let key = trimmed(segs[0]);
    if key.len() == 0 {
        m
    } else if key == "linenostart"@ {
        if segs.len() >= 2 && valid_num(segs[1]) && digits_val(segs[1]) >= 1 {
            FenceModel { line_number_start: digits_val(segs[1]) as usize, ..m }
        } else {
            m
        }
    } else if key == "name"@ {
        if segs.len() >= 2 {
            FenceModel { name: Some(segs[1]), ..m }
        } else {
            m
        }
    } else if key == "hide_lines"@ {
        FenceModel {
            hide_lines: ranges_of(
                if segs.len() >= 2 {
                    segs[1]
                } else {
                    Seq::empty()
                },
            ),
            ..m
        }
    } else if key == "hl_lines"@ {
        FenceModel {
            highlight_lines: ranges_of(
                if segs.len() >= 2 {
                    segs[1]
                } else {
                    Seq::empty()
                },
            ),
            ..m
        }
    } else if key == "enablelinenumbers"@ {
        FenceModel { line_numbers: true, ..m }
    } else if segs.len() >= 2 {
        m
    } else if m.language is Some {
        m
    } else {
        FenceModel { language: Some(key), ..m }
    }
}

/// The settings after a list of tokens has been applied in order.
pub open spec fn fold_tokens(m: FenceModel, toks: Seq<Seq<char>>) -> FenceModel
    decreases toks.len(),
{
    if toks.len() == 0 {
        m
    } else {
        fold_tokens(apply_token(m, toks[0]), toks.drop_first())
    }
}

/// The settings read from a whole fence info string.
pub open spec fn fence_of(s: Seq<char>) -> FenceModel {
    fold_tokens(default_fence(), split_char(s, ','))
}

/// Reads one range token.
fn parse_range(t: &Vec<char>) -> (r: Option<LineRange>)
    ensures
        r == range_of(t@),
{
    match text::find_char(t, '-') {
        None => {
            match text::parse_usize(t) {
                Some(n) => Some(LineRange { from: n, to: n }),
                None => None,
            }
        },
        Some(i) => {
            proof {
                assert(t.len() == t@.len());
            }
            let a = text::sub_vec(t, 0, i);
            let b = text::sub_vec(t, i + 1, t.len());
            proof {
                assert(a@ =~= t@.take(i as int));
                assert(b@ =~= t@.skip(i as int + 1));
            }
            match (text::parse_usize(&a), text::parse_usize(&b)) {
                (Some(x), Some(y)) => {
                    if y < x {
                        Some(LineRange { from: y, to: x })
                    } else {
                        Some(LineRange { from: x, to: y })
                    }
                },
                _ => None,
            }
        },
    }
}

/// Reads a space-separated range set, skipping unreadable tokens.
fn parse_ranges(s: &Vec<char>) -> (r: Vec<LineRange>)
    ensures
        r@ == ranges_of(s@),
{
    let toks = text::split_chars(s, ' ');
    let ghost full = toks.deep_view();
    let mut r: Vec<LineRange> = Vec::new();
    let mut i: usize = 0;
    proof {
        assert(full.skip(0) =~= full);
        assert(Seq::<LineRange>::empty() + ranges_of_toks(full) =~= ranges_of_toks(full));
    }
    while i < toks.len()
        invariant
            i <= toks@.len(),
            full == toks.deep_view(),
            full.len() == toks@.len(),
            ranges_of_toks(full) == r@ + ranges_of_toks(full.skip(i as int)),
        decreases toks@.len() - i,
    {
        let ghost r0 = r@;
        proof {
            assert(full[i as int] =~= toks@[i as int]@);
            assert(full.skip(i as int).drop_first() =~= full.skip(i as int + 1));
        }
        match parse_range(&toks[i]) {
            Some(rg) => {
                r.push(rg);
                proof {
                    assert(r@ + ranges_of_toks(full.skip(i as int + 1)) =~= r0 + (seq![rg]
                        + ranges_of_toks(full.skip(i as int + 1))));
                }
            },
            None => {},
        }
        i = i + 1;
    }
    proof {
        assert(full.skip(i as int) =~= Seq::<Seq<char>>::empty());
        assert(r@ + Seq::<LineRange>::empty() =~= r@);
    }
    r
}

/// Equality of a character vector with a string literal.
fn is_lit(v: &Vec<char>, s: &str) -> (r: bool)
    ensures
        r == (v@ == s@),
{
    let sv = text::chars_of(s);
    text::chars_eq(v, &sv)
}

/// Applies one comma-separated token to the settings.
/// Classifies one comma-separated token as a directive, if it carries one.
/// An unparsable value, an empty token, and a malformed `key=value` on a
/// language-like token yield nothing and are skipped.
fn fence_token(tok: &Vec<char>, have_language: bool) -> (r: Option<FenceToken>)
    ensures
        ({
            let t = trimmed(tok@);
            let segs = split_char(t, '=');
            let key = trimmed(segs[0]);
            match r {
                Some(FenceToken::InitialNumber(n)) => key == "linenostart"@ && segs.len() >= 2
                    && valid_num(segs[1]) && digits_val(segs[1]) >= 1 && n == digits_val(segs[1]),
                Some(FenceToken::Name(name)) => key == "name"@ && segs.len() >= 2 && name@
                    == segs[1],
                Some(FenceToken::HideLines(rs)) => key == "hide_lines"@ && rs@ == ranges_of(
                    if segs.len() >= 2 {
                        segs[1]
                    } else {
                        Seq::empty()
                    },
                ),
                Some(FenceToken::HighlightLine(rs)) => key == "hl_lines"@ && rs@ == ranges_of(
                    if segs.len() >= 2 {
                        segs[1]
                    } else {
                        Seq::empty()
                    },
                ),
                Some(FenceToken::EnableLineNumbers) => key == "enablelinenumbers"@,
                Some(FenceToken::Language(lang)) => key.len() > 0 && key != "linenostart"@ && key
                    != "name"@ && key != "hide_lines"@ && key != "hl_lines"@ && key
                    != "enablelinenumbers"@ && segs.len() < 2 && !have_language && lang@ == key,
                None => forall|m: FenceModel|
                    ((#[trigger] apply_token(m, tok@)) == m || (m.language is Some)
                        != have_language),
            }
        }),
{
    let t = text::trim_chars(tok);
    let segs = text::split_chars(&t, '=');
    proof {
        if split_char(t@, '=').len() == 0 {
            assert(false);
        }
        assert(segs@.len() == segs.deep_view().len());
        assert(segs@[0]@ == segs.deep_view()[0]);
    }
    let key = text::trim_chars(&segs[0]);
    if key.len() == 0 {
        return None;
    }
    if is_lit(&key, "linenostart") {
        if segs.len() >= 2 {
            proof {
                assert(segs@[1]@ == segs.deep_view()[1]);
            }
            match text::parse_usize(&segs[1]) {
                Some(n) => {
                    if n >= 1 {
                        return Some(FenceToken::InitialNumber(n));
                    }
                    None
                },
                None => None,
            }
        } else {
            None
        }
    } else if is_lit(&key, "name") {
        if segs.len() >= 2 {
            proof {
                assert(segs@[1]@ == segs.deep_view()[1]);
            }
            Some(FenceToken::Name(text::string_of(&segs[1])))
        } else {
            None
        }
    } else if is_lit(&key, "hide_lines") {
        let val = if segs.len() >= 2 {
            proof {
                assert(segs@[1]@ == segs.deep_view()[1]);
            }
            text::sub_vec(&segs[1], 0, segs[1].len())
        } else {
            Vec::new()
        };
        proof {
            if segs.deep_view().len() >= 2 {
                assert(val@ =~= segs.deep_view()[1]);
            } else {
                assert(val@ =~= Seq::<char>::empty());
            }
        }
        Some(FenceToken::HideLines(parse_ranges(&val)))
    } else if is_lit(&key, "hl_lines") {
        let val = if segs.len() >= 2 {
            proof {
                assert(segs@[1]@ == segs.deep_view()[1]);
            }
            text::sub_vec(&segs[1], 0, segs[1].len())
        } else {
            Vec::new()
        };
        proof {
            if segs.deep_view().len() >= 2 {
                assert(val@ =~= segs.deep_view()[1]);
            } else {
                assert(val@ =~= Seq::<char>::empty());
            }
        }
        Some(FenceToken::HighlightLine(parse_ranges(&val)))
    } else if is_lit(&key, "enablelinenumbers") {
        Some(FenceToken::EnableLineNumbers)
    } else if segs.len() >= 2 {
        None
    } else if have_language {
        None
    } else {
        Some(FenceToken::Language(text::string_of(&key)))
    }
}

/// Applies one comma-separated token to the settings.
fn apply_token_exec(r: &mut FenceSettings, tok: &Vec<char>)
    ensures
        final(r)@ == apply_token(old(r)@, tok@),
{
    proof {
        lemma_keywords();
    }
    match fence_token(tok, r.language.is_some()) {
        Some(FenceToken::EnableLineNumbers) => {
            r.line_numbers = true;
        },
        Some(FenceToken::InitialNumber(num)) => {
            r.line_number_start = num;
        },
        Some(FenceToken::HideLines(lines)) => {
            r.hide_lines = lines;
        },
        Some(FenceToken::HighlightLine(lines)) => {
            r.highlight_lines = lines;
        },
        Some(FenceToken::Name(name)) => {
            r.name = Some(name);
        },
        Some(FenceToken::Language(lang)) => {
            r.language = Some(lang);
        },
        None => {},
    }
}

impl FenceSettings {
    /// Reads a whole fence info string; unreadable directives are skipped
    /// and the rest still applies.
    pub fn new(fence_info: &str) -> (r: FenceSettings)
        ensures
            r@ == fence_of(fence_info@),
    {
        let chars = text::chars_of(fence_info);
        let toks = text::split_chars(&chars, ',');
        let ghost full = toks.deep_view();
        let mut r = FenceSettings {
            name: None,
            hide_lines: Vec::new(),
            highlight_lines: Vec::new(),
            line_number_start: 1,
            line_numbers: false,
            language: None,
        };
        proof {
            assert(r@ == default_fence());
            assert(full.skip(0) =~= full);
        }
        let mut i: usize = 0;
        while i < toks.len()
            invariant
                i <= toks@.len(),
                full == toks.deep_view(),
                full.len() == toks@.len(),
                fence_of(chars@) == fold_tokens(r@, full.skip(i as int)),
                chars@ == fence_info@,
            decreases toks@.len() - i,
        {
            proof {
                assert(full[i as int] =~= toks@[i as int]@);
                assert(full.skip(i as int).drop_first() =~= full.skip(i as int + 1));
            }
            apply_token_exec(&mut r, &toks[i]);
            i = i + 1;
        }
        proof {
            assert(full.skip(i as int) =~= Seq::<Seq<char>>::empty());
        }
        r
    }
}


// ------------------------------------------------------------------
// Canonical serialization, and the laws it obeys.
// ------------------------------------------------------------------

/// Canonical text of one range: `N` for a single line, else `A-B`.
pub open spec fn range_canon(r: LineRange) -> Seq<char> {
    if r.from == r.to {
        dec_str(r.from as nat)
    } else {
        dec_str(r.from as nat) + seq!['-'] + dec_str(r.to as nat)
    }
}

/// Canonical text of a range set: the ranges joined with spaces.
pub open spec fn ranges_canon(rs: Seq<LineRange>) -> Seq<char> {
    join_char(rs.map_values(|r: LineRange| range_canon(r)), ' ')
}

/// The comma-separated tokens of the canonical fence string, every field in
/// a fixed order and defaults left out.
pub open spec fn canon_tokens(m: FenceModel) -> Seq<Seq<char>> {
    (match m.language {
        Some(l) => seq![l],
        None => Seq::<Seq<char>>::empty(),
    }) + (match m.name {
        Some(n) => seq!["name="@ + n],
        None => Seq::<Seq<char>>::empty(),
    }) + (if m.line_number_start != 1 {
        seq!["linenostart="@ + dec_str(m.line_number_start as nat)]
    } else {
        Seq::<Seq<char>>::empty()
    }) + (if m.hide_lines.len() > 0 {
        seq!["hide_lines="@ + ranges_canon(m.hide_lines)]
    } else {
        Seq::<Seq<char>>::empty()
    }) + (if m.highlight_lines.len() > 0 {
        seq!["hl_lines="@ + ranges_canon(m.highlight_lines)]
    } else {
        Seq::<Seq<char>>::empty()
    }) + (if m.line_numbers {
        seq!["enablelinenumbers"@]
    } else {
        Seq::<Seq<char>>::empty()
    })
}

/// The canonical fence string of a settings value.
pub open spec fn fence_canon(m: FenceModel) -> Seq<char> {
    join_char(canon_tokens(m), ',')
}

/// The shape that every settings value meant for re-serialization has: the
/// shape that parsing itself produces on reasonable inputs. A name that ends
/// in whitespace, or a language that collides with a directive keyword,
/// cannot survive a round trip and is excluded here.
pub open spec fn wf_fence(m: FenceModel) -> bool {
    &&& m.line_number_start >= 1
    &&& forall|i: int| 0 <= i < m.hide_lines.len() ==> (#[trigger] m.hide_lines[i]).from
        <= m.hide_lines[i].to
    &&& forall|i: int| 0 <= i < m.highlight_lines.len() ==> (#[trigger] m.highlight_lines[i]).from
        <= m.highlight_lines[i].to
    &&& match m.name {
        Some(n) => sep_free(n, ',') && sep_free(n, '=') && (n.len() > 0
            ==> !text::is_space(n.last())),
        None => true,
    }
    &&& match m.language {
        Some(l) => {
            &&& l.len() > 0
            &&& sep_free(l, ',')
            &&& sep_free(l, '=')
            &&& trimmed(l) == l
            &&& l != "linenostart"@
            &&& l != "name"@
            &&& l != "hide_lines"@
            &&& l != "hl_lines"@
            &&& l != "enablelinenumbers"@
        },
        None => true,
    }
}

/// Serializes one range canonically.
fn range_chars(r: &LineRange) -> (out: Vec<char>)
    ensures
        out@ == range_canon(*r),
{
    if r.from == r.to {
        text::dec_chars(r.from as u128)
    } else {
        let mut out = text::dec_chars(r.from as u128);
        out.push('-');
        let t = text::dec_chars(r.to as u128);
        text::append_chars(&mut out, &t);
        proof {
            assert(out@ =~= range_canon(*r));
        }
        out
    }
}

/// Serializes a range set canonically.
fn ranges_chars(rs: &Vec<LineRange>) -> (out: Vec<char>)
    ensures
        out@ == ranges_canon(rs@),
{
    let mut toks: Vec<Vec<char>> = Vec::new();
    let mut i: usize = 0;
    while i < rs.len()
        invariant
            i <= rs@.len(),
            toks.deep_view() == rs@.take(i as int).map_values(|r: LineRange| range_canon(r)),
        decreases rs@.len() - i,
    {
        let ghost old_dv = toks.deep_view();
        let t = range_chars(&rs[i]);
        let ghost tv = t@;
        toks.push(t);
        i = i + 1;
        proof {
            assert(toks.deep_view() =~~= old_dv.push(tv));
            assert(toks.deep_view() =~= rs@.take(i as int).map_values(
                |r: LineRange| range_canon(r),
            ));
        }
    }
    proof {
        assert(rs@.take(i as int) =~= rs@);
    }
    text::join_chars(&toks, ' ')
}

impl FenceSettings {
    /// Serializes the settings back to their canonical fence string.
    /// Re-parsing that string recovers the settings
    /// (`lemma_fence_round_trip`).
    #[verifier::rlimit(60)]
    pub fn to_fence_string(&self) -> (r: String)
        ensures
            r@ == fence_canon(self@),
    {
        let mut toks: Vec<Vec<char>> = Vec::new();
        match &self.language {
            Some(l) => {
                toks.push(text::chars_of(l.as_str()));
            },
            None => {},
        }
        match &self.name {
            Some(n) => {
                let mut t = text::chars_of("name=");
                let nv = text::chars_of(n.as_str());
                text::append_chars(&mut t, &nv);
                toks.push(t);
            },
            None => {},
        }
        if self.line_number_start != 1 {
            let mut t = text::chars_of("linenostart=");
            let nv = text::dec_chars(self.line_number_start as u128);
            text::append_chars(&mut t, &nv);
            toks.push(t);
        }
        if self.hide_lines.len() > 0 {
            let mut t = text::chars_of("hide_lines=");
            let nv = ranges_chars(&self.hide_lines);
            text::append_chars(&mut t, &nv);
            toks.push(t);
        }
        if self.highlight_lines.len() > 0 {
            let mut t = text::chars_of("hl_lines=");
            let nv = ranges_chars(&self.highlight_lines);
            text::append_chars(&mut t, &nv);
            toks.push(t);
        }
        if self.line_numbers {
            toks.push(text::chars_of("enablelinenumbers"));
        }
        proof {
            assert(toks.deep_view() =~~= canon_tokens(self@));
        }
        let joined = text::join_chars(&toks, ',');
        text::string_of(&joined)
    }
}

/// Swapped bounds read the same: the range token `A-B` and the token `B-A`
/// yield one and the same normalized range, also when one side is
/// unreadable.
pub proof fn lemma_range_token_swap(a: Seq<char>, b: Seq<char>)
    requires
        sep_free(a, '-'),
        sep_free(b, '-'),
    ensures
        range_of(a + seq!['-'] + b) == range_of(b + seq!['-'] + a),
{
    let s1 = a + seq!['-'] + b;
    let s2 = b + seq!['-'] + a;
    text::lemma_find_char_concat(a, b, '-');
    text::lemma_find_char_concat(b, a, '-');
    assert(s1.take(a.len() as int) =~= a);
    assert(s1.skip(a.len() as int + 1) =~= b);
    assert(s2.take(b.len() as int) =~= b);
    assert(s2.skip(b.len() as int + 1) =~= a);
}


// ------------------------------------------------------------------
// The parse/serialize round trip.
// ------------------------------------------------------------------

/// Trimming leaves a string without outer whitespace unchanged.
proof fn lemma_trimmed_stable(s: Seq<char>)
    requires
        s.len() > 0 ==> !text::is_space(s[0]) && !text::is_space(s.last()),
    ensures
        trimmed(s) == s,
{
}

/// Folding distributes over concatenation of token lists.
proof fn lemma_fold_concat(m: FenceModel, a: Seq<Seq<char>>, b: Seq<Seq<char>>)
    ensures
        fold_tokens(m, a + b) == fold_tokens(fold_tokens(m, a), b),
    decreases a.len(),
{
    if a.len() == 0 {
        assert(a + b =~= b);
    } else {
        lemma_fold_concat(apply_token(m, a[0]), a.drop_first(), b);
        assert((a + b).drop_first() =~= a.drop_first() + b);
    }
}

/// A character of a joined string is the separator or a character of one of
/// the pieces.
proof fn lemma_join_char_prop(toks: Seq<Seq<char>>, sep: char, p: spec_fn(char) -> bool)
    requires
        p(sep),
        forall|i: int, j: int|
            0 <= i < toks.len() && 0 <= j < toks[i].len() ==> p(#[trigger] toks[i][j]),
    ensures
        forall|k: int|
            0 <= k < join_char(toks, sep).len() ==> p(#[trigger] join_char(toks, sep)[k]),
    decreases toks.len(),
{
    if toks.len() == 0 {
    } else if toks.len() == 1 {
        assert(forall|j: int| 0 <= j < toks[0].len() ==> p(#[trigger] toks[0][j]));
    } else {
        assert(forall|i: int, j: int|
            0 <= i < toks.drop_first().len() && 0 <= j < toks.drop_first()[i].len() ==> p(
                #[trigger] toks.drop_first()[i][j],
            ));
        lemma_join_char_prop(toks.drop_first(), sep, p);
        assert(forall|j: int| 0 <= j < toks[0].len() ==> p(#[trigger] toks[0][j]));
        let rest = join_char(toks.drop_first(), sep);
        let whole = join_char(toks, sep);
        assert(whole =~= toks[0] + seq![sep] + rest);
        assert(forall|k: int|
            0 <= k < whole.len() ==> p(#[trigger] whole[k])) by {
            assert forall|k: int| 0 <= k < whole.len() implies p(#[trigger] whole[k]) by {
                if k < toks[0].len() {
                    assert(whole[k] == toks[0][k]);
                } else if k == toks[0].len() {
                    assert(whole[k] == sep);
                } else {
                    assert(whole[k] == rest[k - toks[0].len() - 1]);
                }
            }
        }
    }
}

/// The last character of a joined string is the last character of its last
/// piece.
proof fn lemma_join_last(toks: Seq<Seq<char>>, sep: char)
    requires
        toks.len() > 0,
        toks.last().len() > 0,
    ensures
        join_char(toks, sep).len() > 0,
        join_char(toks, sep).last() == toks.last().last(),
    decreases toks.len(),
{
    if toks.len() == 1 {
    } else {
        lemma_join_last(toks.drop_first(), sep);
        assert(toks.drop_first().last() =~= toks.last());
        let rest = join_char(toks.drop_first(), sep);
        let whole = join_char(toks, sep);
        assert(whole =~= toks[0] + seq![sep] + rest);
        assert(whole.last() == rest.last());
    }
}

/// The characters a canonical range is written with.
pub open spec fn range_char(c: char) -> bool {
    text::is_dec_digit(c) || c == '-'
}

proof fn lemma_dec_chars_prop(n: nat)
    ensures
        dec_str(n).len() > 0,
        forall|j: int| 0 <= j < dec_str(n).len() ==> range_char(#[trigger] dec_str(n)[j]),
        forall|j: int| 0 <= j < dec_str(n).len() ==> text::is_dec_digit(#[trigger] dec_str(n)[j]),
{
    text::lemma_dec_str_digits(n);
}

proof fn lemma_range_canon_chars(r: LineRange)
    ensures
        range_canon(r).len() > 0,
        forall|j: int| 0 <= j < range_canon(r).len() ==> range_char(#[trigger] range_canon(r)[j]),
        text::is_dec_digit(range_canon(r).last()),
{
    lemma_dec_chars_prop(r.from as nat);
    lemma_dec_chars_prop(r.to as nat);
    if r.from != r.to {
        let a = dec_str(r.from as nat);
        let b = dec_str(r.to as nat);
        let whole = range_canon(r);
        assert(whole =~= a + seq!['-'] + b);
        assert forall|j: int| 0 <= j < whole.len() implies range_char(#[trigger] whole[j]) by {
            if j < a.len() {
                assert(whole[j] == a[j]);
            } else if j == a.len() {
            } else {
                assert(whole[j] == b[j - a.len() - 1]);
            }
        }
        assert(whole.last() == b.last());
    }
}

/// Reading back the canonical text of one normalized range gives the range.
proof fn lemma_range_of_canon(r: LineRange)
    requires
        r.from <= r.to,
    ensures
        range_of(range_canon(r)) == Some(r),
{
    lemma_dec_chars_prop(r.from as nat);
    lemma_dec_chars_prop(r.to as nat);
    text::lemma_dec_str_val(r.from as nat);
    text::lemma_dec_str_val(r.to as nat);
    let a = dec_str(r.from as nat);
    let b = dec_str(r.to as nat);
    assert(sep_free(a, '-'));
    assert(sep_free(b, '-'));
    if r.from == r.to {
        text::lemma_find_char(a, '-');
        if find_char_spec(a, '-') >= 0 {
            assert(a[find_char_spec(a, '-')] == '-');
        }
    } else {
        let s = range_canon(r);
        text::lemma_find_char_concat(a, b, '-');
        assert(s.take(a.len() as int) =~= a);
        assert(s.skip(a.len() as int + 1) =~= b);
    }
}

/// Reading back the canonical text of a normalized range set gives the set.
proof fn lemma_ranges_of_toks_canon(rs: Seq<LineRange>)
    requires
        forall|i: int| 0 <= i < rs.len() ==> (#[trigger] rs[i]).from <= rs[i].to,
    ensures
        ranges_of_toks(rs.map_values(|r: LineRange| range_canon(r))) == rs,
    decreases rs.len(),
{
    let toks = rs.map_values(|r: LineRange| range_canon(r));
    if rs.len() == 0 {
        assert(ranges_of_toks(toks) =~= rs);
    } else {
        lemma_range_of_canon(rs[0]);
        lemma_ranges_of_toks_canon(rs.drop_first());
        assert(toks.drop_first() =~= rs.drop_first().map_values(
            |r: LineRange| range_canon(r),
        ));
        assert(seq![rs[0]] + rs.drop_first() =~= rs);
    }
}

proof fn lemma_ranges_round_trip(rs: Seq<LineRange>)
    requires
        rs.len() > 0,
        forall|i: int| 0 <= i < rs.len() ==> (#[trigger] rs[i]).from <= rs[i].to,
    ensures
        ranges_of(ranges_canon(rs)) == rs,
{
    let toks = rs.map_values(|r: LineRange| range_canon(r));
    assert forall|i: int| 0 <= i < toks.len() implies sep_free(#[trigger] toks[i], ' ') by {
        lemma_range_canon_chars(rs[i]);
    }
    text::lemma_split_join(toks, ' ');
    lemma_ranges_of_toks_canon(rs);
}

/// No character of a canonical range set is a comma, an equals sign, or a
/// character a trim would take away; the last one is a digit.
proof fn lemma_ranges_canon_chars(rs: Seq<LineRange>)
    requires
        rs.len() > 0,
    ensures
        forall|k: int|
            0 <= k < ranges_canon(rs).len() ==> {
                let c = #[trigger] ranges_canon(rs)[k];
                range_char(c) || c == ' '
            },
        ranges_canon(rs).len() > 0,
        text::is_dec_digit(ranges_canon(rs).last()),
{
    let toks = rs.map_values(|r: LineRange| range_canon(r));
    assert forall|i: int, j: int|
        0 <= i < toks.len() && 0 <= j < toks[i].len() implies (range_char(#[trigger] toks[i][j])
        || toks[i][j] == ' ') by {
        lemma_range_canon_chars(rs[i]);
    }
    lemma_join_char_prop(toks, ' ', |c: char| range_char(c) || c == ' ');
    lemma_range_canon_chars(rs.last());
    assert(toks.last() =~= range_canon(rs.last()));
    lemma_join_last(toks, ' ');
}


/// Facts about the directive keywords, unfolded from their literals.
proof fn lemma_keywords()
    ensures
        "linenostart"@.len() == 11,
        "name"@.len() == 4,
        "hide_lines"@.len() == 10,
        "hl_lines"@.len() == 8,
        "enablelinenumbers"@.len() == 17,
        trimmed("linenostart"@) == "linenostart"@,
        trimmed("name"@) == "name"@,
        trimmed("hide_lines"@) == "hide_lines"@,
        trimmed("hl_lines"@) == "hl_lines"@,
        trimmed("enablelinenumbers"@) == "enablelinenumbers"@,
        sep_free("linenostart"@, '='),
        sep_free("name"@, '='),
        sep_free("hide_lines"@, '='),
        sep_free("hl_lines"@, '='),
        sep_free("enablelinenumbers"@, ','),
        sep_free("name="@, ','),
        sep_free("linenostart="@, ','),
        sep_free("hide_lines="@, ','),
        sep_free("hl_lines="@, ','),
        "name="@ == "name"@ + seq!['='],
        "linenostart="@ == "linenostart"@ + seq!['='],
        "hide_lines="@ == "hide_lines"@ + seq!['='],
        "hl_lines="@ == "hl_lines"@ + seq!['='],
{
    reveal_strlit("linenostart");
    reveal_strlit("name");
    reveal_strlit("hide_lines");
    reveal_strlit("hl_lines");
    reveal_strlit("enablelinenumbers");
    reveal_strlit("name=");
    reveal_strlit("linenostart=");
    reveal_strlit("hide_lines=");
    reveal_strlit("hl_lines=");
    assert("name="@ =~= "name"@ + seq!['=']);
    assert("linenostart="@ =~= "linenostart"@ + seq!['=']);
    assert("hide_lines="@ =~= "hide_lines"@ + seq!['=']);
    assert("hl_lines="@ =~= "hl_lines"@ + seq!['=']);
}

/// What a `key=value` token does when the key is a known directive and the
/// value is free of further equals signs.
proof fn lemma_apply_keyed(m: FenceModel, key: Seq<char>, value: Seq<char>)
    requires
        key == "name"@ || key == "linenostart"@ || key == "hide_lines"@ || key == "hl_lines"@,
        sep_free(value, '='),
        value.len() > 0 ==> !text::is_space(value.last()),
    ensures
        ({
            let tok = key + seq!['='] + value;
            let segs = split_char(trimmed(tok), '=');
            segs == seq![key, value] && trimmed(tok) == tok
        }),
{
    lemma_keywords();
    reveal_strlit("linenostart");
    reveal_strlit("name");
    reveal_strlit("hide_lines");
    reveal_strlit("hl_lines");
    let tok = key + seq!['='] + value;
    assert(tok[0] == key[0]);
    assert(!text::is_space(tok[0]));
    if value.len() > 0 {
        assert(tok.last() == value.last());
    } else {
        assert(tok.last() == '=');
    }
    lemma_trimmed_stable(tok);
    text::lemma_split_at(key, value, '=');
    text::lemma_split_single(value, '=');
    assert(seq![key] + seq![value] =~= seq![key, value]);
}

/// Applying the canonical language token records the language.
proof fn lemma_apply_lang(m: FenceModel, l: Seq<char>)
    requires
        m.language is None,
        l.len() > 0,
        sep_free(l, '='),
        trimmed(l) == l,
        l != "linenostart"@,
        l != "name"@,
        l != "hide_lines"@,
        l != "hl_lines"@,
        l != "enablelinenumbers"@,
    ensures
        apply_token(m, l) == (FenceModel { language: Some(l), ..m }),
{
    text::lemma_split_single(l, '=');
}

/// Applying the canonical name token records the name.
proof fn lemma_apply_name(m: FenceModel, n: Seq<char>)
    requires
        sep_free(n, '='),
        n.len() > 0 ==> !text::is_space(n.last()),
    ensures
        apply_token(m, "name="@ + n) == (FenceModel { name: Some(n), ..m }),
{
    lemma_keywords();
    lemma_apply_keyed(m, "name"@, n);
    assert("name="@ + n =~= "name"@ + seq!['='] + n);
}

/// Applying the canonical starting-line token records the number.
proof fn lemma_apply_lns(m: FenceModel, v: usize)
    requires
        v >= 1,
    ensures
        apply_token(m, "linenostart="@ + dec_str(v as nat)) == (FenceModel {
            line_number_start: v,
            ..m
        }),
{
    lemma_keywords();
    let d = dec_str(v as nat);
    lemma_dec_chars_prop(v as nat);
    text::lemma_dec_str_val(v as nat);
    lemma_apply_keyed(m, "linenostart"@, d);
    assert("linenostart="@ + d =~= "linenostart"@ + seq!['='] + d);
}

/// Applying a canonical range-set token records the ranges.
proof fn lemma_apply_ranges(m: FenceModel, rs: Seq<LineRange>, hide: bool)
    requires
        rs.len() > 0,
        forall|i: int| 0 <= i < rs.len() ==> (#[trigger] rs[i]).from <= rs[i].to,
    ensures
        hide ==> apply_token(m, "hide_lines="@ + ranges_canon(rs)) == (FenceModel {
            hide_lines: rs,
            ..m
        }),
        !hide ==> apply_token(m, "hl_lines="@ + ranges_canon(rs)) == (FenceModel {
            highlight_lines: rs,
            ..m
        }),
{
    lemma_keywords();
    let v = ranges_canon(rs);
    lemma_ranges_canon_chars(rs);
    lemma_ranges_round_trip(rs);
    if hide {
        lemma_apply_keyed(m, "hide_lines"@, v);
        assert("hide_lines="@ + v =~= "hide_lines"@ + seq!['='] + v);
    } else {
        lemma_apply_keyed(m, "hl_lines"@, v);
        assert("hl_lines="@ + v =~= "hl_lines"@ + seq!['='] + v);
    }
}

/// Applying the line-number flag sets it.
proof fn lemma_apply_enable(m: FenceModel)
    ensures
        apply_token(m, "enablelinenumbers"@) == (FenceModel { line_numbers: true, ..m }),
{
    lemma_keywords();
    reveal_strlit("enablelinenumbers");
    assert(sep_free("enablelinenumbers"@, '='));
    text::lemma_split_single("enablelinenumbers"@, '=');
}


/// Folding a single token is applying it.
proof fn lemma_fold_single(m: FenceModel, t: Seq<char>)
    ensures
        fold_tokens(m, seq![t]) == apply_token(m, t),
{
    assert(seq![t].drop_first() =~= Seq::<Seq<char>>::empty());
    assert(fold_tokens(apply_token(m, t), Seq::<Seq<char>>::empty()) == apply_token(m, t));
    assert(fold_tokens(m, seq![t]) == fold_tokens(apply_token(m, seq![t][0]), seq![t].drop_first()));
}

/// Parsing the empty info string yields the default settings.
proof fn lemma_fence_of_empty()
    ensures
        fence_of(Seq::<char>::empty()) == default_fence(),
{
    let e = Seq::<char>::empty();
    text::lemma_find_char(e, ',');
    assert(split_char(e, ',') == seq![e]);
    text::lemma_find_char(e, '=');
    assert(split_char(e, '=') == seq![e]);
    assert(apply_token(default_fence(), e) == default_fence());
    lemma_fold_single(default_fence(), e);
}

/// Parsing is idempotent through the canonical form: re-parsing the
/// canonical fence string of any well-formed settings value recovers that
/// value exactly. Well-formed is the shape parsing itself produces
/// (`wf_fence`).
#[verifier::rlimit(100)]
pub proof fn lemma_fence_round_trip(m: FenceModel)
    requires
        wf_fence(m),
    ensures
        fence_of(fence_canon(m)) == m,
{
    lemma_keywords();
    let empty_g = Seq::<Seq<char>>::empty();
    let g1 = match m.language {
        Some(l) => seq![l],
        None => empty_g,
    };
    let g2 = match m.name {
        Some(n) => seq!["name="@ + n],
        None => empty_g,
    };
    let g3 = if m.line_number_start != 1 {
        seq!["linenostart="@ + dec_str(m.line_number_start as nat)]
    } else {
        empty_g
    };
    let g4 = if m.hide_lines.len() > 0 {
        seq!["hide_lines="@ + ranges_canon(m.hide_lines)]
    } else {
        empty_g
    };
    let g5 = if m.highlight_lines.len() > 0 {
        seq!["hl_lines="@ + ranges_canon(m.highlight_lines)]
    } else {
        empty_g
    };
    let g6 = if m.line_numbers {
        seq!["enablelinenumbers"@]
    } else {
        empty_g
    };
    let toks = canon_tokens(m);
    assert(toks == g1 + g2 + g3 + g4 + g5 + g6);

    // every token is comma-free
    if m.name is Some {
        let n = m.name->0;
        let tok = "name="@ + n;
        assert(sep_free(tok, ',')) by {
            assert(forall|k: int|
                0 <= k < tok.len() ==> tok[k] == (if k < "name="@.len() {
                    "name="@[k]
                } else {
                    n[k - "name="@.len()]
                }));
        }
    }
    if m.line_number_start != 1 {
        let d = dec_str(m.line_number_start as nat);
        lemma_dec_chars_prop(m.line_number_start as nat);
        let tok = "linenostart="@ + d;
        assert(sep_free(tok, ',')) by {
            assert(forall|k: int|
                0 <= k < tok.len() ==> tok[k] == (if k < "linenostart="@.len() {
                    "linenostart="@[k]
                } else {
                    d[k - "linenostart="@.len()]
                }));
            assert(forall|k: int| 0 <= k < d.len() ==> text::is_dec_digit(#[trigger] d[k]));
        }
    }
    if m.hide_lines.len() > 0 {
        let v = ranges_canon(m.hide_lines);
        lemma_ranges_canon_chars(m.hide_lines);
        let tok = "hide_lines="@ + v;
        assert(sep_free(tok, ',')) by {
            assert(forall|k: int|
                0 <= k < tok.len() ==> tok[k] == (if k < "hide_lines="@.len() {
                    "hide_lines="@[k]
                } else {
                    v[k - "hide_lines="@.len()]
                }));
        }
    }
    if m.highlight_lines.len() > 0 {
        let v = ranges_canon(m.highlight_lines);
        lemma_ranges_canon_chars(m.highlight_lines);
        let tok = "hl_lines="@ + v;
        assert(sep_free(tok, ',')) by {
            assert(forall|k: int|
                0 <= k < tok.len() ==> tok[k] == (if k < "hl_lines="@.len() {
                    "hl_lines="@[k]
                } else {
                    v[k - "hl_lines="@.len()]
                }));
        }
    }
    assert(forall|i: int| 0 <= i < toks.len() ==> sep_free(#[trigger] toks[i], ','));

    if toks.len() == 0 {
        assert(fence_canon(m) == Seq::<char>::empty());
        lemma_fence_of_empty();
        assert(m.hide_lines =~= Seq::<LineRange>::empty());
        assert(m.highlight_lines =~= Seq::<LineRange>::empty());
        assert(m == default_fence());
    } else {
        text::lemma_split_join(toks, ',');
        assert(fence_of(fence_canon(m)) == fold_tokens(default_fence(), toks));
        let r2 = g2 + g3 + g4 + g5 + g6;
        let r3 = g3 + g4 + g5 + g6;
        let r4 = g4 + g5 + g6;
        let r5 = g5 + g6;
        assert(toks =~= g1 + r2);
        assert(r2 =~= g2 + r3);
        assert(r3 =~= g3 + r4);
        assert(r4 =~= g4 + r5);
        lemma_fold_concat(default_fence(), g1, r2);
        let m1 = fold_tokens(default_fence(), g1);
        lemma_fold_concat(m1, g2, r3);
        let m2 = fold_tokens(m1, g2);
        lemma_fold_concat(m2, g3, r4);
        let m3 = fold_tokens(m2, g3);
        lemma_fold_concat(m3, g4, r5);
        let m4 = fold_tokens(m3, g4);
        lemma_fold_concat(m4, g5, g6);
        let m5 = fold_tokens(m4, g5);
        let m6 = fold_tokens(m5, g6);
        assert(fold_tokens(default_fence(), toks) == m6);

        match m.language {
            Some(l) => {
                lemma_apply_lang(default_fence(), l);
                lemma_fold_single(default_fence(), l);
                assert(m1 == (FenceModel { language: Some(l), ..default_fence() }));
            },
            None => {
                assert(m1 == default_fence());
            },
        }
        assert(m1.language == m.language);
        match m.name {
            Some(n) => {
                lemma_apply_name(m1, n);
                lemma_fold_single(m1, "name="@ + n);
                assert(m2 == (FenceModel { name: Some(n), ..m1 }));
            },
            None => {
                assert(m2 == m1);
            },
        }
        if m.line_number_start != 1 {
            lemma_apply_lns(m2, m.line_number_start);
            lemma_fold_single(m2, "linenostart="@ + dec_str(m.line_number_start as nat));
            assert(m3 == (FenceModel { line_number_start: m.line_number_start, ..m2 }));
        } else {
            assert(m3 == m2);
        }
        if m.hide_lines.len() > 0 {
            lemma_apply_ranges(m3, m.hide_lines, true);
            lemma_fold_single(m3, "hide_lines="@ + ranges_canon(m.hide_lines));
            assert(m4 == (FenceModel { hide_lines: m.hide_lines, ..m3 }));
        } else {
            assert(m4 == m3);
        }
        if m.highlight_lines.len() > 0 {
            lemma_apply_ranges(m4, m.highlight_lines, false);
            lemma_fold_single(m4, "hl_lines="@ + ranges_canon(m.highlight_lines));
            assert(m5 == (FenceModel { highlight_lines: m.highlight_lines, ..m4 }));
        } else {
            assert(m5 == m4);
        }
        if m.line_numbers {
            lemma_apply_enable(m5);
            lemma_fold_single(m5, "enablelinenumbers"@);
            assert(m6 == (FenceModel { line_numbers: true, ..m5 }));
        } else {
            assert(m6 == m5);
        }
        assert(m6.name == m.name);
        assert(m6.language == m.language);
        assert(m6.line_number_start == m.line_number_start);
        assert(m6.line_numbers == m.line_numbers);
        if m.hide_lines.len() == 0 {
            assert(m6.hide_lines =~= m.hide_lines);
        }
        if m.highlight_lines.len() == 0 {
            assert(m6.highlight_lines =~= m.highlight_lines);
        }
        assert(m6 == m);
    }
}

} // verus!
