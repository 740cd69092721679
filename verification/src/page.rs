//! Pages and their front matter: the `+++`-delimited TOML block at the top
//! of a content file, split from the body that follows it.
use vstd::prelude::*;

use vstd::string::StrSliceExecFns;

use crate::text;
use crate::text::{first_at, is_space, sub_at};

verus! {

/// The front matter carried by a page.
#[derive(Debug)]
pub enum FrontMatter<'a> {
    /// A TOML block between `+++` fences.
    Toml(&'a str),
}

/// Why a page's source was rejected.
#[derive(Debug, Clone, Copy, PartialEq, Eq, Structural)]
pub enum PageError {
    /// The source does not open with a well-delimited `+++` front matter
    /// block.
    InvalidFrontMatter,
}

impl PageError {
    /// A short description of the failure, naming the file it came from.
    pub fn message(&self, file_path: &str) -> (r: String)
        ensures
            r@ == "invalid front matter format in "@ + file_path@,
    {
        let mut m = "invalid front matter format in ".to_owned();
        m.push_str(file_path);
        m
    }
}

/// One content page.
#[derive(Debug, Default, PartialEq, Eq, Clone)]
pub struct Page {
    pub file: String,
    pub content: String,
}

/// `w` is the end of the whitespace prefix of `s`.
pub open spec fn nonspace_at(s: Seq<char>, w: int) -> bool {
    0 <= w <= s.len() && (forall|t: int| 0 <= t < w ==> is_space(#[trigger] s[t])) && (w < s.len()
        ==> !is_space(s[w]))
}

/// The whitespace prefix has one end.
proof fn lemma_nonspace_unique(s: Seq<char>, w1: int, w2: int)
    requires
        nonspace_at(s, w1),
        nonspace_at(s, w2),
    ensures
        w1 == w2,
{
    if w1 < w2 {
        assert(is_space(s[w1]));
    } else if w2 < w1 {
        assert(is_space(s[w2]));
    }
}

/// What may follow the closing fence: only whitespace to the end, or a
/// newline (possibly behind more whitespace) and then anything.
pub open spec fn tail_ok(t: Seq<char>) -> bool {
    (forall|i: int| 0 <= i < t.len() ==> is_space(#[trigger] t[i])) || (exists|p: int|
        0 <= p < t.len() && t[p] == '\n' && (forall|q: int| 0 <= q < p ==> is_space(#[trigger] t[q])))
}

/// A well-delimited front matter block: after a whitespace prefix of length
/// `w` comes an opening `+++` fence followed directly by a newline of
/// length `nl`, then the block, then the first closing `+++` at relative
/// position `k`, then an acceptable tail.
pub open spec fn fm_shape(s: Seq<char>, w: int, nl: int, k: int) -> bool {
    &&& nonspace_at(s, w)
    &&& w + 3 <= s.len()
    &&& s.subrange(w, w + 3) == "+++"@
    &&& (nl == 1 || nl == 2)
    &&& (nl == 1 ==> w + 4 <= s.len() && s[w + 3] == '\n')
    &&& (nl == 2 ==> w + 5 <= s.len() && s[w + 3] == '\r' && s[w + 4] == '\n')
    &&& first_at(s.skip(w + 3 + nl), "+++"@, k)
    &&& tail_ok(s.skip(w + 3 + nl + k + 3))
}

/// Decides `tail_ok`.
fn is_tail_ok(t: &Vec<char>) -> (r: bool)
    ensures
        r == tail_ok(t@),
{
    let mut j: usize = 0;
    while j < t.len()
        invariant
            j <= t@.len(),
            forall|q: int| 0 <= q < j ==> is_space(#[trigger] t@[q]) && t@[q] != '\n',
        decreases t@.len() - j,
    {
        let c = t[j];
        if c == '\n' {
            return true;
        }
        if !text::is_space_exec(c) {
            proof {
                assert(!tail_ok(t@)) by {
                    if tail_ok(t@) {
                        if forall|i: int| 0 <= i < t@.len() ==> is_space(#[trigger] t@[i]) {
                            assert(is_space(t@[j as int]));
                        } else {
                            let p = choose|p: int|
                                0 <= p < t@.len() && t@[p] == '\n' && (forall|q: int|
                                    0 <= q < p ==> is_space(#[trigger] t@[q]));
                            if p <= j {
                                assert(t@[p] != '\n' || p == j);
                            } else {
                                assert(is_space(t@[j as int]));
                            }
                        }
                    }
                }
            }
            return false;
        }
        j = j + 1;
    }
    true
}

impl Page {
    /// A page freshly located at a source path, its content still empty.
    pub fn new(file_path: &str) -> (r: Page)
        ensures
            r.file@ == file_path@,
            r.content@ == Seq::<char>::empty(),
    {
        Page { file: file_path.to_owned(), content: String::new() }
    }

    /// Splits a page's source into its front matter and the full source: the
    /// source must open, after optional whitespace, with a `+++` fence
    /// followed by a newline, hold a closing `+++`, and carry only
    /// whitespace or a newline-led remainder after it. The front matter is
    /// everything between the fences, its leading newline included.
    pub fn split_page_content<'a>(file_path: &str, content: &'a str) -> (r: Result<
        (FrontMatter<'a>, &'a str),
        PageError,
    >)
        ensures
            match r {
                Ok((fm, c)) => {
                    &&& c@ == content@
                    &&& exists|w: int, nl: int, k: int|
                        #[trigger] fm_shape(content@, w, nl, k) && fm->Toml_0@ == content@.subrange(
                            w + 3,
                            w + 3 + nl + k,
                        )
                },
                Err(_) => !(exists|w: int, nl: int, k: int| #[trigger] fm_shape(content@, w, nl, k)),
            },
    {
        let cv = text::chars_of(content);
        let mut w: usize = 0;
        while w < cv.len() && text::is_space_exec(cv[w])
            invariant
                w <= cv@.len(),
                forall|t: int| 0 <= t < w ==> is_space(#[trigger] cv@[t]),
            decreases cv@.len() - w,
        {
            w = w + 1;
        }
        proof {
            assert(nonspace_at(content@, w as int));
        }
        let fence = text::chars_of("+++");
        proof {
            reveal_strlit("+++");
        }
        let rem = cv.len() - w;
        if rem < 3 {
            proof {
                lemma_no_shape(content@, w as int);
            }
            return Err(PageError::InvalidFrontMatter);
        }
        let opening = text::sub_vec(&cv, w, w + 3);
        if !text::chars_eq(&opening, &fence) {
            proof {
                assert(opening@ =~= content@.subrange(w as int, w as int + 3));
                lemma_no_shape(content@, w as int);
            }
            return Err(PageError::InvalidFrontMatter);
        }
        let nl: usize = if rem >= 4 && cv[w + 3] == '\n' {
            1
        } else if rem >= 5 && cv[w + 3] == '\r' && cv[w + 4] == '\n' {
            2
        } else {
            proof {
                lemma_no_shape(content@, w as int);
            }
            return Err(PageError::InvalidFrontMatter);
        };
        let rest = text::sub_vec(&cv, w + 3 + nl, cv.len());
        proof {
            assert(rest@ =~= content@.skip(w as int + 3 + nl as int));
        }
        let k = match text::find_sub(&rest, &fence) {
            Some(k) => k,
            None => {
                proof {
                    lemma_no_shape(content@, w as int);
                }
                return Err(PageError::InvalidFrontMatter);
            },
        };
        proof {
            assert(k as int + 3 <= rest@.len());
        }
        let tail = text::sub_vec(&cv, w + 3 + nl + k + 3, cv.len());
        proof {
            assert(tail@ =~= content@.skip(w as int + 3 + nl as int + k as int + 3));
        }
        if !is_tail_ok(&tail) {
            proof {
                lemma_no_shape(content@, w as int);
            }
            return Err(PageError::InvalidFrontMatter);
        }
        let front_matter = content.substring_char(w + 3, w + 3 + nl + k);
        proof {
            assert(fm_shape(content@, w as int, nl as int, k as int));
        }
        Ok((FrontMatter::Toml(front_matter), content))
    }

    /// Reads a page out of its source: the front matter must be
    /// well-delimited; the page keeps the whole source as its content.
    pub fn parse(file_path: &str, content: &str) -> (r: Result<Page, PageError>)
        ensures
            match r {
                Ok(page) => {
                    &&& page.file@ == file_path@
                    &&& page.content@ == content@
                    &&& exists|w: int, nl: int, k: int| #[trigger] fm_shape(content@, w, nl, k)
                },
                Err(_) => !(exists|w: int, nl: int, k: int| #[trigger] fm_shape(content@, w, nl, k)),
            },
    {
        match Page::split_page_content(file_path, content) {
            Ok((_front_matter, c)) => {
                let mut page = Page::new(file_path);
                page.content = c.to_owned();
                Ok(page)
            },
            Err(e) => Err(e),
        }
    }
}

/// No front matter shape survives the failure the scan found at the unique
/// whitespace-prefix end `w`.
proof fn lemma_no_shape(s: Seq<char>, w: int)
    requires
        nonspace_at(s, w),
        !(exists|nl: int, k: int|
            {
                &&& w + 3 <= s.len()
                &&& s.subrange(w, w + 3) == "+++"@
                &&& (nl == 1 || nl == 2)
                &&& (nl == 1 ==> w + 4 <= s.len() && s[w + 3] == '\n')
                &&& (nl == 2 ==> w + 5 <= s.len() && s[w + 3] == '\r' && s[w + 4] == '\n')
                &&& #[trigger] first_at(s.skip(w + 3 + nl), "+++"@, k)
                &&& tail_ok(s.skip(w + 3 + nl + k + 3))
            }),
    ensures
        !(exists|w2: int, nl: int, k: int| #[trigger] fm_shape(s, w2, nl, k)),
{
    if exists|w2: int, nl: int, k: int| #[trigger] fm_shape(s, w2, nl, k) {
        let (w2, nl, k) = choose|w2: int, nl: int, k: int| #[trigger] fm_shape(s, w2, nl, k);
        lemma_nonspace_unique(s, w, w2);
        assert(first_at(s.skip(w + 3 + nl), "+++"@, k));
    }
}

} // verus!
