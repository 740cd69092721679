//! Character-level text utilities shared by the rendering core.
//!
//! All document manipulation in this crate is specified over `Seq<char>`
//! views; executable code works on `Vec<char>` buffers and `String`s and
//! converts between the two at the crate boundary.
use vstd::prelude::*;
use vstd::string::StrSliceExecFns;

verus! {

/// Appends one character to a `String`.
/// Relies on `String::push` from std: it appends the given char.
pub assume_specification[ String::push ](s: &mut String, c: char)
    ensures
        final(s)@ == old(s)@.push(c),
;

/// Appends a string slice to a `String`.
/// Relies on `String::push_str` from std: it appends the given slice.
pub assume_specification[ String::push_str ](s: &mut String, other: &str)
    ensures
        final(s)@ == old(s)@ + other@,
;

/// True when `p` is a prefix of `s`.
pub open spec fn has_prefix(s: Seq<char>, p: Seq<char>) -> bool {
    p.len() <= s.len() && s.subrange(0, p.len() as int) == p
}

/// True when `p` occurs in `s` starting at index `i`.
pub open spec fn sub_at(s: Seq<char>, p: Seq<char>, i: int) -> bool {
    0 <= i && i + p.len() <= s.len() && s.subrange(i, i + p.len()) == p
}

/// True when `p` occurs somewhere in `s`.
pub open spec fn contains_seq(s: Seq<char>, p: Seq<char>) -> bool {
    exists|i: int| sub_at(s, p, i)
}

/// True when the first occurrence of `p` in `s` starts at `i`.
pub open spec fn first_at(s: Seq<char>, p: Seq<char>, i: int) -> bool {
    sub_at(s, p, i) && forall|j: int| 0 <= j < i ==> !sub_at(s, p, j)
}

/// Collects the characters of a string slice into a vector.
pub fn chars_of(s: &str) -> (r: Vec<char>)
    ensures
        r@ == s@,
{
    let n = s.unicode_len();
    let mut r: Vec<char> = Vec::new();
    let mut i: usize = 0;
    while i < n
        invariant
            n == s@.len(),
            i <= n,
            r@ == s@.take(i as int),
        decreases n - i,
    {
        r.push(s.get_char(i));
        i = i + 1;
        proof {
            assert(r@ =~= s@.take(i as int));
        }
    }
    proof {
        assert(s@.take(i as int) =~= s@);
    }
    r
}

/// Builds a `String` from a vector of characters.
pub fn string_of(v: &Vec<char>) -> (r: String)
    ensures
        r@ == v@,
{
    let mut r = String::new();
    let mut i: usize = 0;
    while i < v.len()
        invariant
            i <= v@.len(),
            r@ == v@.take(i as int),
        decreases v@.len() - i,
    {
        r.push(v[i]);
        i = i + 1;
        proof {
            assert(r@ =~= v@.take(i as int));
        }
    }
    proof {
        assert(v@.take(i as int) =~= v@);
    }
    r
}

/// Appends the characters of `p` to `v`.
pub fn append_chars(v: &mut Vec<char>, p: &Vec<char>)
    ensures
        final(v)@ == old(v)@ + p@,
{
    let mut i: usize = 0;
    while i < p.len()
        invariant
            i <= p@.len(),
            v@ == old(v)@ + p@.take(i as int),
        decreases p@.len() - i,
    {
        v.push(p[i]);
        i = i + 1;
        proof {
            assert(old(v)@ + p@.take(i as int) =~= v@);
        }
    }
    proof {
        assert(old(v)@ + p@.take(i as int) =~= old(v)@ + p@);
    }
}

/// Equality test over character vectors.
pub fn chars_eq(a: &Vec<char>, b: &Vec<char>) -> (r: bool)
    ensures
        r == (a@ == b@),
{
    if a.len() != b.len() {
        proof {
            assert(a@ != b@);
        }
        return false;
    }
    let mut i: usize = 0;
    while i < a.len()
        invariant
            a@.len() == b@.len(),
            i <= a@.len(),
            forall|j: int| 0 <= j < i ==> a@[j] == b@[j],
        decreases a@.len() - i,
    {
        if a[i] != b[i] {
            return false;
        }
        i = i + 1;
    }
    proof {
        assert(a@ =~= b@);
    }
    true
}

/// Prefix test over character vectors.
pub fn slice_has_prefix(s: &Vec<char>, p: &Vec<char>) -> (r: bool)
    ensures
        r == has_prefix(s@, p@),
{
    if p.len() > s.len() {
        return false;
    }
    let mut i: usize = 0;
    while i < p.len()
        invariant
            p@.len() <= s@.len(),
            i <= p@.len(),
            forall|j: int| 0 <= j < i ==> s@[j] == p@[j],
        decreases p@.len() - i,
    {
        if s[i] != p[i] {
            proof {
                assert(!has_prefix(s@, p@)) by {
                    if has_prefix(s@, p@) {
                        assert(s@.subrange(0, p@.len() as int)[i as int] == p@[i as int]);
                    }
                }
            }
            return false;
        }
        i = i + 1;
    }
    proof {
        assert(s@.subrange(0, p@.len() as int) =~= p@);
    }
    true
}

/// Prefix test directly over string slices.
pub fn str_has_prefix(s: &str, p: &str) -> (r: bool)
    ensures
        r == has_prefix(s@, p@),
{
    let sv = chars_of(s);
    let pv = chars_of(p);
    slice_has_prefix(&sv, &pv)
}

/// Occurrence test of `p` at position `i` of `s`.
fn occurs_at(s: &Vec<char>, p: &Vec<char>, i: usize) -> (r: bool)
    requires
        i + p@.len() <= s@.len(),
    ensures
        r == sub_at(s@, p@, i as int),
{
    proof {
        assert(s.len() == s@.len());
    }
    let mut j: usize = 0;
    while j < p.len()
        invariant
            i + p@.len() <= s@.len(),
            s@.len() <= usize::MAX,
            j <= p@.len(),
            forall|k: int| 0 <= k < j ==> s@[i + k] == p@[k],
        decreases p@.len() - j,
    {
        if s[i + j] != p[j] {
            proof {
                assert(!sub_at(s@, p@, i as int)) by {
                    if sub_at(s@, p@, i as int) {
                        assert(s@.subrange(i as int, i + p@.len())[j as int] == p@[j as int]);
                    }
                }
            }
            return false;
        }
        j = j + 1;
    }
    proof {
        assert(s@.subrange(i as int, i + p@.len()) =~= p@);
    }
    true
}

/// Finds the first occurrence of `p` in `s`, if any. `p` must be non-empty.
pub fn find_sub(s: &Vec<char>, p: &Vec<char>) -> (r: Option<usize>)
    requires
        p@.len() > 0,
    ensures
        match r {
            Some(i) => first_at(s@, p@, i as int),
            None => !contains_seq(s@, p@),
        },
{
    if p.len() > s.len() {
        proof {
            assert(!contains_seq(s@, p@)) by {
                if contains_seq(s@, p@) {
                    let i = choose|i: int| sub_at(s@, p@, i);
                }
            }
        }
        return None;
    }
    let last = s.len() - p.len();
    let mut i: usize = 0;
    while i <= last
        invariant
            p@.len() > 0,
            last == s@.len() - p@.len(),
            last < usize::MAX,
            i <= last + 1,
            forall|j: int| 0 <= j < i ==> !sub_at(s@, p@, j),
        decreases last + 1 - i,
    {
        if occurs_at(s, p, i) {
            return Some(i);
        }
        i = i + 1;
    }
    proof {
        assert(!contains_seq(s@, p@)) by {
            if contains_seq(s@, p@) {
                let k = choose|k: int| sub_at(s@, p@, k);
                assert(k <= last as int);
            }
        }
    }
    None
}

/// Containment test of `p` in `s`. `p` must be non-empty.
pub fn contains_sub(s: &Vec<char>, p: &Vec<char>) -> (r: bool)
    requires
        p@.len() > 0,
    ensures
        r == contains_seq(s@, p@),
{
    match find_sub(s, p) {
        Some(_) => true,
        None => false,
    }
}

// ------------------------------------------------------------------
// Decimal representation of machine integers.
// ------------------------------------------------------------------

/// The character for one decimal digit.
pub open spec fn digit_char(d: nat) -> char
    recommends
        d < 10,
{
    if d == 0 {
        '0'
    } else if d == 1 {
        '1'
    } else if d == 2 {
        '2'
    } else if d == 3 {
        '3'
    } else if d == 4 {
        '4'
    } else if d == 5 {
        '5'
    } else if d == 6 {
        '6'
    } else if d == 7 {
        '7'
    } else if d == 8 {
        '8'
    } else {
        '9'
    }
}

/// Decimal representation of a natural number, most significant digit first.
pub open spec fn dec_str(n: nat) -> Seq<char>
    decreases n,
{
    if n < 10 {
        seq![digit_char(n)]
    } else {
        dec_str(n / 10).push(digit_char(n % 10))
    }
}

/// Decimal digit test.
pub open spec fn is_dec_digit(c: char) -> bool {
    '0' <= c && c <= '9'
}

/// Numeric value of one decimal digit character.
pub open spec fn digit_val(c: char) -> nat
    recommends
        is_dec_digit(c),
{
    (c as nat - '0' as nat) as nat
}

/// The numeric code of a character equals its mathematical value.
proof fn lemma_char_cast(c: char)
    ensures
        c as u32 == c as nat,
{
}

/// Connects a character's numeric code with its decimal-digit reading.
proof fn lemma_digit_code(c: char)
    ensures
        is_dec_digit(c) == (48 <= c as u32 && c as u32 <= 57),
        is_dec_digit(c) ==> digit_val(c) + 48 == c as u32,
{
}

/// True when every character of `s` is a decimal digit.
pub open spec fn all_digits(s: Seq<char>) -> bool {
    forall|i: int| 0 <= i < s.len() ==> is_dec_digit(#[trigger] s[i])
}

/// Numeric value of a digit string, most significant digit first.
pub open spec fn digits_val(s: Seq<char>) -> nat
    recommends
        all_digits(s),
    decreases s.len(),
{
    if s.len() == 0 {
        0
    } else {
        digits_val(s.drop_last()) * 10 + digit_val(s.last())
    }
}

pub proof fn lemma_dec_str_digits(n: nat)
    ensures
        all_digits(dec_str(n)),
        dec_str(n).len() >= 1,
        n >= 10 ==> dec_str(n).len() >= 2,
    decreases n,
{
    if n >= 10 {
        lemma_dec_str_digits(n / 10);
        assert(forall|i: int|
            0 <= i < dec_str(n).len() - 1 ==> #[trigger] dec_str(n)[i] == dec_str(n / 10)[i]);
    }
}

/// Parsing a decimal representation recovers the number.
pub proof fn lemma_dec_str_val(n: nat)
    ensures
        digits_val(dec_str(n)) == n,
    decreases n,
{
    if n < 10 {
        let s = dec_str(n);
        assert(s.drop_last() =~= Seq::<char>::empty());
        assert(digits_val(s) == digits_val(s.drop_last()) * 10 + digit_val(s.last()));
        assert(digit_val(digit_char(n)) == n);
    } else {
        lemma_dec_str_val(n / 10);
        let s = dec_str(n);
        assert(s == dec_str(n / 10).push(digit_char(n % 10)));
        assert(s.drop_last() =~= dec_str(n / 10));
        assert(s.last() == digit_char(n % 10));
        assert(digits_val(s) == digits_val(s.drop_last()) * 10 + digit_val(s.last()));
        assert(digit_val(digit_char(n % 10)) == n % 10);
        assert(n / 10 * 10 + n % 10 == n) by (nonlinear_arith);
    }
}

/// Decimal representation is injective.
pub proof fn lemma_dec_str_injective(a: nat, b: nat)
    requires
        dec_str(a) == dec_str(b),
    ensures
        a == b,
{
    lemma_dec_str_val(a);
    lemma_dec_str_val(b);
}

/// Computes the decimal representation of `n`.
pub fn dec_chars(n: u128) -> (r: Vec<char>)
    ensures
        r@ == dec_str(n as nat),
    decreases n,
{
    if n < 10 {
        let c = digit_of(n as u64);
        let mut r: Vec<char> = Vec::new();
        r.push(c);
        proof {
            assert(r@ =~= dec_str(n as nat));
        }
        r
    } else {
        let mut r = dec_chars(n / 10);
        let c = digit_of((n % 10) as u64);
        r.push(c);
        r
    }
}

/// Computes the character of one decimal digit.
fn digit_of(d: u64) -> (c: char)
    requires
        d < 10,
    ensures
        c == digit_char(d as nat),
{
    if d == 0 {
        '0'
    } else if d == 1 {
        '1'
    } else if d == 2 {
        '2'
    } else if d == 3 {
        '3'
    } else if d == 4 {
        '4'
    } else if d == 5 {
        '5'
    } else if d == 6 {
        '6'
    } else if d == 7 {
        '7'
    } else if d == 8 {
        '8'
    } else {
        '9'
    }
}

/// The value of a digit string only grows when digits are appended.
proof fn lemma_digits_val_prefix(s: Seq<char>, i: int)
    requires
        0 <= i <= s.len(),
    ensures
        digits_val(s) >= digits_val(s.take(i)),
    decreases s.len() - i,
{
    if i < s.len() {
        lemma_digits_val_prefix(s, i + 1);
        assert(s.take(i + 1).drop_last() =~= s.take(i));
        assert(digits_val(s.take(i + 1)) == digits_val(s.take(i)) * 10 + digit_val(
            s.take(i + 1).last(),
        ));
        assert(digits_val(s.take(i)) * 10 >= digits_val(s.take(i))) by (nonlinear_arith);
    } else {
        assert(s.take(i) =~= s);
    }
}

/// Parses a non-empty digit string as a `usize`; rejects any other input.
pub fn parse_usize(v: &Vec<char>) -> (r: Option<usize>)
    ensures
        match r {
            Some(n) => v@.len() > 0 && all_digits(v@) && n == digits_val(v@),
            None => !(v@.len() > 0 && all_digits(v@) && digits_val(v@) <= usize::MAX),
        },
{
    if v.len() == 0 {
        return None;
    }
    let mut acc: usize = 0;
    let mut i: usize = 0;
    while i < v.len()
        invariant
            i <= v@.len(),
            acc == digits_val(v@.take(i as int)),
            all_digits(v@.take(i as int)),
        decreases v@.len() - i,
    {
        let c = v[i];
        let code = c as u32;
        proof {
            lemma_digit_code(c);
        }
        if code < 48 || code > 57 {
            proof {
                assert(!is_dec_digit(v@[i as int]));
            }
            return None;
        }
        let d = (code - 48) as usize;
        let next = match acc.checked_mul(10) {
            Some(m) => m.checked_add(d),
            None => None,
        };
        match next {
            Some(x) => {
                proof {
                    let pre = v@.take(i as int + 1);
                    assert(pre.drop_last() =~= v@.take(i as int));
                    assert(pre.last() == v@[i as int]);
                    assert(digits_val(pre) == digits_val(v@.take(i as int)) * 10 + digit_val(
                        v@[i as int],
                    ));
                    assert(digit_val(v@[i as int]) == d);
                    assert(forall|j: int| 0 <= j < i + 1 ==> is_dec_digit(#[trigger] pre[j]));
                }
                acc = x;
                i = i + 1;
            },
            None => {
                proof {
                    let pre = v@.take(i as int + 1);
                    assert(pre.drop_last() =~= v@.take(i as int));
                    assert(pre.last() == v@[i as int]);
                    assert(digits_val(pre) == acc * 10 + digit_val(v@[i as int]));
                    assert(digit_val(v@[i as int]) == d);
                    assert(digits_val(pre) > usize::MAX);
                    if all_digits(v@) && digits_val(v@) <= usize::MAX {
                        lemma_digits_val_prefix(v@, i as int + 1);
                    }
                }
                return None;
            },
        }
    }
    proof {
        assert(v@.take(i as int) =~= v@);
    }
    Some(acc)
}

// ------------------------------------------------------------------
// HTML and href escaping.
// ------------------------------------------------------------------

/// HTML escape of one character: the four special HTML bytes become
/// entities, everything else stands unchanged.
pub open spec fn html_escape_char(c: char) -> Seq<char> {
    if c == '&' {
        seq!['&', 'a', 'm', 'p', ';']
    } else if c == '<' {
        seq!['&', 'l', 't', ';']
    } else if c == '>' {
        seq!['&', 'g', 't', ';']
    } else if c == '"' {
        seq!['&', 'q', 'u', 'o', 't', ';']
    } else {
        seq![c]
    }
}

/// HTML escape of a string: each character escaped in place.
pub open spec fn html_escaped(s: Seq<char>) -> Seq<char>
    decreases s.len(),
{
    if s.len() == 0 {
        Seq::empty()
    } else {
        html_escaped(s.drop_last()) + html_escape_char(s.last())
    }
}

/// Escapes the four special HTML characters of `s` and appends the result
/// to `out`.
pub fn push_html_escaped(out: &mut Vec<char>, s: &Vec<char>)
    ensures
        final(out)@ == old(out)@ + html_escaped(s@),
{
    let mut i: usize = 0;
    while i < s.len()
        invariant
            i <= s@.len(),
            out@ == old(out)@ + html_escaped(s@.take(i as int)),
        decreases s@.len() - i,
    {
        let c = s[i];
        if c == '&' {
            out.push('&');
            out.push('a');
            out.push('m');
            out.push('p');
            out.push(';');
        } else if c == '<' {
            out.push('&');
            out.push('l');
            out.push('t');
            out.push(';');
        } else if c == '>' {
            out.push('&');
            out.push('g');
            out.push('t');
            out.push(';');
        } else if c == '"' {
            out.push('&');
            out.push('q');
            out.push('u');
            out.push('o');
            out.push('t');
            out.push(';');
        } else {
            out.push(c);
        }
        i = i + 1;
        proof {
            assert(s@.take(i as int).drop_last() =~= s@.take(i as int - 1));
            assert(out@ =~= old(out)@ + html_escaped(s@.take(i as int)));
        }
    }
    proof {
        assert(s@.take(i as int) =~= s@);
    }
}

/// The uppercase hexadecimal character of a value below 16.
pub open spec fn hex_char(d: nat) -> char
    recommends
        d < 16,
{
    if d < 10 {
        digit_char(d)
    } else if d == 10 {
        'A'
    } else if d == 11 {
        'B'
    } else if d == 12 {
        'C'
    } else if d == 13 {
        'D'
    } else if d == 14 {
        'E'
    } else {
        'F'
    }
}

/// True for ASCII characters that need no escaping inside an href
/// attribute value.
pub open spec fn href_safe(c: char) -> bool {
    ('0' <= c && c <= '9') || ('a' <= c && c <= 'z') || ('A' <= c && c <= 'Z') || c == '!' || c
        == '#' || c == '$' || c == '%' || c == '(' || c == ')' || c == '*' || c == '+' || c == ','
        || c == '-' || c == '.' || c == '/' || c == ':' || c == ';' || c == '=' || c == '?' || c
        == '@' || c == '_'
}

/// Href escape of one character: `&` and `'` become entities, unsafe ASCII
/// characters are percent-encoded, non-ASCII characters stand unchanged.
pub open spec fn href_escape_char(c: char) -> Seq<char> {
    if c == '&' {
        seq!['&', 'a', 'm', 'p', ';']
    } else if c == '\'' {
        seq!['&', '#', 'x', '2', '7', ';']
    } else if (c as nat) < 128 && !href_safe(c) {
        seq!['%', hex_char((c as nat) / 16), hex_char((c as nat) % 16)]
    } else {
        seq![c]
    }
}

/// Href escape of a string: each character escaped in place.
pub open spec fn href_escaped(s: Seq<char>) -> Seq<char>
    decreases s.len(),
{
    if s.len() == 0 {
        Seq::empty()
    } else {
        href_escaped(s.drop_last()) + href_escape_char(s.last())
    }
}

/// Computes the uppercase hexadecimal character of a value below 16.
fn hex_of(d: u32) -> (c: char)
    requires
        d < 16,
    ensures
        c == hex_char(d as nat),
{
    if d < 10 {
        digit_of(d as u64)
    } else if d == 10 {
        'A'
    } else if d == 11 {
        'B'
    } else if d == 12 {
        'C'
    } else if d == 13 {
        'D'
    } else if d == 14 {
        'E'
    } else {
        'F'
    }
}

/// Decides whether an ASCII character is href-safe.
fn is_href_safe(c: char) -> (r: bool)
    ensures
        r == href_safe(c),
{
    ('0' <= c && c <= '9') || ('a' <= c && c <= 'z') || ('A' <= c && c <= 'Z') || c == '!' || c
        == '#' || c == '$' || c == '%' || c == '(' || c == ')' || c == '*' || c == '+' || c == ','
        || c == '-' || c == '.' || c == '/' || c == ':' || c == ';' || c == '=' || c == '?' || c
        == '@' || c == '_'
}

/// Escapes `s` for use inside an href attribute value and appends the
/// result to `out`.
pub fn push_href_escaped(out: &mut Vec<char>, s: &Vec<char>)
    ensures
        final(out)@ == old(out)@ + href_escaped(s@),
{
    let mut i: usize = 0;
    while i < s.len()
        invariant
            i <= s@.len(),
            out@ == old(out)@ + href_escaped(s@.take(i as int)),
        decreases s@.len() - i,
    {
        let c = s[i];
        proof {
            lemma_char_cast(c);
        }
        if c == '&' {
            out.push('&');
            out.push('a');
            out.push('m');
            out.push('p');
            out.push(';');
        } else if c == '\'' {
            out.push('&');
            out.push('#');
            out.push('x');
            out.push('2');
            out.push('7');
            out.push(';');
        } else if (c as u32) < 128 && !is_href_safe(c) {
            let code = c as u32;
            out.push('%');
            out.push(hex_of(code / 16));
            out.push(hex_of(code % 16));
        } else {
            out.push(c);
        }
        i = i + 1;
        proof {
            assert(s@.take(i as int).drop_last() =~= s@.take(i as int - 1));
            assert(out@ =~= old(out)@ + href_escaped(s@.take(i as int)));
        }
    }
    proof {
        assert(s@.take(i as int) =~= s@);
    }
}


/// Escape of one character inside rendered code: besides the four special
/// HTML bytes, the apostrophe and the slash become entities too.
pub open spec fn code_escape_char(c: char) -> Seq<char> {
    if c == '&' {
        seq!['&', 'a', 'm', 'p', ';']
    } else if c == '<' {
        seq!['&', 'l', 't', ';']
    } else if c == '>' {
        seq!['&', 'g', 't', ';']
    } else if c == '"' {
        seq!['&', 'q', 'u', 'o', 't', ';']
    } else if c == '\'' {
        seq!['&', '#', 'x', '2', '7', ';']
    } else if c == '/' {
        seq!['&', '#', 'x', '2', 'F', ';']
    } else {
        seq![c]
    }
}

/// Code escape of a string: each character escaped in place.
pub open spec fn code_escaped(s: Seq<char>) -> Seq<char>
    decreases s.len(),
{
    if s.len() == 0 {
        Seq::empty()
    } else {
        code_escaped(s.drop_last()) + code_escape_char(s.last())
    }
}

/// Escapes the six code-special characters of `s` and appends the result
/// to `out`.
pub fn push_code_escaped(out: &mut Vec<char>, s: &Vec<char>)
    ensures
        final(out)@ == old(out)@ + code_escaped(s@),
{
    let mut i: usize = 0;
    while i < s.len()
        invariant
            i <= s@.len(),
            out@ == old(out)@ + code_escaped(s@.take(i as int)),
        decreases s@.len() - i,
    {
        let c = s[i];
        if c == '&' {
            out.push('&');
            out.push('a');
            out.push('m');
            out.push('p');
            out.push(';');
        } else if c == '<' {
            out.push('&');
            out.push('l');
            out.push('t');
            out.push(';');
        } else if c == '>' {
            out.push('&');
            out.push('g');
            out.push('t');
            out.push(';');
        } else if c == '"' {
            out.push('&');
            out.push('q');
            out.push('u');
            out.push('o');
            out.push('t');
            out.push(';');
        } else if c == '\'' {
            out.push('&');
            out.push('#');
            out.push('x');
            out.push('2');
            out.push('7');
            out.push(';');
        } else if c == '/' {
            out.push('&');
            out.push('#');
            out.push('x');
            out.push('2');
            out.push('F');
            out.push(';');
        } else {
            out.push(c);
        }
        i = i + 1;
        proof {
            assert(s@.take(i as int).drop_last() =~= s@.take(i as int - 1));
            assert(out@ =~= old(out)@ + code_escaped(s@.take(i as int)));
        }
    }
    proof {
        assert(s@.take(i as int) =~= s@);
    }
}

// ------------------------------------------------------------------
// Whitespace trimming.
// ------------------------------------------------------------------

/// ASCII whitespace test.
pub open spec fn is_space(c: char) -> bool {
    c == ' ' || c == '\t' || c == '\r' || c == '\n'
}

/// `s` with leading and trailing ASCII whitespace removed.
pub open spec fn trimmed(s: Seq<char>) -> Seq<char>
    decreases s.len(),
{
    if s.len() == 0 {
        s
    } else if is_space(s[0]) {
        trimmed(s.drop_first())
    } else if is_space(s.last()) {
        trimmed(s.drop_last())
    } else {
        s
    }
}

/// Removes leading and trailing ASCII whitespace.
pub fn trim_chars(s: &Vec<char>) -> (r: Vec<char>)
    ensures
        r@ == trimmed(s@),
        r@.len() > 0 ==> !is_space(r@[0]) && !is_space(r@[r@.len() - 1]),
{
    let mut lo: usize = 0;
    let mut hi: usize = s.len();
    proof {
        assert(s@.subrange(0, s@.len() as int) =~= s@);
    }
    while lo < hi && is_space_exec(s[lo])
        invariant
            lo <= hi <= s@.len(),
            trimmed(s@) == trimmed(s@.subrange(lo as int, hi as int)),
        decreases hi - lo,
    {
        proof {
            assert(s@.subrange(lo as int, hi as int).drop_first() =~= s@.subrange(
                lo as int + 1,
                hi as int,
            ));
        }
        lo = lo + 1;
    }
    while lo < hi && is_space_exec(s[hi - 1])
        invariant
            lo <= hi <= s@.len(),
            trimmed(s@) == trimmed(s@.subrange(lo as int, hi as int)),
            lo < hi ==> !is_space(s@[lo as int]),
        decreases hi - lo,
    {
        proof {
            assert(s@.subrange(lo as int, hi as int).drop_last() =~= s@.subrange(
                lo as int,
                hi as int - 1,
            ));
        }
        hi = hi - 1;
    }
    let mut r: Vec<char> = Vec::new();
    let mut i: usize = lo;
    while i < hi
        invariant
            lo <= i <= hi <= s@.len(),
            r@ == s@.subrange(lo as int, i as int),
        decreases hi - i,
    {
        r.push(s[i]);
        i = i + 1;
        proof {
            assert(s@.subrange(lo as int, i as int) =~= s@.subrange(lo as int, i as int - 1).push(
                s@[i as int - 1],
            ));
        }
    }
    proof {
        let mid = s@.subrange(lo as int, hi as int);
        assert(trimmed(mid) == mid);
    }
    r
}

/// Decides ASCII whitespace.
pub fn is_space_exec(c: char) -> (r: bool)
    ensures
        r == is_space(c),
{
    c == ' ' || c == '\t' || c == '\r' || c == '\n'
}


// ------------------------------------------------------------------
// Splitting on a separator character, and joining back.
// ------------------------------------------------------------------

/// True when `sep` does not occur in `s`.
pub open spec fn sep_free(s: Seq<char>, sep: char) -> bool {
    forall|i: int| 0 <= i < s.len() ==> s[i] != sep
}

/// Index of the first occurrence of `sep` in `s`, or `-1` when absent.
pub open spec fn find_char_spec(s: Seq<char>, sep: char) -> int
    decreases s.len(),
{
    if s.len() == 0 {
        -1
    } else if s[0] == sep {
        0
    } else if find_char_spec(s.drop_first(), sep) < 0 {
        -1
    } else {
        find_char_spec(s.drop_first(), sep) + 1
    }
}

/// What the first-occurrence index means.
pub proof fn lemma_find_char(s: Seq<char>, sep: char)
    ensures
        find_char_spec(s, sep) < 0 ==> sep_free(s, sep),
        find_char_spec(s, sep) >= 0 ==> {
            let i = find_char_spec(s, sep);
            0 <= i < s.len() && s[i] == sep && (forall|j: int| 0 <= j < i ==> s[j] != sep)
        },
    decreases s.len(),
{
    if s.len() > 0 && s[0] != sep {
        lemma_find_char(s.drop_first(), sep);
        assert(forall|j: int| 1 <= j < s.len() ==> s[j] == s.drop_first()[j - 1]);
    }
}

/// `s` split on `sep`: the separators are dropped, empty pieces are kept,
/// so the result always holds one piece more than `s` holds separators.
pub open spec fn split_char(s: Seq<char>, sep: char) -> Seq<Seq<char>>
    decreases s.len(),
{
    let i = find_char_spec(s, sep);
    if 0 <= i && i < s.len() {
        seq![s.take(i)] + split_char(s.skip(i + 1), sep)
    } else {
        seq![s]
    }
}

/// The pieces joined with `sep` between them.
pub open spec fn join_char(toks: Seq<Seq<char>>, sep: char) -> Seq<char>
    decreases toks.len(),
{
    if toks.len() == 0 {
        Seq::empty()
    } else if toks.len() == 1 {
        toks[0]
    } else {
        toks[0] + seq![sep] + join_char(toks.drop_first(), sep)
    }
}

/// The first occurrence of `sep` in `a + [sep] + b` with `a` free of `sep`
/// is right after `a`.
pub proof fn lemma_find_char_concat(a: Seq<char>, b: Seq<char>, sep: char)
    requires
        sep_free(a, sep),
    ensures
        find_char_spec(a + seq![sep] + b, sep) == a.len(),
    decreases a.len(),
{
    let s = a + seq![sep] + b;
    if a.len() == 0 {
        assert(s[0] == sep);
    } else {
        lemma_find_char_concat(a.drop_first(), b, sep);
        assert(s[0] != sep);
        assert(s.drop_first() =~= a.drop_first() + seq![sep] + b);
    }
}

/// Splitting a separator-free piece yields just that piece.
pub proof fn lemma_split_single(a: Seq<char>, sep: char)
    requires
        sep_free(a, sep),
    ensures
        split_char(a, sep) == seq![a],
{
    lemma_find_char(a, sep);
    if find_char_spec(a, sep) >= 0 {
        assert(a[find_char_spec(a, sep)] == sep);
    }
}

/// Splitting `a + [sep] + b` peels off the separator-free piece `a`.
pub proof fn lemma_split_at(a: Seq<char>, b: Seq<char>, sep: char)
    requires
        sep_free(a, sep),
    ensures
        split_char(a + seq![sep] + b, sep) == seq![a] + split_char(b, sep),
{
    let s = a + seq![sep] + b;
    lemma_find_char_concat(a, b, sep);
    assert(s.take(a.len() as int) =~= a);
    assert(s.skip(a.len() as int + 1) =~= b);
}

/// Splitting undoes joining when every piece is separator-free.
pub proof fn lemma_split_join(toks: Seq<Seq<char>>, sep: char)
    requires
        toks.len() > 0,
        forall|i: int| 0 <= i < toks.len() ==> sep_free(#[trigger] toks[i], sep),
    ensures
        split_char(join_char(toks, sep), sep) == toks,
    decreases toks.len(),
{
    if toks.len() == 1 {
        lemma_split_single(toks[0], sep);
        assert(seq![toks[0]] =~= toks);
    } else {
        lemma_split_join(toks.drop_first(), sep);
        lemma_split_at(toks[0], join_char(toks.drop_first(), sep), sep);
        assert(seq![toks[0]] + toks.drop_first() =~= toks);
    }
}

/// `s` split after each newline, the newline kept with its line; an empty
/// input has no lines.
pub open spec fn split_lines(s: Seq<char>) -> Seq<Seq<char>>
    decreases s.len(),
{
    if s.len() == 0 {
        Seq::empty()
    } else {
        let i = find_char_spec(s, '\n');
        if 0 <= i && i < s.len() - 1 {
            seq![s.take(i + 1)] + split_lines(s.skip(i + 1))
        } else {
            seq![s]
        }
    }
}

/// Splitting a line that ends in a newline off the front.
proof fn lemma_split_lines_step(cur: Seq<char>, tail: Seq<char>)
    requires
        cur.len() > 0,
        cur.last() == '\n',
        sep_free(cur.drop_last(), '\n'),
    ensures
        split_lines(cur + tail) == seq![cur] + split_lines(tail),
{
    let rest = cur + tail;
    assert(rest =~= cur.drop_last() + seq!['\n'] + tail);
    lemma_find_char_concat(cur.drop_last(), tail, '\n');
    let i = find_char_spec(rest, '\n');
    assert(i == cur.len() - 1);
    if tail.len() > 0 {
        assert(rest.take(i + 1) =~= cur);
        assert(rest.skip(i + 1) =~= tail);
    } else {
        assert(rest =~= cur);
        assert(seq![cur] + split_lines(tail) =~= seq![cur]);
    }
}

/// Splits `s` on `sep`, dropping the separators and keeping empty pieces.
pub fn split_chars(s: &Vec<char>, sep: char) -> (r: Vec<Vec<char>>)
    ensures
        r.deep_view() == split_char(s@, sep),
{
    let mut out: Vec<Vec<char>> = Vec::new();
    let mut cur: Vec<char> = Vec::new();
    let mut i: usize = 0;
    let ghost mut start: int = 0;
    proof {
        assert(s@.skip(0) =~= s@);
        assert(out.deep_view() =~~= Seq::<Seq<char>>::empty());
        assert(out.deep_view() + split_char(s@, sep) =~= split_char(s@, sep));
    }
    while i < s.len()
        invariant
            0 <= start <= i <= s@.len(),
            cur@ == s@.subrange(start, i as int),
            sep_free(cur@, sep),
            split_char(s@, sep) == out.deep_view() + split_char(s@.skip(start), sep),
        decreases s@.len() - i,
    {
        let c = s[i];
        if c == sep {
            proof {
                assert(s@.skip(start) =~= cur@ + seq![sep] + s@.skip(i as int + 1));
                lemma_split_at(cur@, s@.skip(i as int + 1), sep);
            }
            let ghost old_dv = out.deep_view();
            let ghost cv = cur@;
            out.push(cur);
            cur = Vec::new();
            i = i + 1;
            proof {
                start = i as int;
                assert(out.deep_view() =~~= old_dv.push(cv));
                assert(out.deep_view() + split_char(s@.skip(start), sep) =~= old_dv + (seq![cv]
                    + split_char(s@.skip(start), sep)));
            }
        } else {
            cur.push(c);
            i = i + 1;
            proof {
                assert(cur@ =~= s@.subrange(start, i as int));
            }
        }
    }
    proof {
        assert(s@.skip(start) =~= cur@);
        lemma_split_single(cur@, sep);
    }
    let ghost old_dv = out.deep_view();
    let ghost cv = cur@;
    out.push(cur);
    proof {
        assert(out.deep_view() =~~= old_dv.push(cv));
        assert(out.deep_view() =~= split_char(s@, sep));
    }
    out
}

/// Splits `s` into lines, each keeping its trailing newline if it has one.
pub fn split_lines_exec(s: &Vec<char>) -> (r: Vec<Vec<char>>)
    ensures
        r.deep_view() == split_lines(s@),
{
    let mut out: Vec<Vec<char>> = Vec::new();
    let mut cur: Vec<char> = Vec::new();
    let mut i: usize = 0;
    let ghost mut start: int = 0;
    proof {
        assert(s@.skip(0) =~= s@);
        assert(out.deep_view() =~~= Seq::<Seq<char>>::empty());
        assert(out.deep_view() + split_lines(s@) =~= split_lines(s@));
    }
    while i < s.len()
        invariant
            0 <= start <= i <= s@.len(),
            cur@ == s@.subrange(start, i as int),
            sep_free(cur@, '\n'),
            split_lines(s@) == out.deep_view() + split_lines(s@.skip(start)),
        decreases s@.len() - i,
    {
        let c = s[i];
        cur.push(c);
        i = i + 1;
        if c == '\n' {
            proof {
                assert(cur@.drop_last() =~= s@.subrange(start, i as int - 1));
                assert(s@.skip(start) =~= cur@ + s@.skip(i as int));
                lemma_split_lines_step(cur@, s@.skip(i as int));
            }
            let ghost old_dv = out.deep_view();
            let ghost cv = cur@;
            out.push(cur);
            cur = Vec::new();
            proof {
                start = i as int;
                assert(out.deep_view() =~~= old_dv.push(cv));
                assert(out.deep_view() + split_lines(s@.skip(start)) =~= old_dv + (seq![cv]
                    + split_lines(s@.skip(start))));
            }
        } else {
            proof {
                assert(cur@ =~= s@.subrange(start, i as int));
            }
        }
    }
    if cur.len() > 0 {
        proof {
            let rest = s@.skip(start);
            assert(rest =~= cur@);
            lemma_find_char(rest, '\n');
            let fi = find_char_spec(rest, '\n');
            if 0 <= fi && fi < rest.len() - 1 {
                assert(rest[fi] == '\n');
            }
            assert(split_lines(rest) == seq![rest]);
        }
        let ghost old_dv = out.deep_view();
        let ghost cv = cur@;
        out.push(cur);
        proof {
            assert(out.deep_view() =~~= old_dv.push(cv));
        }
    } else {
        proof {
            assert(s@.skip(start) =~= cur@);
        }
    }
    proof {
        assert(out.deep_view() =~= split_lines(s@));
    }
    out
}


/// The first-occurrence index is the unique position that is a separator
/// with none before it.
pub proof fn lemma_find_char_unique(s: Seq<char>, sep: char, i: int)
    requires
        0 <= i < s.len(),
        s[i] == sep,
        forall|j: int| 0 <= j < i ==> s[j] != sep,
    ensures
        find_char_spec(s, sep) == i,
{
    lemma_find_char(s, sep);
    let f = find_char_spec(s, sep);
    if f < 0 {
        assert(s[i] != sep);
    } else if f < i {
        assert(s[f] != sep);
    } else if i < f {
        assert(s[i] != sep);
    }
}

/// Finds the first occurrence of the character `sep` in `s`.
pub fn find_char(s: &Vec<char>, sep: char) -> (r: Option<usize>)
    ensures
        match r {
            Some(i) => i == find_char_spec(s@, sep) && i < s@.len(),
            None => find_char_spec(s@, sep) < 0,
        },
{
    let mut i: usize = 0;
    while i < s.len()
        invariant
            i <= s@.len(),
            forall|j: int| 0 <= j < i ==> s@[j] != sep,
        decreases s@.len() - i,
    {
        if s[i] == sep {
            proof {
                lemma_find_char_unique(s@, sep, i as int);
            }
            return Some(i);
        }
        i = i + 1;
    }
    proof {
        lemma_find_char(s@, sep);
        let f = find_char_spec(s@, sep);
        if f >= 0 {
            assert(s@[f] != sep);
        }
    }
    None
}

/// Copies the piece of `v` between `from` and `to`.
pub fn sub_vec(v: &Vec<char>, from: usize, to: usize) -> (r: Vec<char>)
    requires
        from <= to <= v@.len(),
    ensures
        r@ == v@.subrange(from as int, to as int),
{
    let mut r: Vec<char> = Vec::new();
    let mut i: usize = from;
    while i < to
        invariant
            from <= i <= to <= v@.len(),
            r@ == v@.subrange(from as int, i as int),
        decreases to - i,
    {
        r.push(v[i]);
        i = i + 1;
        proof {
            assert(r@ =~= v@.subrange(from as int, i as int));
        }
    }
    r
}

/// Joins pieces with `sep` between them.
pub fn join_chars(toks: &Vec<Vec<char>>, sep: char) -> (r: Vec<char>)
    ensures
        r@ == join_char(toks.deep_view(), sep),
{
    let ghost full = toks.deep_view();
    let mut r: Vec<char> = Vec::new();
    let mut i: usize = 0;
    proof {
        assert(full.skip(0) =~= full);
        assert(Seq::<char>::empty() + join_char(full, sep) =~= join_char(full, sep));
    }
    while i < toks.len()
        invariant
            i <= toks@.len(),
            full == toks.deep_view(),
            full.len() == toks@.len(),
            join_char(full, sep) == r@ + join_char(full.skip(i as int), sep),
        decreases toks@.len() - i,
    {
        let ghost r0 = r@;
        proof {
            assert(full[i as int] == toks@[i as int].deep_view());
            assert(toks@[i as int].deep_view() =~= toks@[i as int]@);
            assert(full.skip(i as int).drop_first() =~= full.skip(i as int + 1));
        }
        append_chars(&mut r, &toks[i]);
        i = i + 1;
        if i < toks.len() {
            r.push(sep);
            proof {
                assert(join_char(full.skip(i as int - 1), sep) == full[i as int - 1] + seq![sep]
                    + join_char(full.skip(i as int), sep));
                assert(r@ + join_char(full.skip(i as int), sep) =~= r0 + join_char(
                    full.skip(i as int - 1),
                    sep,
                ));
            }
        } else {
            proof {
                assert(join_char(full.skip(i as int - 1), sep) == full[i as int - 1]);
                assert(full.skip(i as int) =~= Seq::<Seq<char>>::empty());
                assert(r@ + join_char(full.skip(i as int), sep) =~= r0 + join_char(
                    full.skip(i as int - 1),
                    sep,
                ));
            }
        }
    }
    proof {
        if toks@.len() == 0 {
            assert(r@ =~= join_char(full, sep));
        } else {
            assert(full.skip(i as int) =~= Seq::<Seq<char>>::empty());
            assert(r@ + join_char(full.skip(i as int), sep) =~= r@);
        }
    }
    r
}


// ------------------------------------------------------------------
// Removing every occurrence of a pattern.
// ------------------------------------------------------------------

/// The first occurrence index is unique.
pub proof fn lemma_first_at_unique(s: Seq<char>, p: Seq<char>, i: int, j: int)
    requires
        first_at(s, p, i),
        first_at(s, p, j),
    ensures
        i == j,
{
}

/// `s` with every occurrence of the non-empty pattern `p` removed, the
/// occurrences found left to right.
pub open spec fn remove_all(s: Seq<char>, p: Seq<char>) -> Seq<char>
    recommends
        p.len() > 0,
    decreases s.len(),
{
    if p.len() == 0 {
        s
    } else if contains_seq(s, p) {
        let i = choose|i: int| first_at(s, p, i);
        if 0 <= i && i + p.len() <= s.len() {
            s.take(i) + remove_all(s.skip(i + p.len()), p)
        } else {
            s
        }
    } else {
        s
    }
}

/// One removal step, phrased over the first occurrence.
pub proof fn lemma_remove_all_step(s: Seq<char>, p: Seq<char>, i: int)
    requires
        p.len() > 0,
        first_at(s, p, i),
    ensures
        remove_all(s, p) == s.take(i) + remove_all(s.skip(i + p.len()), p),
{
    let w = choose|w: int| first_at(s, p, w);
    assert(first_at(s, p, w)) by {
        assert(sub_at(s, p, i));
    }
    lemma_first_at_unique(s, p, i, w);
}

/// Removes every occurrence of the non-empty pattern `p` from `s`.
pub fn remove_all_chars(s: &Vec<char>, p: &Vec<char>) -> (r: Vec<char>)
    requires
        p@.len() > 0,
    ensures
        r@ == remove_all(s@, p@),
{
    let mut out: Vec<char> = Vec::new();
    let mut rest = sub_vec(s, 0, s.len());
    proof {
        assert(rest@ =~= s@);
        assert(out@ + remove_all(rest@, p@) =~= remove_all(s@, p@));
    }
    loop
        invariant
            p@.len() > 0,
            remove_all(s@, p@) == out@ + remove_all(rest@, p@),
        decreases rest@.len(),
    {
        match find_sub(&rest, p) {
            Some(i) => {
                proof {
                    lemma_remove_all_step(rest@, p@, i as int);
                    assert(rest.len() == rest@.len());
                }
                let head = sub_vec(&rest, 0, i);
                let tail = sub_vec(&rest, i + p.len(), rest.len());
                proof {
                    assert(head@ =~= rest@.take(i as int));
                    assert(tail@ =~= rest@.skip(i as int + p@.len()));
                }
                append_chars(&mut out, &head);
                proof {
                    assert(out@ + remove_all(tail@, p@) =~= remove_all(s@, p@));
                }
                rest = tail;
            },
            None => {
                append_chars(&mut out, &rest);
                proof {
                    assert(out@ =~= remove_all(s@, p@));
                }
                return out;
            },
        }
    }
}


/// True when `p` is a suffix of `s`.
pub open spec fn has_suffix(s: Seq<char>, p: Seq<char>) -> bool {
    p.len() <= s.len() && s.skip(s.len() - p.len()) == p
}

/// Suffix test over character vectors.
pub fn slice_has_suffix(s: &Vec<char>, p: &Vec<char>) -> (r: bool)
    ensures
        r == has_suffix(s@, p@),
{
    if p.len() > s.len() {
        return false;
    }
    let tail = sub_vec(s, s.len() - p.len(), s.len());
    proof {
        assert(tail@ =~= s@.skip(s@.len() - p@.len()));
    }
    chars_eq(&tail, p)
}


/// An href made of safe characters alone is rendered unchanged: escaping
/// it is the identity. In particular every `http`/`https` destination
/// without characters the URL escaping rewrites passes through as it stands.
pub proof fn lemma_href_escaped_identity(s: Seq<char>)
    requires
        forall|i: int| 0 <= i < s.len() ==> href_safe(#[trigger] s[i]),
    ensures
        href_escaped(s) == s,
    decreases s.len(),
{
    if s.len() > 0 {
        lemma_href_escaped_identity(s.drop_last());
        assert(href_escape_char(s.last()) == seq![s.last()]);
        assert(href_escaped(s) =~= s);
    }
}

} // verus!
