use vstd::prelude::*;
use vstd::utf8::*;
use crate::filter::{accepted, excluded_words};
use crate::keys::{format_key, key_of};
use crate::models::{QuoteType, TranslationKey, TranslationKeyWithPosition};
use crate::keys::{char_is_space, is_space};
use crate::text::{lemma_prefix_boundary, chars_of, contains_text, owned, string_of, text_eq, has_infix, lemma_utf8_concat, matches_at, occurs_at, utf8};

verus! {

/// Finds translatable literals in JavaScript, TypeScript, JSX, Vue and HTML text.
pub struct SwcStringExtractor;

/// The byte offset of the character at index `i`.
pub open spec fn byte_at(s: Seq<char>, i: int) -> int {
    utf8(s.take(i)).len() as int
}

/// The number of line breaks in a text.
pub open spec fn newlines(s: Seq<char>) -> nat {
    s.filter(|c: char| c == '\n').len()
}

/// How many lines `str::lines` finds in a text.
pub open spec fn line_count(s: Seq<char>) -> nat {
    newlines(s) + if s.len() > 0 && s.last() != '\n' {
        1nat
    } else {
        0nat
    }
}

/// Byte offsets grow with the character index, up to the length in bytes.
pub proof fn lemma_byte_at_monotone(s: Seq<char>, a: int, b: int)
    requires
        0 <= a <= b <= s.len(),
    ensures
        0 <= byte_at(s, a) <= byte_at(s, b) <= utf8(s).len(),
{
    lemma_utf8_concat(s.take(a), s.subrange(a, b));
    assert(s.take(a) + s.subrange(a, b) =~= s.take(b));
    lemma_utf8_concat(s.take(b), s.skip(b));
    assert(s.take(b) + s.skip(b) =~= s);
}

/// The number of bytes that UTF-8 needs for a character.
fn char_width(c: char) -> (r: usize)
    ensures
        r == utf8(seq![c]).len(),
        1 <= r <= 4,
{
    proof {
        char_is_scalar(c);
        assert(seq![c].drop_first() =~= Seq::<char>::empty());
        assert(utf8(seq![c]) == encode_scalar(c as u32) + utf8(Seq::<char>::empty()));
        assert(utf8(Seq::<char>::empty()) =~= Seq::<u8>::empty());
        assert(utf8(seq![c]) =~= encode_scalar(c as u32));
    }
    let v = c as u32;
    if v <= 0x7f {
        1
    } else if v <= 0x7ff {
        2
    } else if v <= 0xffff {
        3
    } else {
        4
    }
}

/// The byte offset of every character index, the length included.
fn byte_offsets(cs: &Vec<char>, total: usize) -> (r: Vec<usize>)
    requires
        total == utf8(cs@).len(),
    ensures
        r@.len() == cs@.len() + 1,
        forall|i: int| 0 <= i <= cs@.len() ==> #[trigger] r@[i] == byte_at(cs@, i),
{
    let mut r: Vec<usize> = Vec::new();
    r.push(0);
    assert(cs@.take(0) =~= Seq::<char>::empty());
    assert(utf8(Seq::<char>::empty()) =~= Seq::<u8>::empty());
    let mut i: usize = 0;
    while i < cs.len()
        invariant
            i <= cs@.len(),
            total == utf8(cs@).len(),
            r@.len() == i + 1,
            forall|j: int| 0 <= j <= i ==> #[trigger] r@[j] == byte_at(cs@, j),
        decreases cs@.len() - i,
    {
        let w = char_width(cs[i]);
        proof {
            lemma_utf8_concat(cs@.take(i as int), seq![cs@[i as int]]);
            assert(cs@.take(i as int) + seq![cs@[i as int]] =~= cs@.take(i + 1));
            lemma_byte_at_monotone(cs@, i + 1, cs@.len() as int);
        }
        let next = r[i] + w;
        r.push(next);
        i = i + 1;
    }
    r
}

/// The number of line breaks before every character index, the length included.
fn newline_counts(cs: &Vec<char>) -> (r: Vec<usize>)
    ensures
        r@.len() == cs@.len() + 1,
        forall|i: int| 0 <= i <= cs@.len() ==> #[trigger] r@[i] == newlines(cs@.take(i)),
{
    let mut r: Vec<usize> = Vec::new();
    r.push(0);
    assert(cs@.take(0) =~= Seq::<char>::empty());
    let mut n: usize = 0;
    let mut i: usize = 0;
    while i < cs.len()
        invariant
            i <= cs@.len(),
            r@.len() == i + 1,
            n == newlines(cs@.take(i as int)),
            n <= i,
            forall|j: int| 0 <= j <= i ==> #[trigger] r@[j] == newlines(cs@.take(j)),
        decreases cs@.len() - i,
    {
        assert(cs@.take(i + 1) =~= cs@.take(i as int).push(cs@[i as int]));
        proof {
            cs@.take(i as int).lemma_filter_push(cs@[i as int], |c: char| c == '\n');
        }
        if cs[i] == '\n' {
            n = n + 1;
        }
        r.push(n);
        i = i + 1;
    }
    r
}

/// The spans of a candidate lie in a text of `n` characters, the text span
/// inside the literal's span.
pub open spec fn well_placed(c: Candidate, n: int) -> bool {
    c.start < c.end <= n && c.start <= c.text_start <= c.text_end <= c.end
}

/// A literal found by one pass: its span and the span of its text, as
/// character indices, and how it was delimited.
#[derive(Debug, Clone, Copy, PartialEq, Eq, Structural)]
pub struct Candidate {
    pub start: usize,
    pub end: usize,
    pub text_start: usize,
    pub text_end: usize,
    pub quote_type: QuoteType,
}

/// The candidate with the given spans.
pub open spec fn cand(start: int, end: int, ts: int, te: int, q: QuoteType) -> Candidate {
    Candidate {
        start: start as usize,
        end: end as usize,
        text_start: ts as usize,
        text_end: te as usize,
        quote_type: q,
    }
}

/// Where a literal whose body starts at `j` ends, just past its closing
/// `q`: any character but `q` and `\`, or `\` with any character but a line
/// break after it, may stand in the body.
pub open spec fn literal_end(s: Seq<char>, q: char, j: int) -> Option<int>
    decreases s.len() - j,
{
    if j < 0 || j >= s.len() {
        None
    } else if s[j] == q {
        Some(j + 1)
    } else if s[j] == '\\' {
        if j + 1 < s.len() && s[j + 1] != '\n' {
            literal_end(s, q, j + 2)
        } else {
            None
        }
    } else {
        literal_end(s, q, j + 1)
    }
}

/// The literals delimited by `q` from index `i` on, leftmost first, each search
/// going on past the previous literal.
pub open spec fn quoted_from(s: Seq<char>, q: char, kind: QuoteType, i: int) -> Seq<Candidate>
    decreases s.len() - i,
{
    if i < 0 || i >= s.len() {
        Seq::empty()
    } else if s[i] == q && literal_end(s, q, i + 1) is Some {
        let e = literal_end(s, q, i + 1)->0;
        if i < e <= s.len() {
            seq![cand(i, e, i + 1, e - 1, kind)] + quoted_from(s, q, kind, e)
        } else {
            Seq::empty()
        }
    } else {
        quoted_from(s, q, kind, i + 1)
    }
}

proof fn lemma_literal_end_bounds(s: Seq<char>, q: char, j: int)
    requires
        0 <= j,
        literal_end(s, q, j) is Some,
    ensures
        j < literal_end(s, q, j)->0 <= s.len(),
        s[literal_end(s, q, j)->0 - 1] == q,
    decreases s.len() - j,
{
    if s[j] == q {
    } else if s[j] == '\\' {
        lemma_literal_end_bounds(s, q, j + 2);
    } else {
        lemma_literal_end_bounds(s, q, j + 1);
    }
}

/// The end of the literal whose body starts at `j`, if it closes.
fn find_literal_end(cs: &Vec<char>, q: char, j: usize) -> (r: Option<usize>)
    ensures
        r == match literal_end(cs@, q, j as int) {
            Some(e) => Some(e as usize),
            None => None::<usize>,
        },
{
    let mut k: usize = j;
    while k < cs.len()
        invariant
            j <= k,
            literal_end(cs@, q, j as int) == literal_end(cs@, q, k as int),
        decreases cs@.len() - k,
    {
        if cs[k] == q {
            return Some(k + 1);
        } else if cs[k] == '\\' {
            if k + 1 < cs.len() && cs[k + 1] != '\n' {
                k = k + 2;
            } else {
                return None;
            }
        } else {
            k = k + 1;
        }
    }
    None
}

/// The literals delimited by `q`, leftmost first.
fn quoted_literals(cs: &Vec<char>, q: char, kind: QuoteType) -> (r: Vec<Candidate>)
    ensures
        r@ == quoted_from(cs@, q, kind, 0),
    forall|k: int| 0 <= k < r@.len() ==> well_placed(#[trigger] r@[k], cs@.len() as int),
{
    let mut r: Vec<Candidate> = Vec::new();
    let mut i: usize = 0;
    while i < cs.len()
        invariant
            r@ + quoted_from(cs@, q, kind, i as int) == quoted_from(cs@, q, kind, 0),
            forall|k: int| 0 <= k < r@.len() ==> well_placed(#[trigger] r@[k], cs@.len() as int),
        decreases cs@.len() - i,
    {
        if cs[i] == q {
            match find_literal_end(cs, q, i + 1) {
                Some(e) => {
                    proof {
                        lemma_literal_end_bounds(cs@, q, i + 1);
                    }
                    let c = Candidate {
                        start: i,
                        end: e,
                        text_start: i + 1,
                        text_end: e - 1,
                        quote_type: kind,
                    };
                    let ghost prev = r@;
                    r.push(c);
                    assert(prev + quoted_from(cs@, q, kind, i as int) =~= r@ + quoted_from(
                        cs@,
                        q,
                        kind,
                        e as int,
                    ));
                    i = e;
                },
                None => {
                    i = i + 1;
                },
            }
        } else {
            i = i + 1;
        }
    }
    assert(quoted_from(cs@, q, kind, i as int) =~= Seq::<Candidate>::empty());
    assert(r@ + Seq::<Candidate>::empty() =~= r@);
    r
}

/// The index of the first `c` at or after `j`, or the length.
pub open spec fn first_of(s: Seq<char>, c: char, j: int) -> int
    decreases s.len() - j,
{
    if j < 0 || j >= s.len() {
        s.len() as int
    } else if s[j] == c {
        j
    } else {
        first_of(s, c, j + 1)
    }
}

proof fn lemma_first_of_bounds(s: Seq<char>, c: char, j: int)
    requires
        0 <= j,
    ensures
        j <= s.len() ==> j <= first_of(s, c, j) <= s.len(),
        first_of(s, c, j) < s.len() ==> s[first_of(s, c, j)] == c,
        forall|k: int| j <= k < first_of(s, c, j) ==> s[k] != c,
    decreases s.len() - j,
{
    if j < s.len() && s[j] != c {
        lemma_first_of_bounds(s, c, j + 1);
    }
}

/// The first `c` at or after `j`, or the length.
fn find_char(cs: &Vec<char>, c: char, j: usize) -> (r: usize)
    ensures
        r == first_of(cs@, c, j as int),
{
    let mut k: usize = j;
    while k < cs.len()
        invariant
            j <= k,
            first_of(cs@, c, j as int) == first_of(cs@, c, k as int),
        decreases cs@.len() - k,
    {
        if cs[k] == c {
            return k;
        }
        k = k + 1;
    }
    if k > cs.len() {
        return cs.len();
    }
    k
}

/// The first index in `[j, p)` that holds no white space, or `p`.
pub open spec fn trim_start_at(s: Seq<char>, j: int, p: int) -> int
    decreases p - j,
{
    if j >= p {
        p
    } else if !is_space(s[j]) {
        j
    } else {
        trim_start_at(s, j + 1, p)
    }
}

/// Just past the last index in `[j, p)` that holds no white space, or `j`.
pub open spec fn trim_end_at(s: Seq<char>, j: int, p: int) -> int
    decreases p - j,
{
    if p <= j {
        j
    } else if !is_space(s[p - 1]) {
        p
    } else {
        trim_end_at(s, j, p - 1)
    }
}

proof fn lemma_trim_bounds(s: Seq<char>, j: int, p: int)
    requires
        j <= p,
    ensures
        j <= trim_start_at(s, j, p) <= p,
        trim_start_at(s, j, p) <= trim_end_at(s, trim_start_at(s, j, p), p) <= p,
    decreases p - j,
{
    if j < p && is_space(s[j]) {
        lemma_trim_bounds(s, j + 1, p);
    }
    lemma_trim_end_bounds(s, trim_start_at(s, j, p), p);
}

proof fn lemma_trim_end_bounds(s: Seq<char>, j: int, p: int)
    ensures
        j <= p ==> j <= trim_end_at(s, j, p) <= p,
    decreases p - j,
{
    if p > j && is_space(s[p - 1]) {
        lemma_trim_end_bounds(s, j, p - 1);
    }
}

/// The text nodes `>text</` from index `i` on, trimmed of white space, that
/// are not empty and hold no `{`.
pub open spec fn jsx_from(s: Seq<char>, i: int) -> Seq<Candidate>
    decreases s.len() - i,
{
    if i < 0 || i >= s.len() {
        Seq::empty()
    } else {
        let p = first_of(s, '<', i + 1);
        if s[i] == '>' && i < p && p + 1 < s.len() && s[p + 1] == '/' {
            let ts = trim_start_at(s, i + 1, p);
            let te = trim_end_at(s, ts, p);
            let rest = jsx_from(s, p + 2);
            if ts < te && !s.subrange(ts, te).contains('{') {
                seq![cand(ts, te, ts, te, QuoteType::JsxText)] + rest
            } else {
                rest
            }
        } else {
            jsx_from(s, i + 1)
        }
    }
}

/// The first index in `[j, p)` that holds no white space, or `p`.
fn skip_spaces(cs: &Vec<char>, j: usize, p: usize) -> (r: usize)
    requires
        p <= cs@.len(),
    ensures
        r == trim_start_at(cs@, j as int, p as int),
{
    let mut k = j;
    while k < p
        invariant
            p <= cs@.len(),
            j <= k,
            trim_start_at(cs@, j as int, p as int) == trim_start_at(cs@, k as int, p as int),
        decreases p - k,
    {
        if !char_is_space(cs[k]) {
            return k;
        }
        k = k + 1;
    }
    p
}

/// Just past the last index in `[j, p)` that holds no white space, or `j`.
fn back_spaces(cs: &Vec<char>, j: usize, p: usize) -> (r: usize)
    requires
        p <= cs@.len(),
    ensures
        r == trim_end_at(cs@, j as int, p as int),
{
    let mut k = p;
    while k > j
        invariant
            p <= cs@.len(),
            k <= p,
            trim_end_at(cs@, j as int, p as int) == trim_end_at(cs@, j as int, k as int),
        decreases k,
    {
        if !char_is_space(cs[k - 1]) {
            return k;
        }
        k = k - 1;
    }
    j
}

/// The text nodes, trimmed, that are not empty and hold no `{`.
fn jsx_texts(cs: &Vec<char>) -> (r: Vec<Candidate>)
    ensures
        r@ == jsx_from(cs@, 0),
    forall|k: int| 0 <= k < r@.len() ==> well_placed(#[trigger] r@[k], cs@.len() as int),
{
    let mut r: Vec<Candidate> = Vec::new();
    let mut i: usize = 0;
    while i < cs.len()
        invariant
            r@ + jsx_from(cs@, i as int) == jsx_from(cs@, 0),
            forall|k: int| 0 <= k < r@.len() ==> well_placed(#[trigger] r@[k], cs@.len() as int),
        decreases cs@.len() - i,
    {
        let p = find_char(cs, '<', i + 1);
        proof {
            lemma_first_of_bounds(cs@, '<', i + 1);
        }
        if cs[i] == '>' && i < p && p < cs.len() - 1 && cs[p + 1] == '/' {
            let ts = skip_spaces(cs, i + 1, p);
            proof {
                lemma_trim_bounds(cs@, i + 1, p as int);
            }
            let te = back_spaces(cs, ts, p);
            let ghost prev = r@;
            if ts < te && !contains_char_in(cs, '{', ts, te) {
                r.push(Candidate {
                    start: ts,
                    end: te,
                    text_start: ts,
                    text_end: te,
                    quote_type: QuoteType::JsxText,
                });
                assert(prev + jsx_from(cs@, i as int) =~= r@ + jsx_from(cs@, p + 2));
            }
            i = p + 2;
        } else {
            i = i + 1;
        }
    }
    assert(jsx_from(cs@, i as int) =~= Seq::<Candidate>::empty());
    assert(r@ + Seq::<Candidate>::empty() =~= r@);
    r
}

/// Whether `c` occurs in `cs` between `a` and `b`.
fn contains_char_in(cs: &Vec<char>, c: char, a: usize, b: usize) -> (r: bool)
    requires
        a <= b <= cs@.len(),
    ensures
        r == cs@.subrange(a as int, b as int).contains(c),
{
    let mut k = a;
    while k < b
        invariant
            a <= k <= b <= cs@.len(),
            forall|m: int| a <= m < k ==> cs@[m] != c,
        decreases b - k,
    {
        if cs[k] == c {
            assert(cs@.subrange(a as int, b as int)[k - a] == c);
            return true;
        }
        k = k + 1;
    }
    assert forall|m: int| 0 <= m < b - a implies cs@.subrange(a as int, b as int)[m] != c by {
        assert(cs@[a + m] != c);
    }
    false
}

/// The value span of `name="value"` at index `i`, for one attribute name.
pub open spec fn attr_with(s: Seq<char>, i: int, name: Seq<char>) -> Option<(int, int)> {
    let v = i + name.len() + 2;
    if occurs_at(s, name, i) && v <= s.len() && s[v - 2] == '=' && s[v - 1] == '"'
        && first_of(s, '"', v) < s.len() {
        Some((v, first_of(s, '"', v)))
    } else {
        None
    }
}

/// The value span of an attribute that holds text for people, at index `i`:
/// `placeholder`, `alt`, `title` and `aria-label`, tried in that order.
pub open spec fn attr_at(s: Seq<char>, i: int) -> Option<(int, int)> {
    if attr_with(s, i, "placeholder"@) is Some {
        attr_with(s, i, "placeholder"@)
    } else if attr_with(s, i, "alt"@) is Some {
        attr_with(s, i, "alt"@)
    } else if attr_with(s, i, "title"@) is Some {
        attr_with(s, i, "title"@)
    } else {
        attr_with(s, i, "aria-label"@)
    }
}

/// The attribute values from index `i` on that are not empty and hold no `{`.
pub open spec fn attrs_from(s: Seq<char>, i: int) -> Seq<Candidate>
    decreases s.len() - i,
{
    if i < 0 || i >= s.len() {
        Seq::empty()
    } else {
        match attr_at(s, i) {
            Some((v, p)) => if i < p + 1 <= s.len() {
                let rest = attrs_from(s, p + 1);
                if v < p && !s.subrange(v, p).contains('{') {
                    seq![cand(v, p, v, p, QuoteType::Double)] + rest
                } else {
                    rest
                }
            } else {
                Seq::empty()
            },
            None => attrs_from(s, i + 1),
        }
    }
}

/// The value span of `name="value"` at index `i`.
fn attr_value_with(cs: &Vec<char>, i: usize, name: &str) -> (r: Option<(usize, usize)>)
    ensures
        match attr_with(cs@, i as int, name@) {
            Some((v, p)) => r == Some((v as usize, p as usize)) && i < v <= p < cs@.len(),
            None => r is None,
        },
{
    let n = chars_of(name);
    if !matches_at(cs, &n, i) {
        return None;
    }
    if cs.len() - i - n.len() < 2 {
        return None;
    }
    let v = i + n.len() + 2;
    if cs[v - 2] != '=' || cs[v - 1] != '"' {
        return None;
    }
    let p = find_char(cs, '"', v);
    proof {
        lemma_first_of_bounds(cs@, '"', v as int);
    }
    if p < cs.len() {
        Some((v, p))
    } else {
        None
    }
}

/// The value span of a text attribute at index `i`.
fn attr_value_at(cs: &Vec<char>, i: usize) -> (r: Option<(usize, usize)>)
    ensures
        match attr_at(cs@, i as int) {
            Some((v, p)) => r == Some((v as usize, p as usize)) && i < v <= p < cs@.len(),
            None => r is None,
        },
{
    let a = attr_value_with(cs, i, "placeholder");
    if a.is_some() {
        return a;
    }
    let b = attr_value_with(cs, i, "alt");
    if b.is_some() {
        return b;
    }
    let c = attr_value_with(cs, i, "title");
    if c.is_some() {
        return c;
    }
    attr_value_with(cs, i, "aria-label")
}

/// The text attribute values that are not empty and hold no `{`.
fn attr_values(cs: &Vec<char>) -> (r: Vec<Candidate>)
    ensures
        r@ == attrs_from(cs@, 0),
    forall|k: int| 0 <= k < r@.len() ==> well_placed(#[trigger] r@[k], cs@.len() as int),
{
    let mut r: Vec<Candidate> = Vec::new();
    let mut i: usize = 0;
    while i < cs.len()
        invariant
            r@ + attrs_from(cs@, i as int) == attrs_from(cs@, 0),
            forall|k: int| 0 <= k < r@.len() ==> well_placed(#[trigger] r@[k], cs@.len() as int),
        decreases cs@.len() - i,
    {
        match attr_value_at(cs, i) {
            Some((v, p)) => {
                let ghost prev = r@;
                if v < p && !contains_char_in(cs, '{', v, p) {
                    r.push(Candidate {
                        start: v,
                        end: p,
                        text_start: v,
                        text_end: p,
                        quote_type: QuoteType::Double,
                    });
                    assert(prev + attrs_from(cs@, i as int) =~= r@ + attrs_from(cs@, p + 1));
                }
                i = p + 1;
            },
            None => {
                i = i + 1;
            },
        }
    }
    assert(attrs_from(cs@, i as int) =~= Seq::<Candidate>::empty());
    assert(r@ + Seq::<Candidate>::empty() =~= r@);
    r
}

/// The text of a candidate.
pub open spec fn text_of(s: Seq<char>, c: Candidate) -> Seq<char> {
    s.subrange(c.text_start as int, c.text_end as int)
}

/// Template literals that hold no `${` expression.
pub open spec fn plain_templates(s: Seq<char>) -> Seq<Candidate> {
    quoted_from(s, '`', QuoteType::Template, 0).filter(|c: Candidate| !has_infix(text_of(s, c), "${"@))
}

/// The candidates of the five passes, pass after pass.
pub open spec fn candidates(s: Seq<char>) -> Seq<Candidate> {
    quoted_from(s, '"', QuoteType::Double, 0) + quoted_from(s, '\'', QuoteType::Single, 0)
        + plain_templates(s) + jsx_from(s, 0) + attrs_from(s, 0)
}

/// The characters of `cs` between `a` and `b`.
fn slice_chars(cs: &Vec<char>, a: usize, b: usize) -> (r: Vec<char>)
    requires
        a <= b <= cs@.len(),
    ensures
        r@ == cs@.subrange(a as int, b as int),
{
    let mut r: Vec<char> = Vec::new();
    let mut k = a;
    while k < b
        invariant
            a <= k <= b <= cs@.len(),
            r@ == cs@.subrange(a as int, k as int),
        decreases b - k,
    {
        r.push(cs[k]);
        assert(r@ =~= cs@.subrange(a as int, k + 1));
        k = k + 1;
    }
    r
}

/// Template literals that hold no `${` expression.
fn template_literals(cs: &Vec<char>) -> (r: Vec<Candidate>)
    ensures
        r@ == plain_templates(cs@),
        forall|k: int| 0 <= k < r@.len() ==> well_placed(#[trigger] r@[k], cs@.len() as int),
{
    let all = quoted_literals(cs, '`', QuoteType::Template);
    let ghost pred = |c: Candidate| !has_infix(text_of(cs@, c), "${"@);
    let mut r: Vec<Candidate> = Vec::new();
    let mut k: usize = 0;
    while k < all.len()
        invariant
            k <= all@.len(),
            all@ == quoted_from(cs@, '`', QuoteType::Template, 0),
            forall|m: int| 0 <= m < all@.len() ==> well_placed(#[trigger] all@[m], cs@.len() as int),
            pred == (|c: Candidate| !has_infix(text_of(cs@, c), "${"@)),
            r@ == all@.take(k as int).filter(pred),
            forall|m: int| 0 <= m < r@.len() ==> well_placed(#[trigger] r@[m], cs@.len() as int),
        decreases all@.len() - k,
    {
        let c = all[k];
        assert(well_placed(all@[k as int], cs@.len() as int));
        let t = slice_chars(cs, c.text_start, c.text_end);
        assert(all@.take(k + 1) =~= all@.take(k as int).push(c));
        proof {
            all@.take(k as int).lemma_filter_push(c, pred);
        }
        if !contains_text(&t, "${") {
            r.push(c);
        }
        k = k + 1;
    }
    assert(all@.take(all@.len() as int) =~= all@);
    r
}

/// The candidates whose text is accepted, keeping only the first candidate of
/// each key; `seen` holds the keys already taken.
pub open spec fn select(cands: Seq<Candidate>, s: Seq<char>, seen: Seq<Seq<char>>) -> Seq<Candidate>
    decreases cands.len(),
{
    if cands.len() == 0 {
        Seq::empty()
    } else {
        let c = cands[0];
        let t = text_of(s, c);
        if accepted(t, excluded_words()) && !seen.contains(key_of(t)) {
            seq![c] + select(cands.drop_first(), s, seen.push(key_of(t)))
        } else {
            select(cands.drop_first(), s, seen)
        }
    }
}

/// The candidates that a text yields, in the order of the passes.
pub open spec fn extracted(s: Seq<char>) -> Seq<Candidate> {
    select(candidates(s), s, Seq::empty())
}

/// A record describes a candidate of the text `s` found in the file `path`.
pub open spec fn describes(r: TranslationKeyWithPosition, c: Candidate, s: Seq<char>, path: Seq<char>) -> bool {
    &&& r.id@ == key_of(text_of(s, c))
    &&& r.source@ == text_of(s, c)
    &&& r.file_path@ == path
    &&& r.line == line_count(s.take(c.start as int))
    &&& r.start_byte == byte_at(s, c.start as int)
    &&& r.end_byte == byte_at(s, c.end as int)
    &&& r.quote_type == c.quote_type
}

impl SwcStringExtractor {
    /// The translatable strings of a file's text, with the byte span of each.
    ///
    /// The five passes run in turn: double quotes, single quotes, template
    /// literals, text nodes, then attribute values. A key is kept at its first
    /// occurrence only, so where two passes find the same characters (a
    /// quoted attribute value) the earlier pass wins, and a rewrite driven by
    /// these records replaces the first occurrence of each text.
    pub fn extract_with_positions(&self, content: &str, file_path: &str) -> (r: Vec<TranslationKeyWithPosition>)
        ensures
            r@.len() == extracted(content@).len(),
            forall|k: int|
                0 <= k < r@.len() ==> describes(#[trigger] r@[k], extracted(content@)[k], content@, file_path@),
            forall|k: int|
                0 <= k < r@.len() ==> #[trigger] r@[k].start_byte <= r@[k].end_byte <= utf8(content@).len(),
            forall|k: int|
                0 <= k < r@.len() ==> is_char_boundary(utf8(content@), #[trigger] r@[k].start_byte as int)
                    && is_char_boundary(utf8(content@), r@[k].end_byte as int),
    {
        let ghost s = content@;
        let cs = chars_of(content);
        let total = content.as_bytes().len();
        let offs = byte_offsets(&cs, total);
        let lines = newline_counts(&cs);
        let mut all = quoted_literals(&cs, '"', QuoteType::Double);
        let mut single = quoted_literals(&cs, '\'', QuoteType::Single);
        let mut templates = template_literals(&cs);
        let mut texts = jsx_texts(&cs);
        let mut attrs = attr_values(&cs);
        all.append(&mut single);
        all.append(&mut templates);
        all.append(&mut texts);
        all.append(&mut attrs);
        assert(all@ == candidates(s));
        assert forall|m: int| 0 <= m < all@.len() implies well_placed(#[trigger] all@[m], cs@.len() as int) by {
        }
        let excluded = self.get_excluded_strings();
        let mut seen: Vec<String> = Vec::new();
        let mut r: Vec<TranslationKeyWithPosition> = Vec::new();
        let ghost chosen: Seq<Candidate> = Seq::empty();
        let mut k: usize = 0;
        assert(all@.skip(0) =~= all@);
        assert(seen@.map_values(|x: String| x@) =~= Seq::<Seq<char>>::empty());
        assert(chosen + extracted(s) =~= extracted(s));
        while k < all.len()
            invariant
                s == content@,
                cs@ == s,
                total == utf8(s).len(),
                offs@.len() == s.len() + 1,
                forall|i: int| 0 <= i <= s.len() ==> #[trigger] offs@[i] == byte_at(s, i),
                lines@.len() == s.len() + 1,
                forall|i: int| 0 <= i <= s.len() ==> #[trigger] lines@[i] == newlines(s.take(i)),
                excluded@.map_values(|e: &str| e@) == excluded_words(),
                all@ == candidates(s),
                forall|m: int| 0 <= m < all@.len() ==> well_placed(#[trigger] all@[m], s.len() as int),
                k <= all@.len(),
                chosen + select(all@.skip(k as int), s, seen@.map_values(|x: String| x@)) == extracted(s),
                r@.len() == chosen.len(),
                forall|m: int| 0 <= m < r@.len() ==> describes(#[trigger] r@[m], chosen[m], s, file_path@),
                forall|m: int| 0 <= m < r@.len() ==> #[trigger] r@[m].start_byte <= r@[m].end_byte <= total,
                forall|m: int|
                    0 <= m < r@.len() ==> is_char_boundary(utf8(s), #[trigger] r@[m].start_byte as int)
                        && is_char_boundary(utf8(s), r@[m].end_byte as int),
            decreases all@.len() - k,
        {
            let c = all[k];
            assert(well_placed(all@[k as int], s.len() as int));
            let ghost seen_view = seen@.map_values(|x: String| x@);
            assert(all@.skip(k as int).drop_first() =~= all@.skip(k + 1));
            assert(all@.skip(k as int)[0] == c);
            let text = string_of(&cs, c.text_start, c.text_end);
            if self.should_extract(text.as_str(), excluded.as_slice()) {
                let key = format_key(text.as_str());
                let mut fresh = true;
                let mut j: usize = 0;
                while j < seen.len()
                    invariant
                        j <= seen@.len(),
                        fresh == forall|m: int| 0 <= m < j ==> seen@[m]@ != key@,
                    decreases seen@.len() - j,
                {
                    if text_eq(seen[j].as_str(), key.as_str()) {
                        fresh = false;
                    }
                    j = j + 1;
                }
                proof {
                    if fresh {
                        assert(!seen_view.contains(key@));
                    } else {
                        let m = choose|m: int| 0 <= m < seen@.len() && seen@[m]@ == key@;
                        assert(seen_view[m] == key@);
                    }
                }
                if fresh {
                    proof {
                        lemma_byte_at_monotone(s, c.start as int, c.end as int);
                        lemma_prefix_boundary(s, c.start as int);
                        lemma_prefix_boundary(s, c.end as int);
                    }
                    let line = if c.start > 0 && cs[c.start - 1] != '\n' {
                        lines[c.start] + 1
                    } else {
                        lines[c.start]
                    };
                    proof {
                        assert(s.take(c.start as int).len() > 0 ==> s.take(c.start as int).last() == s[c.start - 1]);
                    }
                    let rec = TranslationKeyWithPosition {
                        id: owned(key.as_str()),
                        source: text,
                        file_path: owned(file_path),
                        line,
                        start_byte: offs[c.start],
                        end_byte: offs[c.end],
                        quote_type: c.quote_type,
                    };
                    let ghost key_view = key@;
                    seen.push(key);
                    assert(seen@.map_values(|x: String| x@) =~= seen_view.push(key_view));
                    r.push(rec);
                    proof {
                        chosen = chosen.push(c);
                    }
                }
            }
            k = k + 1;
        }
        assert(select(all@.skip(k as int), s, seen@.map_values(|x: String| x@)) =~= Seq::<Candidate>::empty());
        assert(chosen =~= extracted(s));
        r
    }

    /// The translatable strings of a file's text, without their positions.
    pub fn extract(&self, content: &str, file_path: &str) -> (r: Vec<TranslationKey>)
        ensures
            r@.len() == extracted(content@).len(),
            forall|k: int|
                0 <= k < r@.len() ==> {
                    let c = #[trigger] extracted(content@)[k];
                    &&& r@[k].id@ == key_of(text_of(content@, c))
                    &&& r@[k].source@ == text_of(content@, c)
                    &&& r@[k].file_path@ == file_path@
                    &&& r@[k].line == line_count(content@.take(c.start as int))
                },
    {
        let found = self.extract_with_positions(content, file_path);
        let mut r: Vec<TranslationKey> = Vec::new();
        let mut k: usize = 0;
        while k < found.len()
            invariant
                k <= found@.len(),
                found@.len() == extracted(content@).len(),
                forall|m: int|
                    0 <= m < found@.len() ==> describes(#[trigger] found@[m], extracted(content@)[m], content@, file_path@),
                r@.len() == k,
                forall|m: int|
                    0 <= m < k ==> {
                        let c = #[trigger] extracted(content@)[m];
                        &&& r@[m].id@ == key_of(text_of(content@, c))
                        &&& r@[m].source@ == text_of(content@, c)
                        &&& r@[m].file_path@ == file_path@
                        &&& r@[m].line == line_count(content@.take(c.start as int))
                    },
            decreases found@.len() - k,
        {
            assert(describes(found@[k as int], extracted(content@)[k as int], content@, file_path@));
            r.push(found[k].to_key());
            k = k + 1;
        }
        r
    }
}

} // verus!
