use vstd::prelude::*;
use vstd::string::*;
use crate::scanner::SwcStringExtractor;
use crate::text::{
    chars_of, contains_char, contains_text, has_infix, has_prefix, starts_with, text_eq, utf8,
};

verus! {

/// What `char::is_uppercase` says of a character.
pub uninterp spec fn upper_char(c: char) -> bool;

/// What `char::is_lowercase` says of a character.
pub uninterp spec fn lower_char(c: char) -> bool;

/// Relies on `char::is_uppercase`: the Unicode Uppercase property.
#[verifier::external_body]
fn char_is_uppercase(c: char) -> (r: bool)
    ensures
        r == upper_char(c),
{
    c.is_uppercase()
}

/// Relies on `char::is_lowercase`: the Unicode Lowercase property.
#[verifier::external_body]
fn char_is_lowercase(c: char) -> (r: bool)
    ensures
        r == lower_char(c),
{
    c.is_lowercase()
}

/// Framework and package words that are never translated.
pub open spec fn excluded_words() -> Seq<Seq<char>> {
    seq![
        "react"@, "tsx"@, "jsx"@, "javascript"@, "typescript"@, "vue"@, "angular"@,
        "svelte"@, "next"@, "remix"@, "gatsby"@, "node_modules"@, "dist"@, "build"@,
    ]
}

/// Looks like a component or class name: an uppercase first character, no
/// space or hyphen, and some lowercase character.
pub open spec fn pascal_like(t: Seq<char>) -> bool {
    &&& t.len() > 0
    &&& upper_char(t[0])
    &&& !t.contains(' ')
    &&& !t.contains('-')
    &&& exists|i: int| 0 <= i < t.len() && lower_char(#[trigger] t[i])
}

/// Starts like a URL or a data or file reference.
pub open spec fn url_like(t: Seq<char>) -> bool {
    has_prefix(t, "http://"@) || has_prefix(t, "https://"@) || has_prefix(t, "ftp://"@)
        || has_prefix(t, "data:"@) || has_prefix(t, "file://"@)
}

/// Looks like an e-mail address: after the first `@` comes a `.`, and the
/// text is longer than five bytes.
pub open spec fn email_like(t: Seq<char>) -> bool {
    exists|k: int|
        0 <= k < t.len() && #[trigger] t[k] == '@' && !t.take(k).contains('@') && t.skip(k + 1).contains('.')
            && utf8(t).len() > 5
}

/// The number of `/` characters.
pub open spec fn slash_count(t: Seq<char>) -> nat {
    t.filter(|c: char| c == '/').len()
}

/// Looks like a bare package name: only lowercase letters, `-`, `_` and `/`,
/// and shorter than twenty bytes.
pub open spec fn package_like(t: Seq<char>) -> bool {
    (forall|i: int|
        0 <= i < t.len() ==> lower_char(#[trigger] t[i]) || t[i] == '-' || t[i] == '_' || t[i]
            == '/') && utf8(t).len() < 20
}

/// Whether a candidate text counts as human-facing text.
pub open spec fn accepted(t: Seq<char>, excluded: Seq<Seq<char>>) -> bool {
    &&& utf8(t).len() >= 3
    &&& !excluded.contains(t)
    &&& !pascal_like(t)
    &&& !url_like(t)
    &&& !email_like(t)
    &&& slash_count(t) <= 2
    &&& !package_like(t)
    &&& !has_prefix(t, "@"@)
    &&& !has_infix(t, "./"@)
    &&& !has_infix(t, "../"@)
}

/// The number of `/` characters in `cs`.
fn count_slashes(cs: &Vec<char>) -> (r: usize)
    ensures
        r == slash_count(cs@),
{
    let mut n: usize = 0;
    let mut i: usize = 0;
    while i < cs.len()
        invariant
            i <= cs@.len(),
            n == cs@.take(i as int).filter(|c: char| c == '/').len(),
            n <= i,
        decreases cs@.len() - i,
    {
        assert(cs@.take(i + 1) =~= cs@.take(i as int).push(cs@[i as int]));
        proof {
            cs@.take(i as int).lemma_filter_push(cs@[i as int], |c: char| c == '/');
        }
        if cs[i] == '/' {
            n = n + 1;
        }
        i = i + 1;
    }
    assert(cs@.take(cs@.len() as int) =~= cs@);
    n
}

/// Whether `cs` looks like an e-mail address; `bytes` is its length in bytes.
fn looks_like_email(cs: &Vec<char>, bytes: usize) -> (r: bool)
    requires
        bytes == utf8(cs@).len(),
    ensures
        r == email_like(cs@),
{
    let mut k: usize = 0;
    while k < cs.len()
        invariant
            k <= cs@.len(),
            bytes == utf8(cs@).len(),
            !cs@.take(k as int).contains('@'),
        decreases cs@.len() - k,
    {
        if cs[k] == '@' {
            let mut j: usize = k + 1;
            let mut dot = false;
            while j < cs.len()
                invariant
                    k < j <= cs@.len(),
                    k < cs@.len(),
                    dot == cs@.subrange(k + 1, j as int).contains('.'),
                decreases cs@.len() - j,
            {
                assert(cs@.subrange(k + 1, j + 1) =~= cs@.subrange(k + 1, j as int).push(cs@[j as int]));
                if cs[j] == '.' {
                    assert(cs@.subrange(k + 1, j + 1)[j - (k + 1)] == '.');
                    dot = true;
                } else {
                    let ghost a = cs@.subrange(k + 1, j as int);
                    assert(cs@.subrange(k + 1, j + 1).contains('.') ==> a.contains('.')) by {
                        if cs@.subrange(k + 1, j + 1).contains('.') {
                            let w = choose|w: int| 0 <= w < j + 1 - (k + 1) && #[trigger] cs@.subrange(k + 1, j + 1)[w] == '.';
                            assert(a[w] == '.');
                        }
                    }
                }
                j = j + 1;
            }
            assert(cs@.subrange(k + 1, cs@.len() as int) =~= cs@.skip(k + 1));
            let r = dot && bytes > 5;
            proof {
                if !r {
                    assert forall|m: int|
                        0 <= m < cs@.len() && #[trigger] cs@[m] == '@' && !cs@.take(m).contains('@')
                            implies !(cs@.skip(m + 1).contains('.') && utf8(cs@).len() > 5) by {
                        if m > k {
                            assert(cs@.take(m)[k as int] == '@');
                        }
                        if m < k {
                            assert(cs@.take(k as int)[m] == '@');
                        }
                        assert(m == k);
                    }
                } else {
                    assert(cs@[k as int] == '@');
                }
            }
            return r;
        }
        assert(cs@.take(k + 1) =~= cs@.take(k as int).push(cs@[k as int]));
        k = k + 1;
    }
    assert(cs@.take(cs@.len() as int) =~= cs@);
    proof {
        assert forall|m: int| 0 <= m < cs@.len() implies #[trigger] cs@[m] != '@' by {
            assert(cs@.take(cs@.len() as int)[m] == cs@[m]);
        }
    }
    false
}

impl SwcStringExtractor {
    /// The framework and package words that are never translated.
    pub fn get_excluded_strings(&self) -> (r: Vec<&'static str>)
        ensures
            r@.map_values(|s: &str| s@) == excluded_words(),
    {
        let r = vec![
            "react", "tsx", "jsx", "javascript", "typescript", "vue", "angular", "svelte",
            "next", "remix", "gatsby", "node_modules", "dist", "build",
        ];
        assert(r@.map_values(|s: &str| s@) =~= excluded_words());
        r
    }

    /// Whether a text looks like a component or class name.
    pub fn is_pascal_case(&self, text: &str) -> (r: bool)
        ensures
            r == pascal_like(text@),
    {
        let cs = chars_of(text);
        if cs.len() == 0 {
            return false;
        }
        if !char_is_uppercase(cs[0]) {
            return false;
        }
        if contains_char(&cs, ' ') || contains_char(&cs, '-') {
            return false;
        }
        let mut i: usize = 0;
        while i < cs.len()
            invariant
                i <= cs@.len(),
                cs@ == text@,
                upper_char(cs@[0]),
                !cs@.contains(' '),
                !cs@.contains('-'),
                forall|j: int| 0 <= j < i ==> !lower_char(#[trigger] cs@[j]),
            decreases cs@.len() - i,
        {
            if char_is_lowercase(cs[i]) {
                assert(lower_char(cs@[i as int]));
                return true;
            }
            i = i + 1;
        }
        false
    }

    /// Whether a candidate text is human-facing text worth translating.
    pub fn should_extract(&self, text: &str, excluded: &[&str]) -> (r: bool)
        ensures
            r == accepted(text@, excluded@.map_values(|s: &str| s@)),
    {
        let ghost ex = excluded@.map_values(|s: &str| s@);
        let ghost t = text@;
        let bytes = text.as_bytes().len();
        assert(bytes == utf8(t).len());
        if bytes < 3 {
            return false;
        }
        let mut i: usize = 0;
        while i < excluded.len()
            invariant
                i <= excluded@.len(),
                ex == excluded@.map_values(|s: &str| s@),
                t == text@,
                forall|j: int| 0 <= j < i ==> ex[j] != t,
            decreases excluded@.len() - i,
        {
            assert(ex[i as int] == excluded@[i as int]@);
            if text_eq(excluded[i], text) {
                assert(ex[i as int] == t);
                return false;
            }
            i = i + 1;
        }
        let cs = chars_of(text);
        if self.is_pascal_case(text) {
            return false;
        }
        if starts_with(&cs, "http://") || starts_with(&cs, "https://") || starts_with(&cs, "ftp://")
            || starts_with(&cs, "data:") || starts_with(&cs, "file://") {
            return false;
        }
        if looks_like_email(&cs, bytes) {
            return false;
        }
        if count_slashes(&cs) > 2 {
            return false;
        }
        if bytes < 20 {
            let mut all = true;
            let mut k: usize = 0;
            while k < cs.len()
                invariant
                    k <= cs@.len(),
                    cs@ == text@,
                    all == forall|j: int|
                        0 <= j < k ==> lower_char(#[trigger] cs@[j]) || cs@[j] == '-' || cs@[j]
                            == '_' || cs@[j] == '/',
                decreases cs@.len() - k,
            {
                let c = cs[k];
                if !(char_is_lowercase(c) || c == '-' || c == '_' || c == '/') {
                    all = false;
                }
                k = k + 1;
            }
            if all {
                return false;
            }
        }
        if starts_with(&cs, "@") {
            return false;
        }
        if contains_text(&cs, "./") || contains_text(&cs, "../") {
            return false;
        }
        true
    }
}

} // verus!
