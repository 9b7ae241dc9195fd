use vstd::prelude::*;
use crate::text::{chars_of, lower_of, lowercase, push_char};

verus! {

/// Characters with the Unicode White_Space property.
pub open spec fn is_space(c: char) -> bool {
    ('\u{9}' <= c && c <= '\u{d}') || c == ' ' || c == '\u{85}' || c == '\u{a0}'
        || c == '\u{1680}' || ('\u{2000}' <= c && c <= '\u{200a}') || c == '\u{2028}'
        || c == '\u{2029}' || c == '\u{202f}' || c == '\u{205f}' || c == '\u{3000}'
}

/// Whether a character is white space, as `char::is_whitespace` decides.
pub fn char_is_space(c: char) -> (r: bool)
    ensures
        r == is_space(c),
{
    ('\u{9}' <= c && c <= '\u{d}') || c == ' ' || c == '\u{85}' || c == '\u{a0}'
        || c == '\u{1680}' || ('\u{2000}' <= c && c <= '\u{200a}') || c == '\u{2028}'
        || c == '\u{2029}' || c == '\u{202f}' || c == '\u{205f}' || c == '\u{3000}'
}

/// What `char::is_alphanumeric` says of a character.
pub uninterp spec fn alnum_of(c: char) -> bool;

/// Relies on `char::is_alphanumeric`: the Unicode Alphabetic or Numeric property.
#[verifier::external_body]
fn char_is_alphanumeric(c: char) -> (r: bool)
    ensures
        r == alnum_of(c),
{
    c.is_alphanumeric()
}

/// Every hyphen turned into an underscore.
pub open spec fn dehyphen(s: Seq<char>) -> Seq<char> {
    s.map_values(|c: char| if c == '-' { '_' } else { c })
}

/// One step of reading a text: `out` is what was kept so far, and `pending`
/// says that white space follows a word.
pub open spec fn word_step(st: (Seq<char>, bool), c: char) -> (Seq<char>, bool) {
    let (out, pending) = st;
    if is_space(c) {
        (out, out.len() > 0)
    } else if pending {
        (out.push('_').push(c), false)
    } else {
        (out.push(c), false)
    }
}

/// Reads a text left to right, keeping its whitespace-separated words joined
/// by single underscores.
pub open spec fn join_words_state(s: Seq<char>) -> (Seq<char>, bool)
    decreases s.len(),
{
    if s.len() == 0 {
        (Seq::empty(), false)
    } else {
        word_step(join_words_state(s.drop_last()), s.last())
    }
}

/// Reads `s` on from the state `st`.
pub open spec fn words_from(st: (Seq<char>, bool), s: Seq<char>) -> (Seq<char>, bool)
    decreases s.len(),
{
    if s.len() == 0 {
        st
    } else {
        word_step(words_from(st, s.drop_last()), s.last())
    }
}

proof fn lemma_words_concat(x: Seq<char>, b: Seq<char>)
    ensures
        join_words_state(x + b) == words_from(join_words_state(x), b),
    decreases b.len(),
{
    if b.len() == 0 {
        assert(x + b =~= x);
    } else {
        lemma_words_concat(x, b.drop_last());
        assert((x + b).drop_last() =~= x + b.drop_last());
        assert((x + b).last() == b.last());
    }
}

/// A run of white space after a text leaves the same state, however long.
proof fn lemma_space_run(a: Seq<char>, w: Seq<char>)
    requires
        w.len() > 0,
        forall|i: int| 0 <= i < w.len() ==> is_space(#[trigger] w[i]),
    ensures
        join_words_state(a + w) == (join_words(a), join_words(a).len() > 0),
    decreases w.len(),
{
    lemma_words_concat(a, w);
    assert(is_space(w[w.len() - 1]));
    let st = join_words_state(a);
    if w.len() > 1 {
        assert forall|i: int| 0 <= i < w.drop_last().len() implies is_space(#[trigger] w.drop_last()[i]) by {
            assert(w.drop_last()[i] == w[i]);
        }
        lemma_space_run(a, w.drop_last());
        lemma_words_concat(a, w.drop_last());
        assert(words_from(st, w.drop_last()).0 == st.0);
    } else {
        assert(w.drop_last().len() == 0);
        assert(words_from(st, w.drop_last()) == st);
    }
    assert(words_from(st, w) == word_step(words_from(st, w.drop_last()), w.last()));
}

/// The whitespace-separated words of a text, joined by underscores.
pub open spec fn join_words(s: Seq<char>) -> Seq<char> {
    join_words_state(s).0
}

/// Only the alphanumeric characters and underscores of a text.
pub open spec fn keep_ident(s: Seq<char>) -> Seq<char> {
    s.filter(|c: char| alnum_of(c) || c == '_')
}

/// The key derived from a text.
pub open spec fn key_of(s: Seq<char>) -> Seq<char> {
    keep_ident(join_words(dehyphen(lower_of(s))))
}

/// Two texts get the same key when, lowercased and with hyphens as
/// underscores, they differ only in the length of one run of white space:
/// case, hyphens and the layout of white space do not change a key.
pub proof fn lemma_key_ignores_case_and_layout(
    s1: Seq<char>,
    s2: Seq<char>,
    a: Seq<char>,
    w1: Seq<char>,
    w2: Seq<char>,
    b: Seq<char>,
)
    requires
        dehyphen(lower_of(s1)) == a + w1 + b,
        dehyphen(lower_of(s2)) == a + w2 + b,
        w1.len() > 0,
        w2.len() > 0,
        forall|i: int| 0 <= i < w1.len() ==> is_space(#[trigger] w1[i]),
        forall|i: int| 0 <= i < w2.len() ==> is_space(#[trigger] w2[i]),
    ensures
        key_of(s1) == key_of(s2),
{
    lemma_space_run(a, w1);
    lemma_space_run(a, w2);
    lemma_words_concat(a + w1, b);
    lemma_words_concat(a + w2, b);
}

/// The key for a source text: lowercase, hyphens as underscores, words joined
/// by underscores, and everything but letters, digits and underscores dropped.
pub fn format_key(source: &str) -> (r: String)
    ensures
        r@ == key_of(source@),
{
    let lowered = lowercase(source);
    let cs = chars_of(lowered.as_str());
    let ghost d = dehyphen(cs@);
    let mut joined: Vec<char> = Vec::new();
    let mut pending = false;
    let mut i: usize = 0;
    while i < cs.len()
        invariant
            i <= cs@.len(),
            d == dehyphen(cs@),
            join_words_state(d.take(i as int)) == (joined@, pending),
        decreases cs@.len() - i,
    {
        let c = if cs[i] == '-' { '_' } else { cs[i] };
        assert(d.take(i + 1).drop_last() =~= d.take(i as int));
        assert(d.take(i + 1).last() == c);
        if char_is_space(c) {
            pending = joined.len() > 0;
        } else {
            if pending {
                joined.push('_');
            }
            joined.push(c);
            pending = false;
        }
        i = i + 1;
    }
    assert(d.take(cs@.len() as int) =~= d);
    let mut r = String::new();
    let mut j: usize = 0;
    while j < joined.len()
        invariant
            j <= joined@.len(),
            r@ == keep_ident(joined@.take(j as int)),
        decreases joined@.len() - j,
    {
        let c = joined[j];
        assert(joined@.take(j + 1) =~= joined@.take(j as int).push(c));
        proof {
            joined@.take(j as int).lemma_filter_push(c, |c: char| alnum_of(c) || c == '_');
        }
        if c == '_' || char_is_alphanumeric(c) {
            push_char(&mut r, c);
        }
        j = j + 1;
    }
    assert(joined@.take(joined@.len() as int) =~= joined@);
    r
}

} // verus!
