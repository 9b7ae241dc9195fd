use vstd::prelude::*;
use vstd::utf8::*;
use crate::models::{call_of, ReplacementStrategy, TranslationKeyWithPosition};
use crate::text::{append, lemma_seam, lemma_utf8_concat, owned, utf8};

verus! {

/// Rewrites a text by putting translation calls in place of literals.
pub struct RegexReplacer;

/// The number of bytes equal to `x`.
pub open spec fn count_of(b: Seq<u8>, x: u8) -> nat
    decreases b.len(),
{
    if b.len() == 0 {
        0
    } else {
        count_of(b.drop_last(), x) + if b.last() == x {
            1nat
        } else {
            0nat
        }
    }
}

/// Whether more `<` than `>` stand before byte `pos` (or the end, if `pos` is
/// past it): the heuristic sign of being inside markup.
pub open spec fn jsx_at(b: Seq<u8>, pos: int) -> bool {
    let p = if pos < b.len() {
        pos
    } else {
        b.len() as int
    };
    count_of(b.take(p), 60u8) > count_of(b.take(p), 62u8)
}

/// `buf` with the bytes from `start` to `end` replaced by `repl`.
pub open spec fn splice(buf: Seq<u8>, start: int, end: int, repl: Seq<u8>) -> Seq<u8> {
    buf.take(start) + repl + buf.skip(end)
}

/// The bytes of the call that stands for a record of the text `orig`.
pub open spec fn call_bytes(orig: Seq<u8>, k: TranslationKeyWithPosition, s: ReplacementStrategy) -> Seq<u8> {
    utf8(call_of(s, k.id@, jsx_at(orig, k.start_byte as int)))
}

/// One record applied to the buffer: its span replaced by its call, where the
/// span is ordered, ends within the buffer, and falls on character boundaries.
pub open spec fn apply_one(
    buf: Seq<u8>,
    orig: Seq<u8>,
    k: TranslationKeyWithPosition,
    s: ReplacementStrategy,
) -> Seq<u8> {
    if k.start_byte <= k.end_byte <= buf.len() && is_char_boundary(buf, k.start_byte as int)
        && is_char_boundary(buf, k.end_byte as int) {
        splice(buf, k.start_byte as int, k.end_byte as int, call_bytes(orig, k, s))
    } else {
        buf
    }
}

/// The records applied one after the other.
pub open spec fn apply_all(
    buf: Seq<u8>,
    orig: Seq<u8>,
    ks: Seq<TranslationKeyWithPosition>,
    s: ReplacementStrategy,
) -> Seq<u8>
    decreases ks.len(),
{
    if ks.len() == 0 {
        buf
    } else {
        apply_all(apply_one(buf, orig, ks[0], s), orig, ks.drop_first(), s)
    }
}

/// Record `x` is applied before record `y`: it starts later, or at the same
/// byte and comes first in the list.
pub open spec fn goes_before(ks: Seq<TranslationKeyWithPosition>, x: int, y: int) -> bool {
    ks[x].start_byte > ks[y].start_byte || (ks[x].start_byte == ks[y].start_byte && x < y)
}

/// `ord` lists every record index once, from the last start to the first.
pub open spec fn back_to_front(ks: Seq<TranslationKeyWithPosition>, ord: Seq<int>) -> bool {
    &&& ord.len() == ks.len()
    &&& forall|a: int| 0 <= a < ord.len() ==> 0 <= #[trigger] ord[a] < ks.len()
    &&& forall|x: int| 0 <= x < ks.len() ==> #[trigger] ord.contains(x)
    &&& forall|a: int, b: int| 0 <= a < b < ord.len() ==> goes_before(ks, #[trigger] ord[a], #[trigger] ord[b])
}

/// The records taken in the order `ord`.
pub open spec fn in_order(ks: Seq<TranslationKeyWithPosition>, ord: Seq<int>) -> Seq<TranslationKeyWithPosition> {
    ord.map_values(|i: int| ks[i])
}

/// Whether index `x` stands in `ord`.
pub open spec fn lists(ord: Seq<usize>, x: int) -> bool {
    exists|a: int| 0 <= a < ord.len() && #[trigger] ord[a] == x
}

/// Where two valid texts agree below a boundary `h` of the second, a boundary
/// of the first below `h` is one of the second.
proof fn lemma_boundary_transfer(x: Seq<u8>, y: Seq<u8>, h: int, p: int)
    requires
        valid_utf8(x),
        valid_utf8(y),
        0 <= p <= h,
        h <= x.len(),
        h <= y.len(),
        x.take(h) == y.take(h),
        is_char_boundary(x, p),
        is_char_boundary(y, h),
    ensures
        is_char_boundary(y, p),
{
    if p < h {
        is_char_boundary_iff_not_is_continuation_byte(x, p);
        is_char_boundary_iff_not_is_continuation_byte(y, p);
        assert(x.take(h)[p] == x[p]);
        assert(y.take(h)[p] == y[p]);
        assert(x[p] == y[p]);
        assert(!is_continuation_byte(y[p]));
    }
}

/// The bytes between two boundaries of a valid text are valid.
proof fn lemma_valid_between(x: Seq<u8>, a: int, b: int)
    requires
        valid_utf8(x),
        0 <= a <= b <= x.len(),
        is_char_boundary(x, a),
        is_char_boundary(x, b),
    ensures
        valid_utf8(x.subrange(a, b)),
{
    valid_utf8_split(x, b);
    let y = x.subrange(0, b);
    if a < b {
        is_char_boundary_iff_not_is_continuation_byte(x, a);
        is_char_boundary_iff_not_is_continuation_byte(y, a);
    } else {
        is_char_boundary_start_end_of_seq(y);
    }
    valid_utf8_split(y, a);
    assert(y.subrange(a, y.len() as int) =~= x.subrange(a, b));
}

/// The records lie within `orig`, on its character boundaries, each ordered,
/// each ending where the one before it starts or earlier.
pub open spec fn disjoint_descending(orig: Seq<u8>, ks: Seq<TranslationKeyWithPosition>) -> bool {
    &&& forall|k: int|
        0 <= k < ks.len() ==> {
            &&& (#[trigger] ks[k]).start_byte <= ks[k].end_byte <= orig.len()
            &&& is_char_boundary(orig, ks[k].start_byte as int)
            &&& is_char_boundary(orig, ks[k].end_byte as int)
        }
    &&& forall|k: int| 0 <= k < ks.len() - 1 ==> #[trigger] ks[k + 1].end_byte <= ks[k].start_byte
}

/// Where the original bytes stay untouched once `k` records are applied:
/// before the start of the last of them.
pub open spec fn untouched_end(orig: Seq<u8>, ks: Seq<TranslationKeyWithPosition>, k: int) -> int {
    if k <= 0 {
        orig.len() as int
    } else {
        ks[k - 1].start_byte as int
    }
}

/// What follows the untouched bytes once `k` records are applied: each call
/// followed by the original bytes up to the span applied before it.
pub open spec fn rewritten_tail(
    orig: Seq<u8>,
    ks: Seq<TranslationKeyWithPosition>,
    s: ReplacementStrategy,
    k: int,
) -> Seq<u8>
    decreases k,
{
    if k <= 0 {
        Seq::empty()
    } else {
        call_bytes(orig, ks[k - 1], s) + orig.subrange(ks[k - 1].end_byte as int, untouched_end(orig, ks, k - 1))
            + rewritten_tail(orig, ks, s, k - 1)
    }
}

/// How much longer the first `k` records make the text.
pub open spec fn growth(
    orig: Seq<u8>,
    ks: Seq<TranslationKeyWithPosition>,
    s: ReplacementStrategy,
    k: int,
) -> int
    decreases k,
{
    if k <= 0 {
        0
    } else {
        growth(orig, ks, s, k - 1) + call_bytes(orig, ks[k - 1], s).len() - (ks[k - 1].end_byte - ks[k - 1].start_byte)
    }
}

proof fn lemma_tail_valid(orig: Seq<u8>, ks: Seq<TranslationKeyWithPosition>, s: ReplacementStrategy, k: int)
    requires
        valid_utf8(orig),
        disjoint_descending(orig, ks),
        0 <= k <= ks.len(),
    ensures
        valid_utf8(rewritten_tail(orig, ks, s, k)),
        rewritten_tail(orig, ks, s, k).len() + untouched_end(orig, ks, k) == orig.len() + growth(orig, ks, s, k),
        0 <= untouched_end(orig, ks, k) <= orig.len(),
        is_char_boundary(orig, untouched_end(orig, ks, k)),
    decreases k,
{
    if k == 0 {
        is_char_boundary_start_end_of_seq(orig);
        assert(valid_utf8(Seq::<u8>::empty()));
    } else {
        lemma_tail_valid(orig, ks, s, k - 1);
        let r = ks[k - 1];
        let hi = untouched_end(orig, ks, k - 1);
        if k >= 2 {
            assert(ks[k - 2 + 1].end_byte <= ks[k - 2].start_byte);
        }
        assert(r.end_byte <= hi);
        lemma_valid_between(orig, r.end_byte as int, hi);
        encode_utf8_valid_utf8(call_of(s, r.id@, jsx_at(orig, r.start_byte as int)));
        valid_utf8_concat(call_bytes(orig, r, s), orig.subrange(r.end_byte as int, hi));
        valid_utf8_concat(
            call_bytes(orig, r, s) + orig.subrange(r.end_byte as int, hi),
            rewritten_tail(orig, ks, s, k - 1),
        );
    }
}

proof fn lemma_apply_rest(orig: Seq<u8>, ks: Seq<TranslationKeyWithPosition>, s: ReplacementStrategy, k: int)
    requires
        valid_utf8(orig),
        disjoint_descending(orig, ks),
        0 <= k <= ks.len(),
    ensures
        apply_all(
            orig.take(untouched_end(orig, ks, k)) + rewritten_tail(orig, ks, s, k),
            orig,
            ks.skip(k),
            s,
        ) == orig.take(untouched_end(orig, ks, ks.len() as int)) + rewritten_tail(orig, ks, s, ks.len() as int),
    decreases ks.len() - k,
{
    if k == ks.len() {
        assert(ks.skip(k) =~= Seq::<TranslationKeyWithPosition>::empty());
    } else {
        let hi = untouched_end(orig, ks, k);
        let tail = rewritten_tail(orig, ks, s, k);
        let head = orig.take(hi);
        let buf = head + tail;
        let r = ks[k];
        lemma_tail_valid(orig, ks, s, k);
        valid_utf8_split(orig, hi);
        assert(head =~= orig.subrange(0, hi));
        lemma_seam(head, tail);
        if k >= 1 {
            assert(ks[k - 1 + 1].end_byte <= ks[k - 1].start_byte);
        }
        assert(r.end_byte <= hi);
        assert(orig.take(hi) =~= buf.take(hi));
        lemma_boundary_transfer(orig, buf, hi, r.start_byte as int);
        lemma_boundary_transfer(orig, buf, hi, r.end_byte as int);
        let next = orig.take(untouched_end(orig, ks, k + 1)) + rewritten_tail(orig, ks, s, k + 1);
        assert(apply_one(buf, orig, r, s) =~= next);
        assert(ks.skip(k).drop_first() =~= ks.skip(k + 1));
        assert(ks.skip(k)[0] == r);
        lemma_apply_rest(orig, ks, s, k + 1);
    }
}

/// Records applied from the last span to the first, without overlap and on
/// character boundaries, change only their spans: the result is the original
/// bytes up to the first span applied last, then each call followed by the
/// original bytes up to the next span, and its length grows by the sum of
/// what each call adds over the span it replaces.
pub proof fn lemma_back_to_front(orig: Seq<u8>, ks: Seq<TranslationKeyWithPosition>, s: ReplacementStrategy)
    requires
        valid_utf8(orig),
        disjoint_descending(orig, ks),
    ensures
        apply_all(orig, orig, ks, s) == orig.take(untouched_end(orig, ks, ks.len() as int))
            + rewritten_tail(orig, ks, s, ks.len() as int),
        apply_all(orig, orig, ks, s).len() == orig.len() + growth(orig, ks, s, ks.len() as int),
{
    assert(orig.take(orig.len() as int) + Seq::<u8>::empty() =~= orig);
    assert(ks.skip(0) =~= ks);
    lemma_apply_rest(orig, ks, s, 0);
    lemma_tail_valid(orig, ks, s, ks.len() as int);
}

impl RegexReplacer {
    /// Whether byte `position` of a text lies inside markup, by the count of
    /// `<` and `>` before it.
    pub fn detect_jsx_context(content: &str, position: usize) -> (r: bool)
        ensures
            r == jsx_at(utf8(content@), position as int),
    {
        let b = content.as_bytes();
        let p = if position < b.len() {
            position
        } else {
            b.len()
        };
        let mut open: usize = 0;
        let mut close: usize = 0;
        let mut i: usize = 0;
        while i < p
            invariant
                b@ == utf8(content@),
                p <= b@.len(),
                i <= p,
                open == count_of(b@.take(i as int), 60u8),
                close == count_of(b@.take(i as int), 62u8),
                open <= i,
                close <= i,
            decreases p - i,
        {
            assert(b@.take(i + 1).drop_last() =~= b@.take(i as int));
            if b[i] == 60u8 {
                open = open + 1;
            } else if b[i] == 62u8 {
                close = close + 1;
            }
            i = i + 1;
        }
        open > close
    }

    /// The order in which records are applied: by start byte, last first,
    /// records with the same start in list order.
    fn order(keys: &[TranslationKeyWithPosition]) -> (r: Vec<usize>)
        ensures
            back_to_front(keys@, r@.map_values(|i: usize| i as int)),
    {
        let mut ord: Vec<usize> = Vec::new();
        let mut i: usize = 0;
        while i < keys.len()
            invariant
                i <= keys@.len(),
                ord@.len() == i,
                forall|a: int| 0 <= a < ord@.len() ==> #[trigger] ord@[a] < i,
                forall|x: int| 0 <= x < i ==> #[trigger] lists(ord@, x),
                forall|a: int, b: int|
                    0 <= a < b < ord@.len() ==> goes_before(keys@, #[trigger] ord@[a] as int, #[trigger] ord@[b] as int),
            decreases keys@.len() - i,
        {
            let s = keys[i].start_byte;
            let mut p: usize = 0;
            while p < ord.len() && keys[ord[p]].start_byte >= s
                invariant
                    p <= ord@.len(),
                    i < keys@.len(),
                    s == keys@[i as int].start_byte,
                    forall|a: int| 0 <= a < ord@.len() ==> #[trigger] ord@[a] < i,
                    forall|a: int| 0 <= a < p ==> keys@[#[trigger] ord@[a] as int].start_byte >= s,
                decreases ord@.len() - p,
            {
                p = p + 1;
            }
            let ghost prev = ord@;
            ord.insert(p, i);
            proof {
                assert forall|a: int, b: int|
                    0 <= a < b < ord@.len() implies goes_before(keys@, #[trigger] ord@[a] as int, #[trigger] ord@[b] as int) by {
                    if b < p {
                        assert(ord@[a] == prev[a] && ord@[b] == prev[b]);
                    } else if b == p {
                        assert(ord@[a] == prev[a]);
                    } else if a == p {
                        assert(ord@[b] == prev[b - 1]);
                        if p < b - 1 {
                            assert(goes_before(keys@, prev[p as int] as int, prev[b - 1] as int));
                        }
                    } else if a < p {
                        assert(ord@[a] == prev[a] && ord@[b] == prev[b - 1]);
                    } else {
                        assert(ord@[a] == prev[a - 1] && ord@[b] == prev[b - 1]);
                    }
                }
                assert forall|x: int| 0 <= x < i + 1 implies #[trigger] lists(ord@, x) by {
                    if x == i {
                        assert(ord@[p as int] == x);
                    } else {
                        assert(lists(prev, x));
                        let w = choose|w: int| 0 <= w < prev.len() && #[trigger] prev[w] == x;
                        if w < p {
                            assert(ord@[w] == x);
                        } else {
                            assert(ord@[w + 1] == x);
                        }
                    }
                }
                assert forall|a: int| 0 <= a < ord@.len() implies #[trigger] ord@[a] < i + 1 by {
                    if a < p {
                        assert(ord@[a] == prev[a]);
                    } else if a > p {
                        assert(ord@[a] == prev[a - 1]);
                    }
                }
            }
            i = i + 1;
        }
        let ghost m = ord@.map_values(|i: usize| i as int);
        assert forall|x: int| 0 <= x < keys@.len() implies #[trigger] m.contains(x) by {
            assert(lists(ord@, x));
            let w = choose|w: int| 0 <= w < ord@.len() && #[trigger] ord@[w] == x;
            assert(m[w] == x);
        }
        ord
    }

    /// The text with each record's span replaced by its translation call,
    /// records applied from the last start to the first.
    pub fn replace(
        &self,
        content: &str,
        keys: &[TranslationKeyWithPosition],
        strategy: &ReplacementStrategy,
    ) -> (r: String)
        ensures
            exists|ord: Seq<int>|
                back_to_front(keys@, ord) && utf8(r@) == apply_all(
                    utf8(content@),
                    utf8(content@),
                    in_order(keys@, ord),
                    *strategy,
                ),
    {
        let ord = Self::order(keys);
        let ghost o = ord@.map_values(|i: usize| i as int);
        let ghost ks = in_order(keys@, o);
        let ghost orig = utf8(content@);
        let mut result = owned(content);
        let mut k: usize = 0;
        assert(ks.skip(0) =~= ks);
        while k < ord.len()
            invariant
                k <= ord@.len(),
                o == ord@.map_values(|i: usize| i as int),
                back_to_front(keys@, o),
                ks == in_order(keys@, o),
                orig == utf8(content@),
                apply_all(utf8(result@), orig, ks.skip(k as int), *strategy) == apply_all(orig, orig, ks, *strategy),
            decreases ord@.len() - k,
        {
            assert(0 <= o[k as int] < keys@.len());
            let key = &keys[ord[k]];
            assert(ks.skip(k as int)[0] == *key);
            assert(ks.skip(k as int).drop_first() =~= ks.skip(k + 1));
            let in_jsx = Self::detect_jsx_context(content, key.start_byte);
            let call = strategy.translate_call(key.id.as_str(), in_jsx);
            let cur = result.as_str();
            let n = cur.as_bytes().len();
            if key.start_byte <= key.end_byte && key.end_byte <= n && cur.is_char_boundary(key.start_byte)
                && cur.is_char_boundary(key.end_byte) {
                let (a, _) = cur.split_at(key.start_byte);
                let (_, c) = cur.split_at(key.end_byte);
                let mut next = owned(a);
                append(&mut next, call.as_str());
                append(&mut next, c);
                proof {
                    lemma_utf8_concat(a@, call@);
                    lemma_utf8_concat(a@ + call@, c@);
                    assert(utf8(next@) =~= splice(utf8(result@), key.start_byte as int, key.end_byte as int, utf8(call@)));
                }
                result = next;
            }
            k = k + 1;
        }
        assert(ks.skip(k as int) =~= Seq::<TranslationKeyWithPosition>::empty());
        result
    }
}

} // verus!
