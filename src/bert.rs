//! Alignment of word2ph counts to BERT tokens, and the assist-text cache.
use vstd::prelude::*;
use crate::errors::TtsError;
use crate::text::{chars_eq, chars_of, lemma_sum_nonneg, lemma_sum_take_le, string_of, sum_seq};

verus! {

/// Number of bytes of `c` in UTF-8.
pub open spec fn utf8_len(c: char) -> nat {
    if (c as u32) < 0x80 {
        1
    } else if (c as u32) < 0x800 {
        2
    } else if (c as u32) < 0x10000 {
        3
    } else {
        4
    }
}

/// Byte offset of character `i` of `t`.
pub open spec fn byte_start(t: Seq<char>, i: int) -> nat
    decreases i,
{
    if i <= 0 || t.len() == 0 {
        0
    } else if i > t.len() {
        byte_start(t, t.len() as int)
    } else {
        byte_start(t, i - 1) + utf8_len(t[i - 1])
    }
}

fn utf8_len_exec(c: char) -> (r: usize)
    ensures
        r == utf8_len(c),
{
    if (c as u32) < 0x80 {
        1
    } else if (c as u32) < 0x800 {
        2
    } else if (c as u32) < 0x10000 {
        3
    } else {
        4
    }
}

/// Total of the counts of the characters `j..` whose byte span meets `[start, end)`,
/// from `j` while the spans start before `end`; the index where the scan stopped.
pub open spec fn overlap_from(t: Seq<char>, w: Seq<usize>, j: int, start: nat, end: nat) -> (int, int)
    decreases t.len() - j,
{
    if j < 0 || j >= t.len() {
        (0, j)
    } else if byte_start(t, j + 1) <= start {
        overlap_from(t, w, j + 1, start, end)
    } else if byte_start(t, j) >= end {
        (0, j)
    } else {
        let rest = overlap_from(t, w, j + 1, start, end);
        (w[j + 1] + rest.0, rest.1)
    }
}

/// Counts for tokens `k..` of `offsets`, the character cursor standing at `j`.
pub open spec fn aligned_from(t: Seq<char>, w: Seq<usize>, offsets: Seq<(usize, usize)>, k: int, j: int) -> Seq<int>
    decreases offsets.len() - k,
{
    if k < 0 || k >= offsets.len() {
        seq![]
    } else if k == 0 {
        seq![w[0] as int] + aligned_from(t, w, offsets, k + 1, j)
    } else if k == offsets.len() - 1 {
        seq![w.last() as int] + aligned_from(t, w, offsets, k + 1, j)
    } else if offsets[k].0 == 0 && offsets[k].1 == 0 {
        seq![0int] + aligned_from(t, w, offsets, k + 1, j)
    } else {
        let o = overlap_from(t, w, j, offsets[k].0 as nat, offsets[k].1 as nat);
        seq![o.0] + aligned_from(t, w, offsets, k + 1, o.1)
    }
}

pub open spec fn as_ints(v: Seq<usize>) -> Seq<int> {
    v.map_values(|x: usize| x as int)
}

proof fn lemma_byte_start_step(t: Seq<char>, i: int)
    requires
        0 <= i < t.len(),
    ensures
        byte_start(t, i + 1) == byte_start(t, i) + utf8_len(t[i]),
{
}

proof fn lemma_byte_start_bound(t: Seq<char>, i: int)
    requires
        0 <= i <= t.len(),
    ensures
        byte_start(t, i) <= 4 * i,
    decreases i,
{
    if i > 0 {
        lemma_byte_start_bound(t, i - 1);
    }
}

/// Per-token repeat counts: the first token takes the leading pad's count, the last token
/// the trailing one, a special token inside (offsets `(0, 0)`) none, and any other token
/// the counts of the characters whose byte spans meet its own, scanning the characters
/// once from left to right.
pub fn align_word2ph(text: &str, word2ph: &[usize], offsets: &[(usize, usize)]) -> (r: Result<
    Vec<usize>,
    TtsError,
>)
    requires
        4 * text@.len() + 4 <= usize::MAX,
        sum_seq(word2ph@) <= usize::MAX,
    ensures
        match r {
            Ok(v) => word2ph@.len() == text@.len() + 2 && offsets@.len() > 0 && as_ints(v@)
                == aligned_from(text@, word2ph@, offsets@, 0, 0),
            Err(_) => word2ph@.len() == 0 || offsets@.len() == 0 || word2ph@.len() != text@.len()
                + 2,
        },
{
    if word2ph.len() == 0 {
        return Err(TtsError::Shape(string_of(['e', 'm', 'p', 't', 'y'].as_slice())));
    }
    if offsets.len() == 0 {
        return Err(TtsError::Shape(string_of(['n', 'o', ' ', 't', 'o', 'k', 'e', 'n', 's'].as_slice())));
    }
    let t = chars_of(text);
    if word2ph.len() != t.len() + 2 {
        return Err(TtsError::Shape(string_of(['l', 'e', 'n', 'g', 't', 'h'].as_slice())));
    }
    let n = t.len();
    let ghost tv = t@;
    let ghost wv = word2ph@;
    let ghost ov = offsets@;
    let mut starts: Vec<usize> = Vec::new();
    let mut b: usize = 0;
    let mut i: usize = 0;
    while i <= n
        invariant
            n == tv.len(),
            tv == t@,
            4 * n + 4 <= usize::MAX,
            i <= n + 1,
            starts@.len() == i,
            i <= n ==> b == byte_start(tv, i as int),
            forall|q: int| 0 <= q < i ==> #[trigger] starts@[q] == byte_start(tv, q),
        decreases n + 1 - i,
    {
        proof {
            if i <= n {
                lemma_byte_start_bound(tv, i as int);
            }
        }
        starts.push(b);
        if i < n {
            proof {
                lemma_byte_start_step(tv, i as int);
            }
            b = b + utf8_len_exec(t[i]);
        }
        i = i + 1;
    }
    assert(sum_seq(word2ph@) <= usize::MAX);
    let mut result: Vec<usize> = Vec::new();
    let mut cursor: usize = 0;
    let mut k: usize = 0;
    assert(aligned_from(tv, wv, ov, 0, 0) =~= as_ints(result@) + aligned_from(tv, wv, ov, 0, 0));
    while k < offsets.len()
        invariant
            n == tv.len(),
            tv == t@,
            wv == word2ph@,
            ov == offsets@,
            word2ph@.len() == n + 2,
            sum_seq(wv) <= usize::MAX,
            starts@.len() == n + 1,
            forall|q: int| 0 <= q <= n ==> #[trigger] starts@[q] == byte_start(tv, q),
            k <= offsets@.len(),
            cursor <= n,
            as_ints(result@) + aligned_from(tv, wv, ov, k as int, cursor as int) == aligned_from(
                tv,
                wv,
                ov,
                0,
                0,
            ),
        decreases offsets.len() - k,
    {
        let ghost r0 = as_ints(result@);
        if k == 0 {
            result.push(word2ph[0]);
        } else if k == offsets.len() - 1 {
            result.push(word2ph[word2ph.len() - 1]);
        } else if offsets[k].0 == 0 && offsets[k].1 == 0 {
            result.push(0);
        } else {
            let start = offsets[k].0;
            let end = offsets[k].1;
            let ghost o = overlap_from(tv, wv, cursor as int, start as nat, end as nat);
            let mut total: usize = 0;
            let mut j = cursor;
            proof {
                lemma_sum_nonneg(wv.take(cursor + 1));
            }
            while j < n
                invariant
                    n == tv.len(),
                    wv == word2ph@,
                    word2ph@.len() == n + 2,
                    starts@.len() == n + 1,
                    forall|q: int| 0 <= q <= n ==> #[trigger] starts@[q] == byte_start(tv, q),
                    cursor <= j <= n,
                    o == (total + overlap_from(tv, wv, j as int, start as nat, end as nat).0,
                        overlap_from(tv, wv, j as int, start as nat, end as nat).1),
                    total <= sum_seq(wv.take(j + 1)),
                    sum_seq(wv) <= usize::MAX,
                decreases n - j,
            {
                let c_start = starts[j];
                let c_end = starts[j + 1];
                proof {
                    assert(wv.take(j + 2).drop_last() =~= wv.take(j + 1));
                    lemma_sum_take_le(wv, j + 2);
                }
                if c_end <= start {
                    j = j + 1;
                } else if c_start >= end {
                    break;
                } else {
                    total = total + word2ph[j + 1];
                    j = j + 1;
                }
            }
            cursor = j;
            result.push(total);
        }
        k = k + 1;
        assert(as_ints(result@) + aligned_from(tv, wv, ov, k as int, cursor as int) =~= aligned_from(
            tv,
            wv,
            ov,
            0,
            0,
        ));
    }
    Ok(result)
}

/// Sum of `w[lo..hi]`.
pub open spec fn range_sum(w: Seq<usize>, lo: int, hi: int) -> int
    decreases hi - lo,
{
    if hi <= lo {
        0
    } else {
        range_sum(w, lo, hi - 1) + w[hi - 1]
    }
}

/// Sum of a sequence, first element first.
pub open spec fn sum_front(s: Seq<int>) -> int
    decreases s.len(),
{
    if s.len() == 0 {
        0
    } else {
        s[0] + sum_front(s.skip(1))
    }
}

proof fn lemma_range_sum_split(w: Seq<usize>, a: int, b: int, c: int)
    requires
        a <= b <= c,
    ensures
        range_sum(w, a, c) == range_sum(w, a, b) + range_sum(w, b, c),
    decreases c - b,
{
    if c > b {
        lemma_range_sum_split(w, a, b, c - 1);
    }
}

proof fn lemma_range_sum_whole(w: Seq<usize>)
    ensures
        range_sum(w, 0, w.len() as int) == sum_seq(w),
    decreases w.len(),
{
    if w.len() > 0 {
        lemma_range_sum_whole(w.drop_last());
        assert forall|q: int| 0 <= q < w.len() - 1 implies w.drop_last()[q] == w[q] by {}
        lemma_range_sum_same(w.drop_last(), w, 0, w.len() - 1);
    }
}

proof fn lemma_range_sum_same(u: Seq<usize>, w: Seq<usize>, lo: int, hi: int)
    requires
        0 <= lo,
        hi <= u.len(),
        hi <= w.len(),
        forall|q: int| lo <= q < hi ==> u[q] == w[q],
    ensures
        range_sum(u, lo, hi) == range_sum(w, lo, hi),
    decreases hi - lo,
{
    if hi > lo {
        lemma_range_sum_same(u, w, lo, hi - 1);
    }
}

proof fn lemma_byte_start_increasing(t: Seq<char>, i: int, k: int)
    requires
        0 <= i < k <= t.len(),
    ensures
        byte_start(t, i) < byte_start(t, k),
    decreases k - i,
{
    lemma_byte_start_step(t, k - 1);
    if k - 1 > i {
        lemma_byte_start_increasing(t, i, k - 1);
    }
}

proof fn lemma_overlap_group(t: Seq<char>, w: Seq<usize>, a: int, b: int, j: int)
    requires
        0 <= a < b <= t.len(),
        a <= j <= b,
        w.len() == t.len() + 2,
    ensures
        overlap_from(t, w, j, byte_start(t, a), byte_start(t, b)) == (range_sum(w, j + 1, b + 1), b),
    decreases b - j,
{
    let start = byte_start(t, a);
    let end = byte_start(t, b);
    if j == b {
        assert(range_sum(w, b + 1, b + 1) == 0);
        if b < t.len() {
            lemma_byte_start_increasing(t, a, b + 1);
            assert(!(byte_start(t, j + 1) <= start));
            assert(byte_start(t, j) >= end);
        }
    } else {
        lemma_byte_start_increasing(t, a, j + 1);
        lemma_byte_start_increasing(t, j, b);
        lemma_overlap_group(t, w, a, b, j + 1);
        assert(!(byte_start(t, j + 1) <= start));
        assert(!(byte_start(t, j) >= end));
        let rest = overlap_from(t, w, j + 1, start, end);
        assert(overlap_from(t, w, j, start, end) == (w[j + 1] + rest.0, rest.1));
        lemma_range_sum_split(w, j + 1, j + 2, b + 1);
        assert(range_sum(w, j + 1, j + 1) == 0);
        assert(range_sum(w, j + 1, j + 2) == w[j + 1]);
    }
}

proof fn lemma_range_sum_zero(w: Seq<usize>, lo: int, hi: int)
    requires
        forall|q: int| lo <= q < hi ==> w[q] == 0,
    ensures
        range_sum(w, lo, hi) == 0,
    decreases hi - lo,
{
    if hi > lo {
        lemma_range_sum_zero(w, lo, hi - 1);
    }
}

proof fn lemma_overlap_skip(t: Seq<char>, w: Seq<usize>, a: int, b: int, j: int)
    requires
        0 <= j <= a < b <= t.len(),
        w.len() == t.len() + 2,
    ensures
        overlap_from(t, w, j, byte_start(t, a), byte_start(t, b)) == (range_sum(w, a + 1, b + 1), b),
    decreases a - j,
{
    if j == a {
        lemma_overlap_group(t, w, a, b, a);
    } else {
        if j + 1 < a {
            lemma_byte_start_increasing(t, j + 1, a);
        }
        lemma_overlap_skip(t, w, a, b, j + 1);
    }
}

/// Token `k` (`1 <= k < offsets.len() - 1`) covers the characters `lo[k]..hi[k]`: a
/// special token `(0, 0)` covers none and stands where the previous token ended; any
/// other token spans the bytes of a non-empty group after the previous one. The groups
/// are in order, and the characters no token covers (`hi[k]..lo[k + 1]`, with `hi[0] = 0`
/// and `lo[offsets.len() - 1]` the text's end) count no phones.
pub open spec fn tokens_cover_text(
    t: Seq<char>,
    w: Seq<usize>,
    offsets: Seq<(usize, usize)>,
    lo: Seq<int>,
    hi: Seq<int>,
) -> bool {
    let m = offsets.len() - 2;
    &&& offsets.len() >= 2
    &&& lo.len() == offsets.len() && hi.len() == offsets.len()
    &&& hi[0] == 0
    &&& lo[m + 1] == t.len()
    &&& forall|k: int| 0 <= k <= m ==> #[trigger] hi[k] <= lo[k + 1]
    &&& forall|k: int|
        1 <= k <= m ==> if (#[trigger] offsets[k]).0 == 0 && offsets[k].1 == 0 {
            lo[k] == hi[k] && lo[k] == hi[k - 1]
        } else {
            lo[k] < hi[k] && offsets[k].0 == byte_start(t, lo[k]) && offsets[k].1 == byte_start(
                t,
                hi[k],
            )
        }
    &&& forall|k: int, q: int|
        #![trigger w[q + 1], hi[k]]
        0 <= k <= m && hi[k] <= q < lo[k + 1] ==> w[q + 1] == 0
}

proof fn lemma_cover_bounds(t: Seq<char>, w: Seq<usize>, offsets: Seq<(usize, usize)>, lo: Seq<int>, hi: Seq<int>, k: int)
    requires
        tokens_cover_text(t, w, offsets, lo, hi),
        0 <= k <= offsets.len() - 2,
    ensures
        0 <= hi[k] <= lo[k + 1] <= t.len(),
    decreases offsets.len() - 2 - k,
{
    let m = offsets.len() - 2;
    assert(hi[k] <= lo[k + 1]);
    if k + 1 <= m {
        lemma_cover_bounds(t, w, offsets, lo, hi, k + 1);
        assert(lo[k + 1] <= hi[k + 1]) by {
            assert(offsets[k + 1] == offsets[k + 1]);
        }
    }
    if k >= 1 {
        lemma_cover_low(t, w, offsets, lo, hi, k);
    }
}

proof fn lemma_cover_low(t: Seq<char>, w: Seq<usize>, offsets: Seq<(usize, usize)>, lo: Seq<int>, hi: Seq<int>, k: int)
    requires
        tokens_cover_text(t, w, offsets, lo, hi),
        0 <= k <= offsets.len() - 2,
    ensures
        0 <= hi[k],
    decreases k,
{
    if k > 0 {
        lemma_cover_low(t, w, offsets, lo, hi, k - 1);
        assert(hi[k - 1] <= lo[k]);
        assert(lo[k] <= hi[k]) by {
            assert(offsets[k] == offsets[k]);
        }
    }
}

proof fn lemma_aligned_tail(t: Seq<char>, w: Seq<usize>, offsets: Seq<(usize, usize)>, lo: Seq<int>, hi: Seq<int>, k: int)
    requires
        tokens_cover_text(t, w, offsets, lo, hi),
        w.len() == t.len() + 2,
        1 <= k <= offsets.len() - 1,
    ensures
        sum_front(aligned_from(t, w, offsets, k, hi[k - 1])) == range_sum(
            w,
            hi[k - 1] + 1,
            t.len() + 1 as int,
        ) + w.last(),
    decreases offsets.len() - k,
{
    let n = t.len() as int;
    let m = offsets.len() - 2;
    let j = hi[k - 1];
    lemma_cover_bounds(t, w, offsets, lo, hi, k - 1);
    if k == offsets.len() - 1 {
        assert(aligned_from(t, w, offsets, k + 1, j) == Seq::<int>::empty());
        let al = aligned_from(t, w, offsets, k, j);
        assert(al == seq![w.last() as int] + aligned_from(t, w, offsets, k + 1, j));
        assert(al.skip(1) =~= Seq::<int>::empty());
        assert(sum_front(al.skip(1)) == 0);
        assert forall|q: int| j + 1 <= q < n + 1 implies w[q] == 0 by {
            assert(hi[m] <= q - 1 < lo[m + 1] && w[(q - 1) + 1] == 0);
        }
        lemma_range_sum_zero(w, j + 1, n + 1);
    } else {
        lemma_aligned_tail(t, w, offsets, lo, hi, k + 1);
        lemma_cover_bounds(t, w, offsets, lo, hi, k);
        let al = aligned_from(t, w, offsets, k, j);
        if offsets[k].0 == 0 && offsets[k].1 == 0 {
            assert(hi[k] == j);
            assert(al == seq![0int] + aligned_from(t, w, offsets, k + 1, j));
            assert(al.skip(1) =~= aligned_from(t, w, offsets, k + 1, j));
        } else {
            let a = lo[k];
            let b = hi[k];
            lemma_overlap_skip(t, w, a, b, j);
            let o = overlap_from(t, w, j, offsets[k].0 as nat, offsets[k].1 as nat);
            assert(o == (range_sum(w, a + 1, b + 1), b));
            assert(al == seq![o.0] + aligned_from(t, w, offsets, k + 1, b));
            assert(al.skip(1) =~= aligned_from(t, w, offsets, k + 1, b));
            assert forall|q: int| j + 1 <= q < a + 1 implies w[q] == 0 by {
                assert(hi[k - 1] <= q - 1 < lo[k] && w[(q - 1) + 1] == 0);
            }
            lemma_range_sum_zero(w, j + 1, a + 1);
            lemma_range_sum_split(w, j + 1, a + 1, b + 1);
            lemma_range_sum_split(w, j + 1, b + 1, n + 1);
        }
    }
}

/// Alignment keeps the total: when the tokens between the two outer ones cover the text
/// in order (special tokens and characters that count no phones aside), the per-token
/// counts add up to the word2ph counts.
pub proof fn lemma_align_keeps_total(t: Seq<char>, w: Seq<usize>, offsets: Seq<(usize, usize)>, lo: Seq<int>, hi: Seq<int>)
    requires
        w.len() == t.len() + 2,
        tokens_cover_text(t, w, offsets, lo, hi),
    ensures
        sum_front(aligned_from(t, w, offsets, 0, 0)) == sum_seq(w),
{
    let n = t.len() as int;
    lemma_aligned_tail(t, w, offsets, lo, hi, 1);
    let al = aligned_from(t, w, offsets, 0, 0);
    assert(al == seq![w[0] as int] + aligned_from(t, w, offsets, 1, 0));
    assert(al.skip(1) =~= aligned_from(t, w, offsets, 1, 0));
    assert(range_sum(w, 0, 1) == w[0]) by {
        assert(range_sum(w, 0, 0) == 0);
    }
    assert(range_sum(w, n + 1, n + 2) == w.last()) by {
        assert(range_sum(w, n + 1, n + 1) == 0);
    }
    lemma_range_sum_whole(w);
    lemma_range_sum_split(w, 0, 1, n + 1);
    lemma_range_sum_split(w, 0, n + 1, n + 2);
}

pub const ASSIST_CACHE_CAPACITY: usize = 8;

/// A least-recently-used cache of per-text values, keyed by text.
pub struct AssistCache<V> {
    entries: Vec<(Vec<char>, V)>,
    capacity: usize,
}

/// Index of the entry with key `k`, if any.
pub open spec fn key_index<V>(l: Seq<(Seq<char>, V)>, k: Seq<char>) -> Option<int> {
    if exists|i: int| 0 <= i < l.len() && (#[trigger] l[i]).0 == k {
        Some(choose|i: int| 0 <= i < l.len() && (#[trigger] l[i]).0 == k)
    } else {
        None
    }
}

pub open spec fn keys_unique<V>(l: Seq<(Seq<char>, V)>) -> bool {
    forall|i: int, j: int| 0 <= i < l.len() && 0 <= j < l.len() && i != j ==> (#[trigger] l[i]).0 != (#[trigger] l[j]).0
}

pub open spec fn has_key<V>(l: Seq<(Seq<char>, V)>, k: Seq<char>) -> bool {
    exists|i: int| 0 <= i < l.len() && (#[trigger] l[i]).0 == k
}

/// The entries after a lookup of `k`: a hit moves to the most recent end.
pub open spec fn after_get<V>(l: Seq<(Seq<char>, V)>, k: Seq<char>) -> Seq<(Seq<char>, V)> {
    match key_index(l, k) {
        Some(i) => l.remove(i).push(l[i]),
        None => l,
    }
}

/// The entries after storing `v` under `k`: any older entry for `k` goes, the new one is
/// the most recent, and the least recent is dropped when that exceeds the capacity.
pub open spec fn after_insert<V>(l: Seq<(Seq<char>, V)>, k: Seq<char>, v: V, cap: nat) -> Seq<(Seq<char>, V)> {
    let l1 = match key_index(l, k) {
        Some(i) => l.remove(i),
        None => l,
    };
    let l2 = l1.push((k, v));
    if l2.len() > cap { l2.skip(1) } else { l2 }
}

impl<V> AssistCache<V> {
    /// Entries from least to most recently used.
    pub closed spec fn entries_view(&self) -> Seq<(Seq<char>, V)> {
        self.entries@.map_values(|e: (Vec<char>, V)| (e.0@, e.1))
    }

    pub closed spec fn cap(&self) -> nat {
        self.capacity as nat
    }

    pub open spec fn wf(&self) -> bool {
        &&& keys_unique(self.entries_view())
        &&& self.entries_view().len() <= self.cap()
        &&& self.cap() >= 1
    }

    /// An empty cache holding at most `max(capacity, 1)` entries.
    pub fn new(capacity: usize) -> (r: AssistCache<V>)
        ensures
            r.wf(),
            r.entries_view() == Seq::<(Seq<char>, V)>::empty(),
            r.cap() == if capacity >= 1 { capacity as nat } else { 1 },
    {
        let r = AssistCache { entries: Vec::new(), capacity: if capacity >= 1 { capacity } else { 1 } };
        assert(r.entries_view() =~= Seq::<(Seq<char>, V)>::empty());
        r
    }

    fn find(&self, key: &[char]) -> (r: Option<usize>)
        requires
            self.wf(),
        ensures
            match r {
                Some(i) => key_index(self.entries_view(), key@) == Some(i as int),
                None => key_index(self.entries_view(), key@) is None,
            },
    {
        let ghost l = self.entries_view();
        let mut i: usize = 0;
        while i < self.entries.len()
            invariant
                l == self.entries_view(),
                i <= self.entries@.len(),
                forall|q: int| 0 <= q < i ==> (#[trigger] l[q]).0 != key@,
            decreases self.entries.len() - i,
        {
            if chars_eq(self.entries[i].0.as_slice(), key) {
                assert(l[i as int].0 == key@);
                proof {
                    assert(has_key(l, key@));
                    let j = choose|j: int| 0 <= j < l.len() && (#[trigger] l[j]).0 == key@;
                    assert(j == i);
                }
                return Some(i);
            }
            i = i + 1;
        }
        None
    }

    /// Whether the cache holds an entry for `key`.
    pub fn contains_key(&self, key: &str) -> (r: bool)
        requires
            self.wf(),
        ensures
            r == has_key(self.entries_view(), key@),
    {
        let k = chars_of(key);
        self.find(k.as_slice()).is_some()
    }

    /// Number of entries.
    pub fn len(&self) -> (r: usize)
        ensures
            r == self.entries_view().len(),
    {
        self.entries.len()
    }

    fn to_back(&mut self, i: usize)
        requires
            i < old(self).entries@.len(),
        ensures
            final(self).entries_view() == old(self).entries_view().remove(i as int).push(
                old(self).entries_view()[i as int],
            ),
            final(self).capacity == old(self).capacity,
            final(self).entries@.len() == old(self).entries@.len(),
    {
        let e = self.entries.remove(i);
        self.entries.push(e);
        assert(self.entries_view() =~= old(self).entries_view().remove(i as int).push(
            old(self).entries_view()[i as int],
        ));
    }

    /// The value for `key`, which becomes the most recently used entry.
    pub fn get(&mut self, key: &str) -> (r: Option<&V>)
        requires
            old(self).wf(),
        ensures
            final(self).wf(),
            final(self).cap() == old(self).cap(),
            final(self).entries_view() == after_get(old(self).entries_view(), key@),
            match key_index(old(self).entries_view(), key@) {
                Some(i) => r == Some(&old(self).entries_view()[i].1),
                None => r is None,
            },
    {
        let k = chars_of(key);
        match self.find(k.as_slice()) {
            Some(i) => {
                self.to_back(i);
                proof {
                    lemma_move_keeps_unique(old(self).entries_view(), i as int);
                }
                let n = self.entries.len() - 1;
                assert(self.entries_view()[n as int].1 == self.entries@[n as int].1);
                Some(&self.entries[n].1)
            },
            None => None,
        }
    }

    /// Stores `value` under `key` as the most recently used entry, dropping the least
    /// recently used one when the cache overflows.
    pub fn insert(&mut self, key: &str, value: V)
        requires
            old(self).wf(),
        ensures
            final(self).wf(),
            final(self).cap() == old(self).cap(),
            final(self).entries_view() == after_insert(old(self).entries_view(), key@, value, old(self).cap()),
    {
        let k = chars_of(key);
        let ghost l = self.entries_view();
        match self.find(k.as_slice()) {
            Some(i) => {
                self.entries.remove(i);
                assert(self.entries_view() =~= l.remove(i as int));
            },
            None => {},
        }
        let ghost l1 = self.entries_view();
        proof {
            lemma_insert_keeps_unique(l, key@, value);
        }
        self.entries.push((k, value));
        assert(self.entries_view() =~= l1.push((key@, value)));
        if self.entries.len() > self.capacity {
            let ghost l2 = self.entries_view();
            self.entries.remove(0);
            assert(self.entries_view() =~= l2.skip(1));
        }
    }
}

proof fn lemma_move_keeps_unique<V>(l: Seq<(Seq<char>, V)>, i: int)
    requires
        keys_unique(l),
        0 <= i < l.len(),
    ensures
        keys_unique(l.remove(i).push(l[i])),
{
    let m = l.remove(i).push(l[i]);
    assert forall|a: int, b: int| 0 <= a < m.len() && 0 <= b < m.len() && a != b implies (#[trigger] m[a]).0
        != (#[trigger] m[b]).0 by {
        let ia = if a == m.len() - 1 { i } else if a < i { a } else { a + 1 };
        let ib = if b == m.len() - 1 { i } else if b < i { b } else { b + 1 };
        assert(m[a] == l[ia]);
        assert(m[b] == l[ib]);
    }
}

proof fn lemma_insert_keeps_unique<V>(l: Seq<(Seq<char>, V)>, k: Seq<char>, v: V)
    requires
        keys_unique(l),
    ensures
        keys_unique(
            match key_index(l, k) {
                Some(i) => l.remove(i),
                None => l,
            }.push((k, v)),
        ),
        keys_unique(
            match key_index(l, k) {
                Some(i) => l.remove(i),
                None => l,
            }.push((k, v)).skip(1),
        ),
{
    let l1 = match key_index(l, k) {
        Some(i) => l.remove(i),
        None => l,
    };
    assert forall|a: int| 0 <= a < l1.len() implies (#[trigger] l1[a]).0 != k by {
        match key_index(l, k) {
            Some(i) => {
                let ia = if a < i { a } else { a + 1 };
                assert(l1[a] == l[ia]);
                assert(l[i].0 == k);
            },
            None => {},
        }
    }
    assert forall|a: int, b: int| 0 <= a < l1.len() && 0 <= b < l1.len() && a != b implies (#[trigger] l1[a]).0
        != (#[trigger] l1[b]).0 by {
        match key_index(l, k) {
            Some(i) => {
                let ia = if a < i { a } else { a + 1 };
                let ib = if b < i { b } else { b + 1 };
                assert(l1[a] == l[ia]);
                assert(l1[b] == l[ib]);
            },
            None => {},
        }
    }
    let l2 = l1.push((k, v));
    assert forall|a: int, b: int| 0 <= a < l2.len() && 0 <= b < l2.len() && a != b implies (#[trigger] l2[a]).0
        != (#[trigger] l2[b]).0 by {
        if a < l1.len() && b < l1.len() {
            assert(l2[a] == l1[a] && l2[b] == l1[b]);
        } else if a < l1.len() {
            assert(l2[a] == l1[a]);
        } else if b < l1.len() {
            assert(l2[b] == l1[b]);
        }
    }
    let l3 = l2.skip(1);
    assert forall|a: int, b: int| 0 <= a < l3.len() && 0 <= b < l3.len() && a != b implies (#[trigger] l3[a]).0
        != (#[trigger] l3[b]).0 by {
        assert(l3[a] == l2[a + 1] && l3[b] == l2[b + 1]);
    }
}

/// Storing a key the cache does not hold adds one entry, up to the capacity: a cache of
/// capacity `k` that received `k + 1` distinct keys holds exactly `k`. When the cache was
/// full, exactly the least recently used entry (the first) leaves.
pub proof fn lemma_insert_fresh<V>(l: Seq<(Seq<char>, V)>, k: Seq<char>, v: V, cap: nat)
    requires
        keys_unique(l),
        l.len() <= cap,
        cap >= 1,
        !has_key(l, k),
    ensures
        after_insert(l, k, v, cap).len() == if l.len() < cap { l.len() + 1 } else { cap },
        l.len() == cap ==> after_insert(l, k, v, cap) == l.skip(1).push((k, v)),
        l.len() < cap ==> after_insert(l, k, v, cap) == l.push((k, v)),
{
    assert(key_index(l, k) is None);
    if l.len() == cap {
        assert(l.push((k, v)).skip(1) =~= l.skip(1).push((k, v)));
    }
}

/// The entries after storing `vs[i]` under `ks[i]` for each `i` in turn.
pub open spec fn insert_all<V>(l: Seq<(Seq<char>, V)>, ks: Seq<Seq<char>>, vs: Seq<V>, cap: nat) -> Seq<(Seq<char>, V)>
    decreases ks.len(),
{
    if ks.len() == 0 || vs.len() == 0 {
        l
    } else {
        after_insert(insert_all(l, ks.drop_last(), vs.drop_last(), cap), ks.last(), vs.last(), cap)
    }
}

/// The last `min(n, cap)` of `n` keyed values, in order.
pub open spec fn newest<V>(ks: Seq<Seq<char>>, vs: Seq<V>, cap: nat) -> Seq<(Seq<char>, V)> {
    let off: int = if ks.len() > cap { ks.len() - cap } else { 0 };
    Seq::new((ks.len() - off) as nat, |i: int| (ks[off + i], vs[off + i]))
}

/// Storing distinct keys one after another into an empty cache of capacity `cap` leaves
/// exactly the `cap` most recent ones (all of them when fewer), oldest first: after
/// `cap + 1` keys the cache holds `cap` entries and the first key is gone.
pub proof fn lemma_insert_distinct_keys<V>(ks: Seq<Seq<char>>, vs: Seq<V>, cap: nat)
    requires
        cap >= 1,
        ks.len() == vs.len(),
        forall|i: int, j: int| 0 <= i < j < ks.len() ==> #[trigger] ks[i] != #[trigger] ks[j],
    ensures
        insert_all(Seq::<(Seq<char>, V)>::empty(), ks, vs, cap) == newest(ks, vs, cap),
        insert_all(Seq::<(Seq<char>, V)>::empty(), ks, vs, cap).len() == if ks.len() > cap { cap as int } else { ks.len() as int },
    decreases ks.len(),
{
    if ks.len() > 0 {
        let ks0 = ks.drop_last();
        let vs0 = vs.drop_last();
        lemma_insert_distinct_keys(ks0, vs0, cap);
        let prev = newest(ks0, vs0, cap);
        let off0: int = if ks0.len() > cap { ks0.len() - cap } else { 0 };
        assert forall|i: int, j: int| 0 <= i < prev.len() && 0 <= j < prev.len() && i != j implies (#[trigger] prev[i]).0 != (#[trigger] prev[j]).0 by {
            assert(prev[i].0 == ks[off0 + i] && prev[j].0 == ks[off0 + j]);
        }
        assert forall|i: int| 0 <= i < prev.len() implies (#[trigger] prev[i]).0 != ks.last() by {
            assert(prev[i].0 == ks[off0 + i]);
        }
        lemma_insert_fresh(prev, ks.last(), vs.last(), cap);
        let r = newest(ks, vs, cap);
        if prev.len() < cap {
            assert(r =~= prev.push((ks.last(), vs.last())));
        } else {
            assert(r =~= prev.skip(1).push((ks.last(), vs.last())));
        }
    }
}

/// Looking up a key and then storing a fresh one in a full cache drops the entry that
/// was least recently used after the lookup, never the one just looked up (when the
/// cache holds more than one entry).
pub proof fn lemma_get_then_insert_evicts_lru<V>(l: Seq<(Seq<char>, V)>, g: Seq<char>, k: Seq<char>, v: V, cap: nat)
    requires
        keys_unique(l),
        l.len() == cap,
        cap >= 2,
        has_key(l, g),
        !has_key(l, k),
    ensures
        after_insert(after_get(l, g), k, v, cap) == after_get(l, g).skip(1).push((k, v)),
        has_key(after_insert(after_get(l, g), k, v, cap), g),
        !has_key(after_insert(after_get(l, g), k, v, cap), after_get(l, g)[0].0),
{
    let i = choose|i: int| 0 <= i < l.len() && (#[trigger] l[i]).0 == g;
    assert(key_index(l, g) is Some);
    let idx = key_index(l, g)->0;
    let m = after_get(l, g);
    lemma_move_keeps_unique(l, idx);
    assert(m.len() == cap);
    assert forall|a: int| 0 <= a < m.len() implies (#[trigger] m[a]).0 != k by {
        let ia = if a == m.len() - 1 { idx } else if a < idx { a } else { a + 1 };
        assert(m[a] == l[ia]);
    }
    lemma_insert_fresh(m, k, v, cap);
    let r = m.skip(1).push((k, v));
    assert(r[m.len() - 2] == m[m.len() - 1]);
    assert(m[m.len() - 1].0 == g);
    assert forall|a: int| 0 <= a < r.len() implies (#[trigger] r[a]).0 != m[0].0 by {
        if a < r.len() - 1 {
            assert(r[a] == m[a + 1]);
        }
    }
}

/// A BERT model input, as the model names it.
#[derive(Debug, Clone, Copy, PartialEq, Eq)]
pub enum BertInput {
    InputIds,
    TokenTypeIds,
    AttentionMask,
}

/// The input a model input name stands for: `input_ids`; `token_type_ids`,
/// `token_type_id` or `segment_ids`; `attention_mask` or `attention_masks`.
pub open spec fn bert_input_of(name: Seq<char>) -> Option<BertInput> {
    if name == seq!['i', 'n', 'p', 'u', 't', '_', 'i', 'd', 's'] {
        Some(BertInput::InputIds)
    } else if name == seq!['t', 'o', 'k', 'e', 'n', '_', 't', 'y', 'p', 'e', '_', 'i', 'd', 's'] || name == seq!['t', 'o', 'k', 'e', 'n', '_', 't', 'y', 'p', 'e', '_', 'i', 'd'] || name == seq!['s', 'e', 'g', 'm', 'e', 'n', 't', '_', 'i', 'd', 's'] {
        Some(BertInput::TokenTypeIds)
    } else if name == seq!['a', 't', 't', 'e', 'n', 't', 'i', 'o', 'n', '_', 'm', 'a', 's', 'k'] || name == seq!['a', 't', 't', 'e', 'n', 't', 'i', 'o', 'n', '_', 'm', 'a', 's', 'k', 's'] {
        Some(BertInput::AttentionMask)
    } else {
        None
    }
}

fn bert_input_kind(name: &str) -> (r: Option<BertInput>)
    ensures
        r == bert_input_of(name@),
{
    let c = chars_of(name);
    proof {
        assert(['i', 'n', 'p', 'u', 't', '_', 'i', 'd', 's']@ =~= seq!['i', 'n', 'p', 'u', 't', '_', 'i', 'd', 's']);
        assert(['t', 'o', 'k', 'e', 'n', '_', 't', 'y', 'p', 'e', '_', 'i', 'd', 's']@ =~= seq!['t', 'o', 'k', 'e', 'n', '_', 't', 'y', 'p', 'e', '_', 'i', 'd', 's']);
        assert(['t', 'o', 'k', 'e', 'n', '_', 't', 'y', 'p', 'e', '_', 'i', 'd']@ =~= seq!['t', 'o', 'k', 'e', 'n', '_', 't', 'y', 'p', 'e', '_', 'i', 'd']);
        assert(['s', 'e', 'g', 'm', 'e', 'n', 't', '_', 'i', 'd', 's']@ =~= seq!['s', 'e', 'g', 'm', 'e', 'n', 't', '_', 'i', 'd', 's']);
        assert(['a', 't', 't', 'e', 'n', 't', 'i', 'o', 'n', '_', 'm', 'a', 's', 'k']@ =~= seq!['a', 't', 't', 'e', 'n', 't', 'i', 'o', 'n', '_', 'm', 'a', 's', 'k']);
        assert(['a', 't', 't', 'e', 'n', 't', 'i', 'o', 'n', '_', 'm', 'a', 's', 'k', 's']@ =~= seq!['a', 't', 't', 'e', 'n', 't', 'i', 'o', 'n', '_', 'm', 'a', 's', 'k', 's']);
    }
    if chars_eq(c.as_slice(), ['i', 'n', 'p', 'u', 't', '_', 'i', 'd', 's'].as_slice()) {
        Some(BertInput::InputIds)
    } else if chars_eq(c.as_slice(), ['t', 'o', 'k', 'e', 'n', '_', 't', 'y', 'p', 'e', '_', 'i', 'd', 's'].as_slice()) || chars_eq(c.as_slice(), ['t', 'o', 'k', 'e', 'n', '_', 't', 'y', 'p', 'e', '_', 'i', 'd'].as_slice()) || chars_eq(c.as_slice(), ['s', 'e', 'g', 'm', 'e', 'n', 't', '_', 'i', 'd', 's'].as_slice()) {
        Some(BertInput::TokenTypeIds)
    } else if chars_eq(c.as_slice(), ['a', 't', 't', 'e', 'n', 't', 'i', 'o', 'n', '_', 'm', 'a', 's', 'k'].as_slice()) || chars_eq(c.as_slice(), ['a', 't', 't', 'e', 'n', 't', 'i', 'o', 'n', '_', 'm', 'a', 's', 'k', 's'].as_slice()) {
        Some(BertInput::AttentionMask)
    } else {
        None
    }
}

/// The inputs to feed, in the order the model declares their names; an unknown name is
/// an error.
pub fn bert_input_order(names: &Vec<String>) -> (r: Result<Vec<BertInput>, TtsError>)
    ensures
        match r {
            Ok(v) => v@.len() == names@.len() && forall|i: int|
                0 <= i < names@.len() ==> bert_input_of(names@[i]@) == Some(#[trigger] v@[i]),
            Err(_) => exists|i: int| 0 <= i < names@.len() && bert_input_of(#[trigger] names@[i]@) is None,
        },
{
    let mut v: Vec<BertInput> = Vec::new();
    let mut i: usize = 0;
    while i < names.len()
        invariant
            i <= names@.len(),
            v@.len() == i,
            forall|q: int| 0 <= q < i ==> bert_input_of(names@[q]@) == Some(#[trigger] v@[q]),
        decreases names.len() - i,
    {
        match bert_input_kind(names[i].as_str()) {
            Some(k) => v.push(k),
            None => {
                return Err(TtsError::Mapping(string_of(chars_of(names[i].as_str()).as_slice())));
            },
        }
        i = i + 1;
    }
    Ok(v)
}

/// Sequence length and hidden size of the first BERT output: `[b, n, h]` with `b >= 1`
/// (the first batch entry is used) or `[n, h]`; any other shape is an error.
pub fn bert_output_dims(dims: &Vec<usize>) -> (r: Result<(usize, usize), TtsError>)
    ensures
        match r {
            Ok((n, h)) => (dims@.len() == 3 && dims@[0] >= 1 && n == dims@[1] && h == dims@[2]) || (
            dims@.len() == 2 && n == dims@[0] && h == dims@[1]),
            Err(_) => !(dims@.len() == 3 && dims@[0] >= 1) && dims@.len() != 2,
        },
{
    if dims.len() == 3 && dims[0] >= 1 {
        Ok((dims[1], dims[2]))
    } else if dims.len() == 2 {
        Ok((dims[0], dims[1]))
    } else {
        Err(TtsError::Shape(string_of(['o', 'u', 't', 'p', 'u', 't', ' ', 's', 'h', 'a', 'p', 'e'].as_slice())))
    }
}

/// Token values widened to 64 bits.
pub fn to_i64_array(values: &Vec<u32>) -> (r: Vec<i64>)
    ensures
        r@.len() == values@.len(),
        forall|i: int| 0 <= i < values@.len() ==> #[trigger] r@[i] == values@[i] as i64,
{
    let mut r: Vec<i64> = Vec::new();
    let mut i: usize = 0;
    while i < values.len()
        invariant
            i <= values@.len(),
            r@.len() == i,
            forall|q: int| 0 <= q < i ==> #[trigger] r@[q] == values@[q] as i64,
        decreases values.len() - i,
    {
        r.push(values[i] as i64);
        i = i + 1;
    }
    r
}

/// The three `[1, n]` BERT inputs of a tokenization: ids, type ids (zeros when the
/// tokenizer gives none) and attention mask; an empty tokenization is an error.
pub fn bert_token_inputs(ids: &Vec<u32>, type_ids: &Vec<u32>, mask: &Vec<u32>) -> (r: Result<
    (Vec<i64>, Vec<i64>, Vec<i64>),
    TtsError,
>)
    ensures
        match r {
            Ok((a, t, m)) => {
                &&& ids@.len() > 0
                &&& a@.len() == ids@.len() && forall|i: int| 0 <= i < ids@.len() ==> #[trigger] a@[i] == ids@[i] as i64
                &&& type_ids@.len() == 0 ==> t@ == Seq::new(ids@.len(), |i: int| 0i64)
                &&& type_ids@.len() > 0 ==> t@.len() == type_ids@.len() && forall|i: int|
                    0 <= i < type_ids@.len() ==> #[trigger] t@[i] == type_ids@[i] as i64
                &&& m@.len() == mask@.len() && forall|i: int| 0 <= i < mask@.len() ==> #[trigger] m@[i] == mask@[i] as i64
            },
            Err(e) => ids@.len() == 0 && e is Tokenization,
        },
{
    if ids.len() == 0 {
        return Err(TtsError::Tokenization(string_of(['e', 'm', 'p', 't', 'y'].as_slice())));
    }
    let a = to_i64_array(ids);
    let t = if type_ids.len() == 0 {
        let mut z: Vec<i64> = Vec::new();
        let mut i: usize = 0;
        while i < ids.len()
            invariant
                i <= ids@.len(),
                z@ == Seq::new(i as nat, |q: int| 0i64),
            decreases ids.len() - i,
        {
            z.push(0);
            i = i + 1;
            assert(z@ =~= Seq::new(i as nat, |q: int| 0i64));
        }
        z
    } else {
        to_i64_array(type_ids)
    };
    let m = to_i64_array(mask);
    Ok((a, t, m))
}

} // verus!
