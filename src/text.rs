//! Conversions between `str`/`String` and character vectors.
use vstd::prelude::*;

verus! {

/// Collects the characters of `s`, in order.
pub fn chars_of(s: &str) -> (r: Vec<char>)
    ensures
        r@ == s@,
{
    let n = s.unicode_len();
    let mut r: Vec<char> = Vec::new();
    let mut i: usize = 0;
    while i < n
        invariant
            n == s@.len(),
            i <= n,
            r@ == s@.subrange(0, i as int),
        decreases n - i,
    {
        r.push(s.get_char(i));
        i = i + 1;
        assert(r@ =~= s@.subrange(0, i as int));
    }
    assert(r@ =~= s@);
    r
}

/// Relies on `String::from_iter`: the string holds the given characters in order.
#[verifier::external_body]
pub(crate) fn string_of(v: &[char]) -> (r: String)
    ensures
        r@ == v@,
{
    String::from_iter(v.iter())
}

/// Characters equal, element by element.
pub fn chars_eq(a: &[char], b: &[char]) -> (r: bool)
    ensures
        r == (a@ == b@),
{
    if a.len() != b.len() {
        return false;
    }
    let mut i: usize = 0;
    while i < a.len()
        invariant
            a.len() == b.len(),
            i <= a.len(),
            forall|j: int| 0 <= j < i ==> a@[j] == b@[j],
        decreases a.len() - i,
    {
        if a[i] != b[i] {
            return false;
        }
        i = i + 1;
    }
    assert(a@ =~= b@);
    true
}

/// Appends all of `b` to `a`.
pub fn append_chars(a: &mut Vec<char>, b: &[char])
    ensures
        final(a)@ == old(a)@ + b@,
{
    let mut i: usize = 0;
    while i < b.len()
        invariant
            i <= b.len(),
            a@ == old(a)@ + b@.subrange(0, i as int),
        decreases b.len() - i,
    {
        a.push(b[i]);
        i = i + 1;
        assert(a@ =~= old(a)@ + b@.subrange(0, i as int));
    }
    assert(b@.subrange(0, b.len() as int) =~= b@);
}

/// Copies a slice of characters into a new vector.
pub fn to_vec_chars(b: &[char]) -> (r: Vec<char>)
    ensures
        r@ == b@,
{
    let mut r: Vec<char> = Vec::new();
    append_chars(&mut r, b);
    assert(r@ =~= b@);
    r
}

/// Sum of a sequence of counts.
pub open spec fn sum_seq(s: Seq<usize>) -> int
    decreases s.len(),
{
    if s.len() == 0 {
        0
    } else {
        sum_seq(s.drop_last()) + s.last()
    }
}

pub proof fn lemma_sum_push(s: Seq<usize>, x: usize)
    ensures
        sum_seq(s.push(x)) == sum_seq(s) + x,
{
    assert(s.push(x).drop_last() =~= s);
}

pub proof fn lemma_sum_append(a: Seq<usize>, b: Seq<usize>)
    ensures
        sum_seq(a + b) == sum_seq(a) + sum_seq(b),
    decreases b.len(),
{
    if b.len() == 0 {
        assert(a + b =~= a);
    } else {
        lemma_sum_append(a, b.drop_last());
        assert((a + b).drop_last() =~= a + b.drop_last());
    }
}

pub proof fn lemma_sum_nonneg(s: Seq<usize>)
    ensures
        sum_seq(s) >= 0,
    decreases s.len(),
{
    if s.len() > 0 {
        lemma_sum_nonneg(s.drop_last());
    }
}

/// Converts character vectors to strings, element by element.
pub fn strings_of(v: &Vec<Vec<char>>) -> (r: Vec<String>)
    ensures
        r@.len() == v@.len(),
        forall|i: int| 0 <= i < v@.len() ==> #[trigger] r@[i]@ == v@[i]@,
{
    let mut r: Vec<String> = Vec::new();
    let mut i: usize = 0;
    while i < v.len()
        invariant
            i <= v.len(),
            r@.len() == i,
            forall|j: int| 0 <= j < i ==> #[trigger] r@[j]@ == v@[j]@,
        decreases v.len() - i,
    {
        r.push(string_of(v[i].as_slice()));
        i = i + 1;
    }
    r
}

/// Converts strings to character vectors, element by element.
pub fn chars_of_all(v: &Vec<String>) -> (r: Vec<Vec<char>>)
    ensures
        r@.len() == v@.len(),
        forall|i: int| 0 <= i < v@.len() ==> #[trigger] r@[i]@ == v@[i]@,
{
    let mut r: Vec<Vec<char>> = Vec::new();
    let mut i: usize = 0;
    while i < v.len()
        invariant
            i <= v.len(),
            r@.len() == i,
            forall|j: int| 0 <= j < i ==> #[trigger] r@[j]@ == v@[j]@,
        decreases v.len() - i,
    {
        r.push(chars_of(v[i].as_str()));
        i = i + 1;
    }
    r
}

/// Views of a sequence of character vectors.
pub open spec fn view_all(v: Seq<Vec<char>>) -> Seq<Seq<char>> {
    v.map_values(|x: Vec<char>| x@)
}

/// Copies `v[lo..hi]`.
pub fn copy_range(v: &Vec<Vec<char>>, lo: usize, hi: usize) -> (r: Vec<Vec<char>>)
    requires
        lo <= hi <= v.len(),
    ensures
        view_all(r@) == view_all(v@).subrange(lo as int, hi as int),
{
    let mut r: Vec<Vec<char>> = Vec::new();
    let mut i = lo;
    while i < hi
        invariant
            lo <= i <= hi,
            view_all(r@) == view_all(v@).subrange(lo as int, i as int),
        decreases hi - i,
    {
        r.push(to_vec_chars(v[i].as_slice()));
        i = i + 1;
        assert(view_all(r@) =~= view_all(v@).subrange(lo as int, i as int));
    }
    r
}

/// `a` followed by `b`.
pub fn concat_all(a: Vec<Vec<char>>, b: &Vec<Vec<char>>) -> (r: Vec<Vec<char>>)
    ensures
        view_all(r@) == view_all(a@) + view_all(b@),
{
    let mut r = a;
    let ghost a0 = view_all(r@);
    let mut i: usize = 0;
    while i < b.len()
        invariant
            i <= b.len(),
            view_all(r@) == a0 + view_all(b@).subrange(0, i as int),
        decreases b.len() - i,
    {
        let x = to_vec_chars(b[i].as_slice());
        let ghost r0 = r@;
        r.push(x);
        assert(r@ == r0.push(x));
        assert(view_all(r@) =~= view_all(r0).push(x@));
        i = i + 1;
        assert(view_all(r@) =~= a0 + view_all(b@).subrange(0, i as int));
    }
    assert(view_all(b@).subrange(0, i as int) =~= view_all(b@));
    r
}

pub proof fn lemma_sum_update(s: Seq<usize>, i: int, x: usize)
    requires
        0 <= i < s.len(),
    ensures
        sum_seq(s.update(i, x)) == sum_seq(s) - s[i] + x,
    decreases s.len(),
{
    if i == s.len() - 1 {
        assert(s.update(i, x).drop_last() =~= s.drop_last());
    } else {
        lemma_sum_update(s.drop_last(), i, x);
        assert(s.update(i, x).drop_last() =~= s.drop_last().update(i, x));
    }
}

pub proof fn lemma_element_le_sum(s: Seq<usize>, i: int)
    requires
        0 <= i < s.len(),
    ensures
        s[i] <= sum_seq(s),
    decreases s.len(),
{
    lemma_sum_nonneg(s.drop_last());
    if i < s.len() - 1 {
        lemma_element_le_sum(s.drop_last(), i);
    }
}

pub proof fn lemma_sum_take_le(s: Seq<usize>, k: int)
    requires
        0 <= k <= s.len(),
    ensures
        sum_seq(s.take(k)) <= sum_seq(s),
{
    lemma_sum_append(s.take(k), s.skip(k));
    lemma_sum_nonneg(s.skip(k));
    assert(s.take(k) + s.skip(k) =~= s);
}

/// A sequence zero everywhere but at its ends sums to its two ends.
pub proof fn lemma_sum_ends(s: Seq<usize>)
    requires
        s.len() >= 2,
        forall|q: int| 0 < q < s.len() - 1 ==> s[q] == 0,
    ensures
        sum_seq(s) == s[0] + s.last(),
    decreases s.len(),
{
    let t = s.drop_last();
    lemma_sum_prefix_zero(t);
    assert(sum_seq(s) == sum_seq(t) + s.last());
}

proof fn lemma_sum_prefix_zero(t: Seq<usize>)
    requires
        t.len() >= 1,
        forall|q: int| 0 < q < t.len() ==> t[q] == 0,
    ensures
        sum_seq(t) == t[0],
    decreases t.len(),
{
    if t.len() == 1 {
        assert(t.drop_last() =~= Seq::<usize>::empty());
        assert(sum_seq(t) == sum_seq(t.drop_last()) + t.last());
    } else {
        lemma_sum_prefix_zero(t.drop_last());
        assert(t.last() == 0);
        assert(sum_seq(t) == sum_seq(t.drop_last()) + t.last());
    }
}

} // verus!
