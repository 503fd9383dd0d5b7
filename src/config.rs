//! Model configuration.
use vstd::prelude::*;
use crate::text::string_of;

verus! {

/// Hyper-parameters of a model, as its `config.json` gives them.
pub struct HyperParameters {
    pub model_name: String,
    pub version: String,
    pub data: HyperParametersData,
}

/// The `data` section of the hyper-parameters; the name tables keep their key order.
pub struct HyperParametersData {
    pub use_jp_extra: bool,
    pub sampling_rate: u32,
    pub add_blank: bool,
    pub cleaned_text: bool,
    pub spk2id: Vec<(String, usize)>,
    pub num_styles: usize,
    pub style2id: Vec<(String, usize)>,
}

/// Sampling rate used when the configuration names none.
pub fn default_sampling_rate() -> (r: u32)
    ensures
        r == 44100,
{
    44100
}

/// Blank interspersion is on unless the configuration turns it off.
pub fn default_add_blank() -> (r: bool)
    ensures
        r,
{
    true
}

/// The decimal digit character of `d` (below 10).
pub open spec fn digit_of(d: nat) -> char {
    ((d + 48) as u8) as char
}

/// Decimal digits of `n`.
pub open spec fn decimal(n: nat) -> Seq<char>
    decreases n,
{
    if n < 10 {
        seq![digit_of(n)]
    } else {
        decimal(n / 10).push(digit_of(n % 10))
    }
}

fn decimal_exec(n: usize) -> (r: Vec<char>)
    ensures
        r@ == decimal(n as nat),
    decreases n,
{
    if n < 10 {
        let r = vec![((n + 48) as u8) as char];
        assert(r@ =~= decimal(n as nat));
        r
    } else {
        let mut r = decimal_exec(n / 10);
        r.push((((n % 10) + 48) as u8) as char);
        r
    }
}

/// `a` before `b`: character by character, a proper prefix first (the order of `String`).
pub open spec fn key_lt(a: Seq<char>, b: Seq<char>) -> bool
    decreases a.len(),
{
    if a.len() == 0 {
        b.len() > 0
    } else if b.len() == 0 {
        false
    } else if a[0] != b[0] {
        a[0] < b[0]
    } else {
        key_lt(a.skip(1), b.skip(1))
    }
}

/// Names unique and in increasing order, as in an ordered map.
pub open spec fn table_sorted(t: Seq<(String, usize)>) -> bool {
    forall|i: int, j: int| 0 <= i < j < t.len() ==> key_lt(#[trigger] t[i].0@, #[trigger] t[j].0@)
}

proof fn lemma_key_lt_trans(a: Seq<char>, b: Seq<char>, c: Seq<char>)
    requires
        key_lt(a, b),
        key_lt(b, c),
    ensures
        key_lt(a, c),
    decreases a.len(),
{
    if a.len() > 0 && b.len() > 0 && c.len() > 0 && a[0] == b[0] && b[0] == c[0] {
        lemma_key_lt_trans(a.skip(1), b.skip(1), c.skip(1));
    }
}

proof fn lemma_key_lt_total(a: Seq<char>, b: Seq<char>)
    requires
        a != b,
    ensures
        key_lt(a, b) || key_lt(b, a),
    decreases a.len(),
{
    if a.len() > 0 && b.len() > 0 && a[0] == b[0] {
        if a.skip(1) == b.skip(1) {
            assert(a =~= seq![a[0]] + a.skip(1));
            assert(b =~= seq![b[0]] + b.skip(1));
        }
        lemma_key_lt_total(a.skip(1), b.skip(1));
    } else if a.len() == 0 && b.len() == 0 {
        assert(a =~= b);
    }
}

proof fn lemma_decimal_len(n: nat)
    ensures
        decimal(n).len() >= 1,
        n >= 10 ==> decimal(n).len() >= 2,
    decreases n,
{
    if n >= 10 {
        lemma_decimal_len(n / 10);
    }
}

proof fn lemma_digit_char_injective(x: nat, y: nat)
    requires
        x < 10,
        y < 10,
        digit_of(x) == digit_of(y),
    ensures
        x == y,
{
    assert((((x + 48) as u8) as char) as u32 == ((x + 48) as u8) as u32);
    assert((((y + 48) as u8) as char) as u32 == ((y + 48) as u8) as u32);
}

proof fn lemma_decimal_injective(a: nat, b: nat)
    requires
        decimal(a) == decimal(b),
    ensures
        a == b,
    decreases a,
{
    lemma_decimal_len(a);
    lemma_decimal_len(b);
    if a >= 10 && b >= 10 {
        assert(decimal(a).drop_last() == decimal(a / 10));
        assert(decimal(b).drop_last() == decimal(b / 10));
        lemma_decimal_injective(a / 10, b / 10);
        assert(decimal(a) == decimal(a / 10).push(digit_of(a % 10)));
        assert(decimal(b) == decimal(b / 10).push(digit_of(b % 10)));
        assert(decimal(a).last() == decimal(b).last());
        assert(decimal(a).last() == digit_of(a % 10));
        assert(decimal(b).last() == digit_of(b % 10));
        lemma_digit_char_injective(a % 10, b % 10);
        assert(a == 10 * (a / 10) + a % 10);
        assert(b == 10 * (b / 10) + b % 10);
    } else if a < 10 && b < 10 {
        assert(decimal(a) == seq![digit_of(a)]);
        assert(decimal(b) == seq![digit_of(b)]);
        assert(decimal(a)[0] == decimal(b)[0]);
        assert(decimal(a)[0] == digit_of(a));
        assert(decimal(b)[0] == digit_of(b));
        lemma_digit_char_injective(a, b);
    }
}

fn key_less(a: &[char], b: &[char]) -> (r: bool)
    ensures
        r == key_lt(a@, b@),
{
    let mut i: usize = 0;
    assert(a@.skip(0) =~= a@ && b@.skip(0) =~= b@);
    while i < a.len() && i < b.len() && a[i] == b[i]
        invariant
            i <= a@.len() && i <= b@.len(),
            key_lt(a@, b@) == key_lt(a@.skip(i as int), b@.skip(i as int)),
        decreases a.len() - i,
    {
        assert(a@.skip(i as int).skip(1) =~= a@.skip(i + 1));
        assert(b@.skip(i as int).skip(1) =~= b@.skip(i + 1));
        i = i + 1;
    }
    if i == a.len() {
        i < b.len()
    } else if i == b.len() {
        false
    } else {
        a[i] < b[i]
    }
}

/// Inserts a new name into a sorted table at its place.
fn sorted_insert(t: &mut Vec<(String, usize)>, k: String, v: usize)
    requires
        table_sorted(old(t)@),
        forall|j: int| 0 <= j < old(t)@.len() ==> (#[trigger] old(t)@[j]).0@ != k@,
    ensures
        table_sorted(final(t)@),
        exists|p: int| 0 <= p <= old(t)@.len() && final(t)@ == old(t)@.insert(p, (k, v)),
{
    let kc = crate::text::chars_of(k.as_str());
    let mut p: usize = 0;
    while p < t.len() && key_less(crate::text::chars_of(t[p].0.as_str()).as_slice(), kc.as_slice())
        invariant
            p <= t@.len(),
            kc@ == k@,
            forall|q: int| 0 <= q < p ==> key_lt((#[trigger] t@[q]).0@, k@),
        decreases t.len() - p,
    {
        p = p + 1;
    }
    let ghost t0 = t@;
    proof {
        if p < t0.len() {
            lemma_key_lt_total(t0[p as int].0@, k@);
        }
    }
    t.insert(p, (k, v));
    proof {
        let r = t@;
        assert forall|i: int, j: int| 0 <= i < j < r.len() implies key_lt(#[trigger] r[i].0@, #[trigger] r[j].0@) by {
            if j < p {
                assert(r[i] == t0[i] && r[j] == t0[j]);
            } else if j == p {
                assert(r[i] == t0[i]);
            } else if i == p {
                assert(r[j] == t0[j - 1]);
                if j - 1 > p {
                    lemma_key_lt_trans(k@, t0[p as int].0@, t0[j - 1].0@);
                }
            } else if i < p {
                assert(r[i] == t0[i] && r[j] == t0[j - 1]);
            } else {
                assert(r[i] == t0[i - 1] && r[j] == t0[j - 1]);
            }
        }
    }
}

/// The style count after defaults: the number of named styles (at least one) when it
/// was 0.
pub open spec fn completed_num_styles(num_styles: usize, style2id: Seq<(String, usize)>) -> nat {
    if num_styles == 0 {
        if style2id.len() >= 1 { style2id.len() } else { 1 }
    } else {
        num_styles as nat
    }
}

/// Some entry of `t` is index `q`, named by it in decimal.
pub open spec fn names_index(t: Seq<(String, usize)>, q: int) -> bool {
    exists|j: int| 0 <= j < t.len() && (#[trigger] t[j]).0@ == decimal(q as nat) && t[j].1 == q
}

/// `t` names each style `0..n` by its index in decimal, in name order.
pub open spec fn index_named(t: Seq<(String, usize)>, n: nat) -> bool {
    &&& t.len() == n
    &&& table_sorted(t)
    &&& forall|q: int| 0 <= q < n ==> #[trigger] names_index(t, q)
    &&& forall|j: int| 0 <= j < t.len() ==> (#[trigger] t[j]).1 < n && t[j].0@ == decimal(t[j].1 as nat)
}

impl HyperParametersData {
    /// Both name tables are ordered maps: names unique and increasing.
    pub open spec fn wf(&self) -> bool {
        table_sorted(self.spk2id@) && table_sorted(self.style2id@)
    }

    /// Fills in the style count and the style table where the configuration left them out:
    /// an empty style table names each style by its index.
    pub fn complete_styles(&mut self)
        requires
            old(self).wf(),
        ensures
            final(self).wf(),
            final(self).num_styles as nat == completed_num_styles(old(self).num_styles, old(self).style2id@),
            old(self).style2id@.len() > 0 ==> final(self).style2id@ == old(self).style2id@,
            old(self).style2id@.len() == 0 ==> index_named(final(self).style2id@, final(self).num_styles as nat),
            final(self).spk2id@ == old(self).spk2id@,
            final(self).sampling_rate == old(self).sampling_rate,
            final(self).add_blank == old(self).add_blank,
    {
        if self.num_styles == 0 {
            self.num_styles = if self.style2id.len() >= 1 { self.style2id.len() } else { 1 };
        }
        if self.style2id.len() == 0 {
            let n = self.num_styles;
            let mut i: usize = 0;
            while i < n
                invariant
                    n == self.num_styles,
                    i <= n,
                    index_named(self.style2id@, i as nat),
                    self.spk2id@ == old(self).spk2id@,
                    table_sorted(self.spk2id@),
                    self.sampling_rate == old(self).sampling_rate,
                    self.add_blank == old(self).add_blank,
                decreases n - i,
            {
                let d = decimal_exec(i);
                let name = string_of(d.as_slice());
                let ghost t0 = self.style2id@;
                proof {
                    assert forall|j: int| 0 <= j < t0.len() implies (#[trigger] t0[j]).0@ != name@ by {
                        if t0[j].0@ == name@ {
                            lemma_decimal_injective(t0[j].1 as nat, i as nat);
                        }
                    }
                }
                sorted_insert(&mut self.style2id, name, i);
                proof {
                    let t1 = self.style2id@;
                    let p = choose|p: int| 0 <= p <= t0.len() && t1 == t0.insert(p, (name, i));
                    assert forall|q: int| 0 <= q < i + 1 implies #[trigger] names_index(t1, q) by {
                        if q == i {
                            assert(t1[p] == (name, i));
                        } else {
                            assert(names_index(t0, q));
                            let j0 = choose|j: int| 0 <= j < t0.len() && (#[trigger] t0[j]).0@ == decimal(q as nat) && t0[j].1 == q;
                            if j0 < p {
                                assert(t1[j0] == t0[j0]);
                            } else {
                                assert(t1[j0 + 1] == t0[j0]);
                            }
                        }
                    }
                    assert forall|j: int| 0 <= j < t1.len() implies (#[trigger] t1[j]).1 < i + 1 && t1[j].0@ == decimal(t1[j].1 as nat) by {
                        if j < p {
                            assert(t1[j] == t0[j]);
                        } else if j > p {
                            assert(t1[j] == t0[j - 1]);
                        }
                    }
                }
                i = i + 1;
            }
        }
    }
}

/// Wall-clock time of one synthesis.
pub struct SynthesisTimings {
    pub total_ms: u128,
}

} // verus!
