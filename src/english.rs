//! English fallback grapheme-to-phoneme conversion for ASCII tokens.
use vstd::prelude::*;
use crate::cn2an::is_ascii_digit;
use crate::symbols::{ascii_upper, is_punctuation, is_punctuation_char, to_ascii_upper};
use crate::text::{
    chars_eq, chars_of, lemma_sum_append, lemma_sum_push, string_of, strings_of, sum_seq, view_all,
};

verus! {

/// Phones, tones and per-character phone counts of one token.
pub struct EnglishG2pResult {
    pub phones: Vec<String>,
    pub tones: Vec<i32>,
    pub char_phone_counts: Vec<usize>,
}

/// A pronouncing dictionary: upper-case words and their ARPAbet phonemes, in order.
pub struct CmuDict {
    words: Vec<Vec<char>>,
    phonemes: Vec<Vec<Vec<char>>>,
}

/// Index of the first entry at or after `i` that is spelled `key`.
pub open spec fn find_from(ws: Seq<Seq<char>>, key: Seq<char>, i: int) -> Option<int>
    decreases ws.len() - i,
{
    if i < 0 || i >= ws.len() {
        None
    } else if ws[i] == key {
        Some(i)
    } else {
        find_from(ws, key, i + 1)
    }
}

impl CmuDict {
    pub closed spec fn wf(&self) -> bool {
        self.words@.len() == self.phonemes@.len()
    }

    pub closed spec fn word_seq(&self) -> Seq<Seq<char>> {
        view_all(self.words@)
    }

    /// The phonemes listed for `key`, if the dictionary has it.
    pub closed spec fn lookup(&self, key: Seq<char>) -> Option<Seq<Seq<char>>> {
        match find_from(self.word_seq(), key, 0) {
            Some(i) => Some(view_all(self.phonemes@[i]@)),
            None => None,
        }
    }

    /// An empty dictionary.
    pub fn new() -> (r: CmuDict)
        ensures
            r.wf(),
            forall|k: Seq<char>| r.lookup(k) is None,
    {
        CmuDict { words: Vec::new(), phonemes: Vec::new() }
    }

    fn find(&self, key: &[char]) -> (r: Option<usize>)
        requires
            self.wf(),
        ensures
            match r {
                Some(i) => find_from(self.word_seq(), key@, 0) == Some(i as int) && i
                    < self.words@.len(),
                None => find_from(self.word_seq(), key@, 0) is None,
            },
    {
        let mut i: usize = 0;
        while i < self.words.len()
            invariant
                i <= self.words@.len(),
                find_from(self.word_seq(), key@, 0) == find_from(self.word_seq(), key@, i as int),
            decreases self.words.len() - i,
        {
            if chars_eq(self.words[i].as_slice(), key) {
                assert(self.word_seq()[i as int] == key@);
                return Some(i);
            }
            assert(self.word_seq()[i as int] != key@);
            i = i + 1;
        }
        None
    }

    /// Adds (or replaces) the entry for `word`.
    pub fn insert(&mut self, word: Vec<char>, phonemes: Vec<Vec<char>>)
        requires
            old(self).wf(),
        ensures
            final(self).wf(),
            final(self).lookup(word@) == Some(view_all(phonemes@)),
            forall|k: Seq<char>| k != word@ ==> #[trigger] final(self).lookup(k) == old(self).lookup(k),
    {
        match self.find(word.as_slice()) {
            Some(i) => {
                let ghost pv = phonemes@;
                self.phonemes.set(i, phonemes);
                assert(self.word_seq() =~= view_all(old(self).words@));
                assert(self.phonemes@[i as int]@ == pv);
                assert(find_from(self.word_seq(), word@, 0) == Some(i as int));
                proof {
                    lemma_find_in_range(self.word_seq(), word@, 0);
                }
                assert forall|k: Seq<char>| k != word@ implies #[trigger] self.lookup(k) == old(self).lookup(k) by {
                    lemma_find_in_range(self.word_seq(), k, 0);
                    if let Some(j) = find_from(self.word_seq(), k, 0) {
                        assert(self.word_seq()[j] == k);
                        assert(j != i);
                    }
                }
            },
            None => {
                let ghost old_ws = self.word_seq();
                self.words.push(word);
                self.phonemes.push(phonemes);
                proof {
                    let ws = self.word_seq();
                    assert(ws =~= old_ws.push(word@));
                    lemma_find_push(old_ws, word@, 0);
                    assert forall|k: Seq<char>| k != word@ implies #[trigger] self.lookup(k) == old(self).lookup(k) by {
                        lemma_find_push_other(old_ws, word@, k, 0);
                        lemma_find_in_range(old_ws, k, 0);
                    }
                }
            },
        }
    }

    /// The phonemes listed for `key`.
    pub fn get(&self, key: &[char]) -> (r: Option<&Vec<Vec<char>>>)
        requires
            self.wf(),
        ensures
            match r {
                Some(p) => self.lookup(key@) == Some(view_all(p@)),
                None => self.lookup(key@) is None,
            },
    {
        match self.find(key) {
            Some(i) => {
                assert(find_from(self.word_seq(), key@, 0) == Some(i as int));
                Some(&self.phonemes[i])
            },
            None => None,
        }
    }
}

proof fn lemma_find_in_range(ws: Seq<Seq<char>>, key: Seq<char>, i: int)
    ensures
        find_from(ws, key, i) matches Some(j) ==> i <= j < ws.len() && ws[j] == key,
    decreases ws.len() - i,
{
    if 0 <= i < ws.len() && ws[i] != key {
        lemma_find_in_range(ws, key, i + 1);
    }
}

proof fn lemma_find_push_other(ws: Seq<Seq<char>>, w: Seq<char>, key: Seq<char>, i: int)
    requires
        key != w,
        0 <= i,
    ensures
        find_from(ws.push(w), key, i) == find_from(ws, key, i),
    decreases ws.len() + 1 - i,
{
    if i < ws.len() {
        assert(ws.push(w)[i] == ws[i]);
        lemma_find_push_other(ws, w, key, i + 1);
    } else if i == ws.len() {
        assert(ws.push(w)[i] == w);
        assert(find_from(ws.push(w), key, i + 1) is None);
    }
}

proof fn lemma_find_push(ws: Seq<Seq<char>>, key: Seq<char>, i: int)
    requires
        0 <= i <= ws.len(),
        find_from(ws, key, i) is None,
    ensures
        find_from(ws.push(key), key, i) == Some(ws.len() as int),
    decreases ws.len() - i,
{
    if i < ws.len() {
        lemma_find_push(ws, key, i + 1);
    }
}

/// The ARPAbet phonemes with their stress digits.
pub open spec fn arpa_list() -> Seq<&'static str> {
    seq![
        "AH0", "S", "AH1", "EY2", "AE2", "EH0", "OW2", "UH0", "NG", "B", "G", "AY0",
        "M", "AA0", "F", "AO0", "ER2", "UH1", "IY1", "AH2", "DH", "IY0", "EY1", "IH0",
        "K", "N", "W", "IY2", "T", "AA1", "ER1", "EH2", "OY0", "UH2", "UW1", "Z",
        "AW2", "AW1", "V", "UW2", "AA2", "ER", "AW0", "UW0", "R", "OW1", "EH1", "ZH",
        "AE0", "IH2", "IH", "Y", "JH", "P", "AY1", "EY0", "OY2", "TH", "HH", "D",
        "ER0", "CH", "AO1", "AE1", "AO2", "OY1", "AY2", "IH1", "OW0", "L", "SH",
    ]
}

fn arpa_table() -> (r: Vec<&'static str>)
    ensures
        r@ == arpa_list(),
{
    let r = vec![
        "AH0", "S", "AH1", "EY2", "AE2", "EH0", "OW2", "UH0", "NG", "B", "G", "AY0",
        "M", "AA0", "F", "AO0", "ER2", "UH1", "IY1", "AH2", "DH", "IY0", "EY1", "IH0",
        "K", "N", "W", "IY2", "T", "AA1", "ER1", "EH2", "OY0", "UH2", "UW1", "Z",
        "AW2", "AW1", "V", "UW2", "AA2", "ER", "AW0", "UW0", "R", "OW1", "EH1", "ZH",
        "AE0", "IH2", "IH", "Y", "JH", "P", "AY1", "EY0", "OY2", "TH", "HH", "D",
        "ER0", "CH", "AO1", "AE1", "AO2", "OY1", "AY2", "IH1", "OW0", "L", "SH",
    ];
    assert(r@ =~= arpa_list());
    r
}

pub open spec fn is_arpa(p: Seq<char>) -> bool {
    exists|i: int| 0 <= i < arpa_list().len() && (#[trigger] arpa_list()[i])@ == p
}

fn is_arpa_exec(p: &[char]) -> (r: bool)
    ensures
        r == is_arpa(p@),
{
    let t = arpa_table();
    let mut i: usize = 0;
    while i < t.len()
        invariant
            t@ == arpa_list(),
            i <= t.len(),
            forall|j: int| 0 <= j < i ==> (#[trigger] arpa_list()[j])@ != p@,
        decreases t.len() - i,
    {
        let s = chars_of(t[i]);
        if chars_eq(s.as_slice(), p) {
            return true;
        }
        i = i + 1;
    }
    false
}

pub open spec fn ascii_lower(c: char) -> char {
    if 'A' <= c && c <= 'Z' {
        ((c as u8) + 32) as u8 as char
    } else {
        c
    }
}

fn to_ascii_lower(c: char) -> (r: char)
    ensures
        r == ascii_lower(c),
{
    if 'A' <= c && c <= 'Z' {
        ((c as u8) + 32) as char
    } else {
        c
    }
}

pub open spec fn is_space_or_tab_ascii(c: char) -> bool {
    c == ' ' || c == '\t' || c == '\n' || c == '\r' || c == '\u{c}' || c == '\u{b}'
}

/// Phoneme without surrounding ASCII blanks.
pub open spec fn trim_blanks(s: Seq<char>) -> Seq<char>
    decreases s.len(),
{
    if s.len() > 0 && is_space_or_tab_ascii(s[0]) {
        trim_blanks(s.skip(1))
    } else if s.len() > 0 && is_space_or_tab_ascii(s.last()) {
        trim_blanks(s.drop_last())
    } else {
        s
    }
}

/// Symbol and tone of an ARPAbet phoneme: lower case without its stress digit; the
/// tone is the digit plus one, 3 without a digit, and 0 for a phoneme outside ARPAbet.
pub open spec fn refined(p: Seq<char>) -> (Seq<char>, i32) {
    let b = trim_blanks(p);
    let has_digit = b.len() > 0 && is_ascii_digit(b.last());
    let base = if has_digit { b.drop_last() } else { b };
    let tone: i32 = if has_digit { (b.last() as u32 - '0' as u32 + 1) as i32 } else { 3 };
    (base.map_values(|c: char| ascii_lower(c)), if is_arpa(p) { tone } else { 0 })
}

fn trim_blanks_exec(p: &[char]) -> (r: Vec<char>)
    ensures
        r@ == trim_blanks(p@),
{
    let mut lo: usize = 0;
    let mut hi: usize = p.len();
    assert(p@.subrange(0, p.len() as int) =~= p@);
    while lo < hi && (p[lo] == ' ' || p[lo] == '\t' || p[lo] == '\n' || p[lo] == '\r' || p[lo]
        == '\u{c}' || p[lo] == '\u{b}')
        invariant
            lo <= hi == p.len(),
            trim_blanks(p@) == trim_blanks(p@.subrange(lo as int, hi as int)),
        decreases hi - lo,
    {
        assert(p@.subrange(lo as int, hi as int).skip(1) =~= p@.subrange(lo + 1, hi as int));
        lo = lo + 1;
    }
    while lo < hi && (p[hi - 1] == ' ' || p[hi - 1] == '\t' || p[hi - 1] == '\n' || p[hi - 1]
        == '\r' || p[hi - 1] == '\u{c}' || p[hi - 1] == '\u{b}')
        invariant
            lo <= hi <= p.len(),
            lo == hi || !is_space_or_tab_ascii(p@[lo as int]),
            trim_blanks(p@) == trim_blanks(p@.subrange(lo as int, hi as int)),
        decreases hi - lo,
    {
        assert(p@.subrange(lo as int, hi as int).drop_last() =~= p@.subrange(lo as int, hi - 1));
        hi = hi - 1;
    }
    let mut r: Vec<char> = Vec::new();
    let mut i = lo;
    while i < hi
        invariant
            lo <= i <= hi <= p.len(),
            r@ == p@.subrange(lo as int, i as int),
        decreases hi - i,
    {
        r.push(p[i]);
        i = i + 1;
        assert(r@ =~= p@.subrange(lo as int, i as int));
    }
    r
}

/// Splits an ARPAbet phoneme into its symbol and tone.
pub fn refine_phoneme(p: &[char]) -> (r: (Vec<char>, i32))
    ensures
        (r.0@, r.1) == refined(p@),
{
    let b = trim_blanks_exec(p);
    let has_digit = b.len() > 0 && '0' <= b[b.len() - 1] && b[b.len() - 1] <= '9';
    let n = if has_digit { b.len() - 1 } else { b.len() };
    let tone: i32 = if has_digit { (b[b.len() - 1] as u32 - '0' as u32 + 1) as i32 } else { 3 };
    let mut base: Vec<char> = Vec::new();
    let mut i: usize = 0;
    while i < n
        invariant
            n <= b.len(),
            i <= n,
            base@ == b@.subrange(0, i as int).map_values(|c: char| ascii_lower(c)),
        decreases n - i,
    {
        base.push(to_ascii_lower(b[i]));
        i = i + 1;
        assert(base@ =~= b@.subrange(0, i as int).map_values(|c: char| ascii_lower(c)));
    }
    proof {
        if has_digit {
            assert(b@.subrange(0, n as int) =~= b@.drop_last());
        } else {
            assert(b@.subrange(0, n as int) =~= b@);
        }
    }
    if is_arpa_exec(p) {
        (base, tone)
    } else {
        (base, 0)
    }
}

/// Spelled-out phone of a letter.
pub open spec fn letter_phone(c: char) -> Seq<char> {
    let lc = ascii_lower(c);
    if lc == 'a' {
        seq!['e', 'y']
    } else
    if lc == 'b' {
        seq!['b']
    } else
    if lc == 'c' {
        seq!['k']
    } else
    if lc == 'd' {
        seq!['d']
    } else
    if lc == 'e' {
        seq!['i', 'y']
    } else
    if lc == 'f' {
        seq!['f']
    } else
    if lc == 'g' {
        seq!['g']
    } else
    if lc == 'h' {
        seq!['h', 'h']
    } else
    if lc == 'i' {
        seq!['a', 'y']
    } else
    if lc == 'j' {
        seq!['j', 'h']
    } else
    if lc == 'k' {
        seq!['k']
    } else
    if lc == 'l' {
        seq!['l']
    } else
    if lc == 'm' {
        seq!['m']
    } else
    if lc == 'n' {
        seq!['n']
    } else
    if lc == 'o' {
        seq!['o', 'w']
    } else
    if lc == 'p' {
        seq!['p']
    } else
    if lc == 'q' {
        seq!['k']
    } else
    if lc == 'r' {
        seq!['r']
    } else
    if lc == 's' {
        seq!['s']
    } else
    if lc == 't' {
        seq!['t']
    } else
    if lc == 'u' {
        seq!['u', 'w']
    } else
    if lc == 'v' {
        seq!['v']
    } else
    if lc == 'w' {
        seq!['w']
    } else
    if lc == 'x' {
        seq!['k']
    } else
    if lc == 'y' {
        seq!['y']
    } else
    if lc == 'z' {
        seq!['z']
    } else {
        seq!['u', 'n', 'k']
    }
}

fn letter_phone_exec(c: char) -> (r: Vec<char>)
    ensures
        r@ == letter_phone(c),
{
    let lc = to_ascii_lower(c);
    if lc == 'a' {
        vec!['e', 'y']
    } else
    if lc == 'b' {
        vec!['b']
    } else
    if lc == 'c' {
        vec!['k']
    } else
    if lc == 'd' {
        vec!['d']
    } else
    if lc == 'e' {
        vec!['i', 'y']
    } else
    if lc == 'f' {
        vec!['f']
    } else
    if lc == 'g' {
        vec!['g']
    } else
    if lc == 'h' {
        vec!['h', 'h']
    } else
    if lc == 'i' {
        vec!['a', 'y']
    } else
    if lc == 'j' {
        vec!['j', 'h']
    } else
    if lc == 'k' {
        vec!['k']
    } else
    if lc == 'l' {
        vec!['l']
    } else
    if lc == 'm' {
        vec!['m']
    } else
    if lc == 'n' {
        vec!['n']
    } else
    if lc == 'o' {
        vec!['o', 'w']
    } else
    if lc == 'p' {
        vec!['p']
    } else
    if lc == 'q' {
        vec!['k']
    } else
    if lc == 'r' {
        vec!['r']
    } else
    if lc == 's' {
        vec!['s']
    } else
    if lc == 't' {
        vec!['t']
    } else
    if lc == 'u' {
        vec!['u', 'w']
    } else
    if lc == 'v' {
        vec!['v']
    } else
    if lc == 'w' {
        vec!['w']
    } else
    if lc == 'x' {
        vec!['k']
    } else
    if lc == 'y' {
        vec!['y']
    } else
    if lc == 'z' {
        vec!['z']
    } else {
        vec!['u', 'n', 'k']
    }
}

/// Phones of a digit read in English.
pub open spec fn digit_phones(c: char) -> Seq<Seq<char>> {
    if c == '0' {
        seq![seq!['z'], seq!['i', 'y'], seq!['r'], seq!['o', 'w']]
    } else
    if c == '1' {
        seq![seq!['w'], seq!['a', 'h'], seq!['n']]
    } else
    if c == '2' {
        seq![seq!['t'], seq!['u', 'w']]
    } else
    if c == '3' {
        seq![seq!['t', 'h'], seq!['r'], seq!['i', 'y']]
    } else
    if c == '4' {
        seq![seq!['f'], seq!['a', 'o'], seq!['r']]
    } else
    if c == '5' {
        seq![seq!['f'], seq!['a', 'y'], seq!['v']]
    } else
    if c == '6' {
        seq![seq!['s'], seq!['i', 'h'], seq!['k'], seq!['s']]
    } else
    if c == '7' {
        seq![seq!['s'], seq!['e', 'h'], seq!['v'], seq!['a', 'h'], seq!['n']]
    } else
    if c == '8' {
        seq![seq!['e', 'y'], seq!['t']]
    } else
    if c == '9' {
        seq![seq!['n'], seq!['a', 'y'], seq!['n']]
    } else {
        seq![seq!['u', 'n', 'k']]
    }
}

fn digit_mapping(c: char) -> (r: Vec<Vec<char>>)
    ensures
        view_all(r@) == digit_phones(c),
{
    let r =
    if c == '0' {
        vec![vec!['z'], vec!['i', 'y'], vec!['r'], vec!['o', 'w']]
    } else
    if c == '1' {
        vec![vec!['w'], vec!['a', 'h'], vec!['n']]
    } else
    if c == '2' {
        vec![vec!['t'], vec!['u', 'w']]
    } else
    if c == '3' {
        vec![vec!['t', 'h'], vec!['r'], vec!['i', 'y']]
    } else
    if c == '4' {
        vec![vec!['f'], vec!['a', 'o'], vec!['r']]
    } else
    if c == '5' {
        vec![vec!['f'], vec!['a', 'y'], vec!['v']]
    } else
    if c == '6' {
        vec![vec!['s'], vec!['i', 'h'], vec!['k'], vec!['s']]
    } else
    if c == '7' {
        vec![vec!['s'], vec!['e', 'h'], vec!['v'], vec!['a', 'h'], vec!['n']]
    } else
    if c == '8' {
        vec![vec!['e', 'y'], vec!['t']]
    } else
    if c == '9' {
        vec![vec!['n'], vec!['a', 'y'], vec!['n']]
    } else {
        vec![vec!['u', 'n', 'k']]
    };
    assert(view_all(r@) =~~= digit_phones(c));
    r
}

/// One spelled-out phone per letter, tone 0.
pub fn fallback_alpha_segment(segment: &[char]) -> (r: Vec<(Vec<char>, i32)>)
    ensures
        pairs_view(r@) == fallback_pairs(segment@),
{
    let mut r: Vec<(Vec<char>, i32)> = Vec::new();
    let mut i: usize = 0;
    while i < segment.len()
        invariant
            i <= segment.len(),
            pairs_view(r@) == fallback_pairs(segment@).take(i as int),
        decreases segment.len() - i,
    {
        r.push((letter_phone_exec(segment[i]), 0i32));
        i = i + 1;
        assert(pairs_view(r@) =~= fallback_pairs(segment@).take(i as int));
    }
    assert(fallback_pairs(segment@).take(i as int) =~= fallback_pairs(segment@));
    r
}

/// `total` spread over `slots` as evenly as possible, the earlier slots taking the remainder.
pub open spec fn distributed(total: nat, slots: nat) -> Seq<usize> {
    Seq::new(slots, |i: int| (total / slots + if i < total % slots { 1nat } else { 0nat }) as usize)
}

/// Spreads `total` phones over `slots` characters, repeatedly giving one more to the
/// first of the least-filled slots.
pub fn distribute(total: usize, slots: usize) -> (r: Vec<usize>)
    ensures
        r@ == distributed(total as nat, slots as nat),
        slots > 0 ==> sum_seq(r@) == total,
{
    let mut r: Vec<usize> = Vec::new();
    if slots == 0 {
        assert(r@ =~= distributed(total as nat, slots as nat));
        return r;
    }
    let q = total / slots;
    let m = total % slots;
    let mut i: usize = 0;
    while i < slots
        invariant
            q == total / slots,
            m == total % slots,
            slots > 0,
            i <= slots,
            r@ == distributed(total as nat, slots as nat).subrange(0, i as int),
            sum_seq(r@) == q * i + if i < m { i as int } else { m as int },
        decreases slots - i,
    {
        proof {
            if i < m {
                assert(q + 1 <= total) by (nonlinear_arith)
                    requires
                        q == total / slots,
                        m == total % slots,
                        slots > 0,
                        m > 0,
                ;
            }
        }
        let v = if i < m { q + 1 } else { q };
        proof {
            lemma_sum_push(r@, v);
            assert(q * (i + 1) == q * i + q) by (nonlinear_arith);
        }
        r.push(v);
        i = i + 1;
        assert(r@ =~= distributed(total as nat, slots as nat).subrange(0, i as int));
    }
    proof {
        assert(r@ =~= distributed(total as nat, slots as nat));
        assert(total == q * slots + m) by (nonlinear_arith)
            requires
                q == total / slots,
                m == total % slots,
                slots > 0,
        ;
    }
    r
}

pub open spec fn is_ascii_alpha(c: char) -> bool {
    ('a' <= c && c <= 'z') || ('A' <= c && c <= 'Z')
}

pub open spec fn pairs_view(v: Seq<(Vec<char>, i32)>) -> Seq<(Seq<char>, i32)> {
    v.map_values(|p: (Vec<char>, i32)| (p.0@, p.1))
}

pub open spec fn refined_all(ps: Seq<Seq<char>>) -> Seq<(Seq<char>, i32)> {
    ps.map_values(|p: Seq<char>| refined(p))
}

pub open spec fn fallback_pairs(seg: Seq<char>) -> Seq<(Seq<char>, i32)> {
    seg.map_values(|c: char| (letter_phone(c), 0i32))
}

/// A single letter: its dictionary entry, or its spelled-out phone.
pub open spec fn letter_pairs(dict: CmuDict, c: char) -> Seq<(Seq<char>, i32)> {
    match dict.lookup(seq![ascii_upper(c)]) {
        Some(ps) => if ps.len() > 0 {
            refined_all(ps)
        } else {
            seq![(letter_phone(c), 0i32)]
        },
        None => seq![(letter_phone(c), 0i32)],
    }
}

/// Letters pronounced one by one.
pub open spec fn spelled_pairs(dict: CmuDict, seg: Seq<char>) -> Seq<(Seq<char>, i32)>
    decreases seg.len(),
{
    if seg.len() == 0 {
        seq![]
    } else {
        letter_pairs(dict, seg[0]) + spelled_pairs(dict, seg.skip(1))
    }
}

pub open spec fn all_upper(seg: Seq<char>) -> bool {
    forall|i: int| 0 <= i < seg.len() ==> 'A' <= #[trigger] seg[i] && seg[i] <= 'Z'
}

/// A run of letters: its dictionary entry; else, when it is an upper-case acronym of two or
/// more letters, its letters one by one; else one spelled-out phone per letter.
pub open spec fn segment_pairs(dict: CmuDict, seg: Seq<char>) -> Seq<(Seq<char>, i32)> {
    let entry = dict.lookup(seg.map_values(|c: char| ascii_upper(c)));
    if entry is Some && entry->0.len() > 0 {
        refined_all(entry->0)
    } else if all_upper(seg) && seg.len() > 1 && spelled_pairs(dict, seg).len() > 0 {
        spelled_pairs(dict, seg)
    } else {
        fallback_pairs(seg)
    }
}

fn refine_all_exec(ps: &Vec<Vec<char>>) -> (r: Vec<(Vec<char>, i32)>)
    ensures
        pairs_view(r@) == refined_all(view_all(ps@)),
{
    let mut r: Vec<(Vec<char>, i32)> = Vec::new();
    let mut i: usize = 0;
    while i < ps.len()
        invariant
            i <= ps.len(),
            pairs_view(r@) == refined_all(view_all(ps@)).subrange(0, i as int),
        decreases ps.len() - i,
    {
        let x = refine_phoneme(ps[i].as_slice());
        r.push(x);
        i = i + 1;
        assert(pairs_view(r@) =~= refined_all(view_all(ps@)).subrange(0, i as int));
    }
    assert(refined_all(view_all(ps@)).subrange(0, i as int) =~= refined_all(view_all(ps@)));
    r
}

fn append_pairs(a: &mut Vec<(Vec<char>, i32)>, b: Vec<(Vec<char>, i32)>)
    ensures
        pairs_view(final(a)@) == pairs_view(old(a)@) + pairs_view(b@),
{
    let mut b = b;
    let ghost bv = pairs_view(b@);
    let mut rev: Vec<(Vec<char>, i32)> = Vec::new();
    while b.len() > 0
        invariant
            bv == pairs_view(b@) + pairs_view(rev@).reverse(),
        decreases b.len(),
    {
        let x = b.pop().unwrap();
        rev.push(x);
        assert(pairs_view(b@) + pairs_view(rev@).reverse() =~= bv);
    }
    assert(pairs_view(rev@).reverse() =~= bv);
    let ghost a0 = pairs_view(a@);
    while rev.len() > 0
        invariant
            pairs_view(a@) + pairs_view(rev@).reverse() == a0 + bv,
        decreases rev.len(),
    {
        let x = rev.pop().unwrap();
        a.push(x);
        assert(pairs_view(a@) + pairs_view(rev@).reverse() =~= a0 + bv);
    }
    assert(pairs_view(a@) =~= a0 + bv);
}

fn letter_pairs_exec(dict: &CmuDict, c: char) -> (r: Vec<(Vec<char>, i32)>)
    requires
        dict.wf(),
    ensures
        pairs_view(r@) == letter_pairs(*dict, c),
{
    let key = vec![to_ascii_upper(c)];
    assert(key@ =~= seq![ascii_upper(c)]);
    match dict.get(key.as_slice()) {
        Some(ps) => {
            if ps.len() > 0 {
                return refine_all_exec(ps);
            }
        },
        None => {},
    }
    let r = vec![(letter_phone_exec(c), 0i32)];
    assert(pairs_view(r@) =~= seq![(letter_phone(c), 0i32)]);
    r
}

/// Phones and tones of a run of ASCII letters.
pub fn g2p_alpha_segment(dict: &CmuDict, seg: &[char]) -> (r: Vec<(Vec<char>, i32)>)
    requires
        dict.wf(),
    ensures
        pairs_view(r@) == segment_pairs(*dict, seg@),
{
    let mut key: Vec<char> = Vec::new();
    let mut i: usize = 0;
    while i < seg.len()
        invariant
            i <= seg.len(),
            key@ == seg@.subrange(0, i as int).map_values(|c: char| ascii_upper(c)),
        decreases seg.len() - i,
    {
        key.push(to_ascii_upper(seg[i]));
        i = i + 1;
        assert(key@ =~= seg@.subrange(0, i as int).map_values(|c: char| ascii_upper(c)));
    }
    assert(seg@.subrange(0, i as int) =~= seg@);
    match dict.get(key.as_slice()) {
        Some(ps) => {
            if ps.len() > 0 {
                return refine_all_exec(ps);
            }
        },
        None => {},
    }
    let mut upper = true;
    let mut j: usize = 0;
    while j < seg.len()
        invariant
            j <= seg.len(),
            upper == forall|k: int| 0 <= k < j ==> 'A' <= #[trigger] seg@[k] && seg@[k] <= 'Z',
        decreases seg.len() - j,
    {
        if !('A' <= seg[j] && seg[j] <= 'Z') {
            upper = false;
        }
        j = j + 1;
    }
    if upper && seg.len() > 1 {
        let mut out: Vec<(Vec<char>, i32)> = Vec::new();
        let mut k: usize = 0;
        assert(seg@.skip(0) =~= seg@);
        while k < seg.len()
            invariant
                dict.wf(),
                k <= seg.len(),
                pairs_view(out@) + spelled_pairs(*dict, seg@.skip(k as int)) == spelled_pairs(
                    *dict,
                    seg@,
                ),
            decreases seg.len() - k,
        {
            let piece = letter_pairs_exec(dict, seg[k]);
            proof {
                assert(seg@.skip(k as int).skip(1) =~= seg@.skip(k + 1));
                assert(seg@.skip(k as int)[0] == seg@[k as int]);
            }
            append_pairs(&mut out, piece);
            k = k + 1;
            assert(pairs_view(out@) + spelled_pairs(*dict, seg@.skip(k as int)) =~= spelled_pairs(
                *dict,
                seg@,
            ));
        }
        assert(seg@.skip(k as int) =~= seq![]);
        assert(pairs_view(out@) =~= spelled_pairs(*dict, seg@));
        if out.len() > 0 {
            return out;
        }
    }
    fallback_alpha_segment(seg)
}

/// Number of leading ASCII letters.
pub open spec fn alpha_run_len(s: Seq<char>) -> nat
    decreases s.len(),
{
    if s.len() > 0 && is_ascii_alpha(s[0]) {
        1 + alpha_run_len(s.skip(1))
    } else {
        0
    }
}

pub open spec fn unk() -> Seq<char> {
    seq!['U', 'N', 'K']
}

/// Phones (with tones) and per-character phone counts of the characters of `s`: runs of
/// letters through `segment_pairs`, spread over their letters; digits read one by one;
/// `'`, `-` and the punctuation marks as themselves; anything else `UNK`.
pub open spec fn word_pieces(dict: CmuDict, s: Seq<char>) -> (Seq<(Seq<char>, i32)>, Seq<usize>)
    decreases s.len(),
{
    if s.len() == 0 {
        (seq![], seq![])
    } else if is_ascii_alpha(s[0]) {
        let k = alpha_run_len(s);
        if 1 <= k <= s.len() {
            let ps = segment_pairs(dict, s.take(k as int));
            let rest = word_pieces(dict, s.skip(k as int));
            (ps + rest.0, distributed(ps.len(), k) + rest.1)
        } else {
            (seq![], seq![])
        }
    } else {
        let rest = word_pieces(dict, s.skip(1));
        let c = s[0];
        if is_ascii_digit(c) {
            let ds = digit_phones(c);
            (ds.map_values(|p: Seq<char>| (p, 0i32)) + rest.0, seq![ds.len() as usize] + rest.1)
        } else if c == '\'' || c == '-' || is_punctuation(c) {
            (seq![(seq![c], 0i32)] + rest.0, seq![1usize] + rest.1)
        } else {
            (seq![(unk(), 0i32)] + rest.0, seq![1usize] + rest.1)
        }
    }
}

/// ASCII letters, digits, `'` and `-` only.
pub open spec fn is_english(s: Seq<char>) -> bool {
    forall|i: int|
        0 <= i < s.len() ==> is_ascii_alpha(#[trigger] s[i]) || is_ascii_digit(s[i]) || s[i]
            == '\'' || s[i] == '-'
}

/// Whether the token is made of ASCII letters, digits, `'` and `-` only.
pub fn is_english_token(token: &str) -> (r: bool)
    ensures
        r == is_english(token@),
{
    let s = chars_of(token);
    let mut i: usize = 0;
    while i < s.len()
        invariant
            s@ == token@,
            i <= s.len(),
            forall|j: int|
                0 <= j < i ==> is_ascii_alpha(#[trigger] s@[j]) || is_ascii_digit(s@[j]) || s@[j]
                    == '\'' || s@[j] == '-',
        decreases s.len() - i,
    {
        let c = s[i];
        if !(('a' <= c && c <= 'z') || ('A' <= c && c <= 'Z') || ('0' <= c && c <= '9') || c
            == '\'' || c == '-') {
            return false;
        }
        i = i + 1;
    }
    true
}

pub open spec fn all_white_space(s: Seq<char>) -> bool {
    forall|i: int| 0 <= i < s.len() ==> crate::normalizer::is_white_space(#[trigger] s[i])
}

/// The English reading of a token: no phones and counts `[0]` for a blank token; else
/// `word_pieces`, with a lone `UNK` when nothing was produced.
pub open spec fn english_g2p(dict: CmuDict, s: Seq<char>) -> (Seq<(Seq<char>, i32)>, Seq<usize>) {
    if all_white_space(s) {
        (seq![], seq![0usize])
    } else {
        let w = word_pieces(dict, s);
        let ps = if w.0.len() == 0 { seq![(unk(), 0i32)] } else { w.0 };
        let cs = if w.1.len() == 0 { seq![ps.len() as usize] } else { w.1 };
        (ps, cs)
    }
}

pub open spec fn result_pairs(r: EnglishG2pResult) -> Seq<(Seq<char>, i32)> {
    Seq::new(r.phones@.len(), |i: int| (r.phones@[i]@, r.tones@[i]))
}

proof fn lemma_alpha_run(s: Seq<char>, j: nat)
    requires
        j <= s.len(),
        forall|m: int| 0 <= m < j ==> is_ascii_alpha(#[trigger] s[m]),
        j == s.len() || !is_ascii_alpha(s[j as int]),
    ensures
        alpha_run_len(s) == j,
    decreases j,
{
    if j > 0 {
        assert(is_ascii_alpha(s[0]));
        lemma_alpha_run(s.skip(1), (j - 1) as nat);
    }
}

/// The piece of `word_pieces` that starts at `s[i]`: where the next one starts, its
/// phones and its counts.
fn word_piece_at(dict: &CmuDict, s: &Vec<char>, i: usize) -> (r: (usize, Vec<(Vec<char>, i32)>, Vec<usize>))
    requires
        dict.wf(),
        i < s.len(),
    ensures
        i < r.0 <= s.len(),
        word_pieces(*dict, s@.skip(i as int)) == (
            pairs_view(r.1@) + word_pieces(*dict, s@.skip(r.0 as int)).0,
            r.2@ + word_pieces(*dict, s@.skip(r.0 as int)).1,
        ),
        r.2@.len() == r.0 - i,
        sum_seq(r.2@) == r.1@.len(),
{
    let n = s.len();
    let ghost rest = s@.skip(i as int);
    let c = s[i];
    assert(rest[0] == c);
    if ('a' <= c && c <= 'z') || ('A' <= c && c <= 'Z') {
        let mut j = i;
        while j < n && (('a' <= s[j] && s[j] <= 'z') || ('A' <= s[j] && s[j] <= 'Z'))
            invariant
                i <= j <= n,
                forall|m: int| i <= m < j ==> is_ascii_alpha(#[trigger] s@[m]),
            decreases n - j,
        {
            j = j + 1;
        }
        proof {
            assert forall|m: int| 0 <= m < j - i implies is_ascii_alpha(#[trigger] rest[m]) by {
                assert(rest[m] == s@[m + i]);
            }
            if j < n {
                assert(rest[j - i] == s@[j as int]);
            }
            lemma_alpha_run(rest, (j - i) as nat);
            assert(rest.take((j - i) as int) =~= s@.subrange(i as int, j as int));
            assert(rest.skip((j - i) as int) =~= s@.skip(j as int));
        }
        let mut seg: Vec<char> = Vec::new();
        let mut q = i;
        while q < j
            invariant
                i <= q <= j,
                seg@ == s@.subrange(i as int, q as int),
            decreases j - q,
        {
            seg.push(s[q]);
            q = q + 1;
            assert(seg@ =~= s@.subrange(i as int, q as int));
        }
        let ps = g2p_alpha_segment(dict, seg.as_slice());
        let dist = distribute(ps.len(), j - i);
        (j, ps, dist)
    } else {
        proof {
            assert(rest.skip(1) =~= s@.skip(i + 1));
        }
        if '0' <= c && c <= '9' {
            let ds = digit_mapping(c);
            let len = ds.len();
            let mut pairs: Vec<(Vec<char>, i32)> = Vec::new();
            let mut k: usize = 0;
            while k < ds.len()
                invariant
                    k <= ds.len(),
                    pairs@.len() == k,
                    forall|q: int|
                        0 <= q < k ==> (#[trigger] pairs@[q]).0@ == ds@[q]@ && pairs@[q].1 == 0,
                decreases ds.len() - k,
            {
                pairs.push((crate::text::to_vec_chars(ds[k].as_slice()), 0i32));
                k = k + 1;
            }
            assert(pairs_view(pairs@) =~= view_all(ds@).map_values(|p: Seq<char>| (p, 0i32)));
            let counts = vec![len];
            proof {
                lemma_sum_push(seq![], len);
                assert(seq![].push(len) =~= counts@);
            }
            (i + 1, pairs, counts)
        } else {
            let ph = if c == '\'' || c == '-' || is_punctuation_char(c) {
                let v = vec![c];
                assert(v@ =~= seq![c]);
                v
            } else {
                let v = vec!['U', 'N', 'K'];
                assert(v@ =~= unk());
                v
            };
            let pairs = vec![(ph, 0i32)];
            assert(pairs_view(pairs@) =~= seq![(ph@, 0i32)]);
            let counts = vec![1usize];
            proof {
                lemma_sum_push(seq![], 1);
                assert(seq![].push(1usize) =~= counts@);
            }
            (i + 1, pairs, counts)
        }
    }
}

/// Grapheme-to-phoneme conversion of one ASCII token, with the phones spread over its
/// characters.
pub fn g2p_word(token: &str, dict: &CmuDict) -> (r: EnglishG2pResult)
    requires
        dict.wf(),
    ensures
        r.phones@.len() == r.tones@.len(),
        (result_pairs(r), r.char_phone_counts@) == english_g2p(*dict, token@),
        !all_white_space(token@) ==> r.char_phone_counts@.len() == token@.len(),
        !all_white_space(token@) ==> sum_seq(r.char_phone_counts@) == r.phones@.len(),
{
    let s = chars_of(token);
    let mut blank = true;
    let mut b: usize = 0;
    while b < s.len()
        invariant
            s@ == token@,
            b <= s.len(),
            blank == forall|q: int| 0 <= q < b ==> crate::normalizer::is_white_space(#[trigger] s@[q]),
        decreases s.len() - b,
    {
        if !crate::normalizer::is_white_space_char(s[b]) {
            blank = false;
        }
        b = b + 1;
    }
    if blank {
        let r = EnglishG2pResult { phones: Vec::new(), tones: Vec::new(), char_phone_counts: vec![0] };
        assert(result_pairs(r) =~= seq![]);
        assert(r.char_phone_counts@ =~= seq![0usize]);
        return r;
    }
    let n = s.len();
    let mut pairs: Vec<(Vec<char>, i32)> = Vec::new();
    let mut counts: Vec<usize> = Vec::new();
    let mut i: usize = 0;
    assert(s@.skip(0) =~= s@);
    while i < n
        invariant
            dict.wf(),
            n == s.len(),
            i <= n,
            pairs_view(pairs@) + word_pieces(*dict, s@.skip(i as int)).0 == word_pieces(*dict, s@).0,
            counts@ + word_pieces(*dict, s@.skip(i as int)).1 == word_pieces(*dict, s@).1,
            counts@.len() == i,
            sum_seq(counts@) == pairs@.len(),
        decreases n - i,
    {
        let (j, ps, dist) = word_piece_at(dict, &s, i);
        proof {
            lemma_sum_append(counts@, dist@);
        }
        append_pairs(&mut pairs, ps);
        let mut d: usize = 0;
        let ghost c0 = counts@;
        while d < dist.len()
            invariant
                d <= dist.len(),
                counts@ == c0 + dist@.subrange(0, d as int),
            decreases dist.len() - d,
        {
            counts.push(dist[d]);
            d = d + 1;
            assert(counts@ =~= c0 + dist@.subrange(0, d as int));
        }
        assert(dist@.subrange(0, d as int) =~= dist@);
        i = j;
        assert(pairs_view(pairs@) + word_pieces(*dict, s@.skip(i as int)).0 =~= word_pieces(
            *dict,
            s@,
        ).0);
        assert(counts@ + word_pieces(*dict, s@.skip(i as int)).1 =~= word_pieces(*dict, s@).1);
    }
    assert(s@.skip(n as int) =~= seq![]);
    assert(pairs_view(pairs@) =~= word_pieces(*dict, s@).0);
    assert(counts@ =~= word_pieces(*dict, s@).1);
    if pairs.len() == 0 {
        pairs.push((vec!['U', 'N', 'K'], 0i32));
        assert(pairs_view(pairs@) =~= seq![(unk(), 0i32)]);
    }
    let mut phones: Vec<String> = Vec::new();
    let mut tones: Vec<i32> = Vec::new();
    let mut k: usize = 0;
    while k < pairs.len()
        invariant
            k <= pairs.len(),
            phones@.len() == k,
            tones@.len() == k,
            forall|q: int|
                0 <= q < k ==> (#[trigger] phones@[q])@ == pairs@[q].0@ && tones@[q] == pairs@[q].1,
        decreases pairs.len() - k,
    {
        phones.push(string_of(pairs[k].0.as_slice()));
        tones.push(pairs[k].1);
        k = k + 1;
    }
    let r = EnglishG2pResult { phones, tones, char_phone_counts: counts };
    assert(result_pairs(r) =~= pairs_view(pairs@));
    r
}

/// Whether `sep` occurs in `s` at `i`.
pub open spec fn occurs_at(s: Seq<char>, sep: Seq<char>, i: int) -> bool {
    0 <= i && i + sep.len() <= s.len() && s.subrange(i, i + sep.len()) == sep
}

/// First position at or after `i` where `sep` occurs.
pub open spec fn find_sep(s: Seq<char>, sep: Seq<char>, i: int) -> Option<int>
    decreases s.len() + 1 - i,
{
    if i < 0 || i + sep.len() > s.len() {
        None
    } else if occurs_at(s, sep, i) {
        Some(i)
    } else {
        find_sep(s, sep, i + 1)
    }
}

/// The pieces of `s` between occurrences of `sep`, as `str::split` gives them.
pub open spec fn split_on(s: Seq<char>, sep: Seq<char>) -> Seq<Seq<char>>
    decreases s.len(),
{
    let f = find_sep(s, sep, 0);
    if sep.len() > 0 && f is Some && 0 <= f->0 && f->0 + sep.len() <= s.len() {
        seq![s.take(f->0)] + split_on(s.skip(f->0 + sep.len()), sep)
    } else {
        seq![s]
    }
}

proof fn lemma_find_sep_bounds(s: Seq<char>, sep: Seq<char>, i: int)
    ensures
        find_sep(s, sep, i) matches Some(j) ==> i <= j && j + sep.len() <= s.len() && occurs_at(s, sep, j),
    decreases s.len() + 1 - i,
{
    if !(i < 0 || i + sep.len() > s.len()) && !occurs_at(s, sep, i) {
        lemma_find_sep_bounds(s, sep, i + 1);
    }
}

fn find_sep_exec(s: &[char], lo: usize, sep: &[char]) -> (r: Option<usize>)
    requires
        lo <= s.len(),
    ensures
        match r {
            Some(j) => find_sep(s@.skip(lo as int), sep@, 0) == Some(j - lo) && lo <= j,
            None => find_sep(s@.skip(lo as int), sep@, 0) is None,
        },
{
    let ghost t = s@.skip(lo as int);
    let mut i = lo;
    while i <= s.len() && sep.len() <= s.len() - i
        invariant
            lo <= i,
            t == s@.skip(lo as int),
            find_sep(t, sep@, 0) == find_sep(t, sep@, i - lo),
        decreases s.len() + 1 - i,
    {
        let piece = s.split_at(i).1.split_at(sep.len()).0;
        assert(piece@ =~= t.subrange(i - lo, i - lo + sep@.len()));
        if crate::text::chars_eq(piece, sep) {
            assert(occurs_at(t, sep@, i - lo));
            return Some(i);
        }
        assert(!occurs_at(t, sep@, i - lo));
        if i == s.len() {
            assert(find_sep(t, sep@, i - lo + 1) is None);
            return None;
        }
        i = i + 1;
    }
    None
}

/// Splits `s` at every `sep`.
pub fn split_chars(s: &[char], sep: &[char]) -> (r: Vec<Vec<char>>)
    requires
        sep@.len() > 0,
    ensures
        view_all(r@) == split_on(s@, sep@),
{
    let mut out: Vec<Vec<char>> = Vec::new();
    let mut lo: usize = 0;
    assert(s@.skip(0) =~= s@);
    assert(view_all(out@) =~= seq![]);
    loop
        invariant
            sep@.len() > 0,
            lo <= s.len(),
            view_all(out@) + split_on(s@.skip(lo as int), sep@) == split_on(s@, sep@),
        decreases s.len() - lo,
    {
        let ghost t = s@.skip(lo as int);
        match find_sep_exec(s, lo, sep) {
            Some(j) => {
                proof {
                    lemma_find_sep_bounds(t, sep@, 0);
                }
                let mut piece: Vec<char> = Vec::new();
                let mut q = lo;
                while q < j
                    invariant
                        lo <= q <= j,
                        j <= s.len(),
                        piece@ == s@.subrange(lo as int, q as int),
                    decreases j - q,
                {
                    piece.push(s[q]);
                    q = q + 1;
                    assert(piece@ =~= s@.subrange(lo as int, q as int));
                }
                assert(t.take(j - lo) =~= piece@);
                assert(t.skip(j - lo + sep@.len()) =~= s@.skip(j + sep@.len()));
                let ghost o0 = view_all(out@);
                out.push(piece);
                assert(view_all(out@) =~= o0.push(t.take(j - lo)));
                lo = j + sep.len();
                assert(view_all(out@) + split_on(s@.skip(lo as int), sep@) =~= split_on(s@, sep@));
            },
            None => {
                let rest = crate::text::to_vec_chars(s.split_at(lo).1);
                assert(rest@ =~= t);
                let ghost o0 = view_all(out@);
                out.push(rest);
                assert(view_all(out@) =~= o0.push(t));
                assert(view_all(out@) =~= split_on(s@, sep@));
                return out;
            },
        }
    }
}

/// The lines of a text as `str::lines` gives them: split at `\n`, a `\r` before a `\n`
/// dropped, no empty line after a final `\n`.
pub open spec fn lines_of(s: Seq<char>) -> Seq<Seq<char>> {
    let parts = split_on(s, seq!['\n']);
    let n = parts.len();
    let kept = if n > 0 && parts[n - 1].len() == 0 { parts.drop_last() } else { parts };
    Seq::new(
        kept.len(),
        |i: int|
            if i < n - 1 && kept[i].len() > 0 && kept[i].last() == '\r' {
                kept[i].drop_last()
            } else {
                kept[i]
            },
    )
}

/// The phonemes of the syllables, in order, each syllable split at single spaces.
pub open spec fn flat_phonemes(syllables: Seq<Seq<char>>) -> Seq<Seq<char>>
    decreases syllables.len(),
{
    if syllables.len() == 0 {
        seq![]
    } else {
        flat_phonemes(syllables.drop_last()) + split_on(syllables.last(), seq![' '])
    }
}

/// The entry of one dictionary line: the word before the first double space, and the
/// phonemes of all its syllables (syllables split at ` - `, phonemes at single spaces).
pub open spec fn entry_of(line: Seq<char>) -> Option<(Seq<char>, Seq<Seq<char>>)> {
    match find_sep(line, seq![' ', ' '], 0) {
        Some(i) => {
            let rest = line.skip(i + 2);
            Some((line.take(i), flat_phonemes(split_on(rest, seq![' ', '-', ' ']))))
        },
        None => None,
    }
}

/// The phonemes of the last line among `lines[48..i]` whose entry is for `k`.
pub open spec fn entry_in_lines(lines: Seq<Seq<char>>, k: Seq<char>, i: int) -> Option<Seq<Seq<char>>>
    decreases i,
{
    if i <= 48 || i > lines.len() {
        None
    } else {
        match entry_of(lines[i - 1]) {
            Some((w, ps)) => if w == k { Some(ps) } else { entry_in_lines(lines, k, i - 1) },
            None => entry_in_lines(lines, k, i - 1),
        }
    }
}

/// Number of header lines of the dictionary file.
pub const CMUDICT_HEADER_LINES: usize = 48;

impl CmuDict {
    /// Adds the entry of one dictionary line, if it has one.
    pub fn add_line(&mut self, line: &[char])
        requires
            old(self).wf(),
        ensures
            final(self).wf(),
            forall|k: Seq<char>| #[trigger] final(self).lookup(k) == match entry_of(line@) {
                Some((w, ps)) => if k == w { Some(ps) } else { old(self).lookup(k) },
                None => old(self).lookup(k),
            },
    {
        let two = [' ', ' '];
        let two_s = two.as_slice();
        assert(two_s@ =~= seq![' ', ' ']);
        match find_sep_exec(line, 0, two_s) {
            Some(i) => {
                assert(line@.skip(0) =~= line@);
                assert(find_sep(line@, seq![' ', ' '], 0) == Some(i as int));
                proof {
                    lemma_find_sep_bounds(line@, seq![' ', ' '], 0);
                }
                assert(i + 2 <= line.len());
                let word = crate::text::to_vec_chars(line.split_at(i).0);
                let rest = line.split_at(i + 2).1;
                assert(word@ =~= line@.take(i as int));
                assert(rest@ =~= line@.skip(i + 2));
                let dash = [' ', '-', ' '];
                assert(dash@ =~= seq![' ', '-', ' ']);
                let syllables = split_chars(rest, dash.as_slice());
                let mut phonemes: Vec<Vec<char>> = Vec::new();
                let mut k: usize = 0;
                let one = [' '];
                assert(one@ =~= seq![' ']);
                let ghost sv = view_all(syllables@);
                assert(view_all(phonemes@) =~= flat_phonemes(sv.take(0)));
                while k < syllables.len()
                    invariant
                        sv == view_all(syllables@),
                        k <= syllables@.len(),
                        one@ == seq![' '],
                        view_all(phonemes@) == flat_phonemes(sv.take(k as int)),
                    decreases syllables.len() - k,
                {
                    let parts = split_chars(syllables[k].as_slice(), one.as_slice());
                    phonemes = crate::text::concat_all(phonemes, &parts);
                    proof {
                        assert(sv.take(k + 1).drop_last() =~= sv.take(k as int));
                    }
                    k = k + 1;
                }
                assert(sv.take(k as int) =~= sv);
                assert(sv == split_on(line@.skip(i + 2), seq![' ', '-', ' ']));
                assert(entry_of(line@) == Some((word@, view_all(phonemes@))));
                self.insert(word, phonemes);
            },
            None => {
                assert(line@.skip(0) =~= line@);
            },
        }
    }

    /// A dictionary from the text of a pronouncing-dictionary file: the header lines
    /// skipped, then one entry per line that has one.
    pub fn from_text(text: &str) -> (r: CmuDict)
        ensures
            r.wf(),
            forall|k: Seq<char>| #[trigger] r.lookup(k) == entry_in_lines(lines_of(text@), k, lines_of(text@).len() as int),
    {
        let t = chars_of(text);
        let nl = ['\n'];
        assert(nl@ =~= seq!['\n']);
        let parts = split_chars(t.as_slice(), nl.as_slice());
        let ghost pv = view_all(parts@);
        let ghost lines = lines_of(t@);
        let mut d = CmuDict::new();
        let mut i: usize = 0;
        while i < parts.len()
            invariant
                d.wf(),
                i <= parts@.len(),
                pv == view_all(parts@),
                pv == split_on(t@, seq!['\n']),
                lines == lines_of(t@),
                t@ == text@,
                forall|k: Seq<char>| #[trigger] d.lookup(k) == entry_in_lines(
                    lines,
                    k,
                    if i <= lines.len() { i as int } else { lines.len() as int },
                ),
            decreases parts.len() - i,
        {
            let last_part = i + 1 == parts.len();
            assert(pv[i as int] == parts@[i as int]@);
            if !(last_part && parts[i].len() == 0) && i >= CMUDICT_HEADER_LINES {
                let p = &parts[i];
                let ghost d0 = d;
                assert(i < lines.len());
                if !last_part && p.len() > 0 && p[p.len() - 1] == '\r' {
                    let q = p.split_at(p.len() - 1).0;
                    assert(q@ =~= p@.drop_last());
                    assert(lines[i as int] == q@);
                    d.add_line(q);
                } else {
                    assert(lines[i as int] == p@);
                    d.add_line(p.as_slice());
                }
                assert forall|k: Seq<char>| #[trigger] d.lookup(k) == entry_in_lines(lines, k, i + 1) by {
                    assert(d0.lookup(k) == entry_in_lines(lines, k, i as int));
                }
            } else if i < CMUDICT_HEADER_LINES {
                assert forall|k: Seq<char>| #[trigger] d.lookup(k) == entry_in_lines(
                    lines,
                    k,
                    if i + 1 <= lines.len() { i + 1 } else { lines.len() as int },
                ) by {
                    assert(entry_in_lines(lines, k, i as int) == None::<Seq<Seq<char>>>);
                    if i + 1 <= lines.len() {
                        assert(entry_in_lines(lines, k, i + 1) == None::<Seq<Seq<char>>>);
                    } else {
                        assert(entry_in_lines(lines, k, lines.len() as int) == None::<Seq<Seq<char>>>);
                    }
                }
            }
            i = i + 1;
        }
        d
    }
}

} // verus!
