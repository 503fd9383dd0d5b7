//! Chinese grapheme-to-phoneme conversion with per-character phone counts.
use vstd::prelude::*;
use crate::cn2an::{digit_value, is_ascii_digit};
use crate::english::{all_white_space, g2p_word, is_english, is_english_token, CmuDict};
use crate::errors::TtsError;
use crate::normalizer::{is_white_space, is_white_space_char};
use crate::tone_sandhi::{pre_merge_chars, ToneSandhi};
use crate::segmenter::{char_pinyin, has_pinyin, pinyin_numbered, pinyin_plain};
use crate::symbols::{is_punctuation, is_punctuation_char};
use crate::syllables::{lookup_syllable, syllable_phones};
use crate::text::{
    append_chars, chars_eq, chars_of, lemma_element_le_sum, lemma_sum_append, lemma_sum_ends,
    lemma_sum_nonneg, lemma_sum_push, lemma_sum_take_le, lemma_sum_update, string_of, sum_seq,
    to_vec_chars, view_all,
};

verus! {

/// The pinyin onset that `plain` starts with (`zh`, `ch`, `sh`, then single letters,
/// `y` and `w` included), empty when none.
pub open spec fn initial_of(plain: Seq<char>) -> Seq<char> {
    if plain.len() >= 2 && (plain[0] == 'z' || plain[0] == 'c' || plain[0] == 's') && plain[1] == 'h' {
        plain.take(2)
    } else if plain.len() >= 1 && is_onset_letter(plain[0]) {
        plain.take(1)
    } else {
        seq![]
    }
}

pub open spec fn is_onset_letter(c: char) -> bool {
    c == 'b' || c == 'p' || c == 'm' || c == 'f' || c == 'd' || c == 't' || c == 'n' || c == 'l'
        || c == 'g' || c == 'k' || c == 'h' || c == 'j' || c == 'q' || c == 'x' || c == 'r' || c
        == 'z' || c == 'c' || c == 's' || c == 'y' || c == 'w'
}

fn is_onset_letter_exec(c: char) -> (r: bool)
    ensures
        r == is_onset_letter(c),
{
    c == 'b' || c == 'p' || c == 'm' || c == 'f' || c == 'd' || c == 't' || c == 'n' || c == 'l'
        || c == 'g' || c == 'k' || c == 'h' || c == 'j' || c == 'q' || c == 'x' || c == 'r' || c
        == 'z' || c == 'c' || c == 's' || c == 'y' || c == 'w'
}

/// Extracts the onset of a toneless pinyin syllable.
pub fn extract_initial(plain: &[char]) -> (r: Vec<char>)
    ensures
        r@ == initial_of(plain@),
{
    let mut r: Vec<char> = Vec::new();
    if plain.len() >= 2 && (plain[0] == 'z' || plain[0] == 'c' || plain[0] == 's') && plain[1] == 'h' {
        r.push(plain[0]);
        r.push(plain[1]);
        assert(r@ =~= plain@.take(2));
    } else if plain.len() >= 1 && is_onset_letter_exec(plain[0]) {
        r.push(plain[0]);
        assert(r@ =~= plain@.take(1));
    }
    r
}

pub open spec fn all_ascii(s: Seq<char>) -> bool {
    forall|i: int| 0 <= i < s.len() ==> #[trigger] s[i] <= '\u{7f}'
}

/// Onset and final-with-tone of a character: the numbered reading after the onset
/// (the character itself when that is empty); without a reading, the character as both.
pub open spec fn syllable_of(c: char) -> (Seq<char>, Seq<char>) {
    if has_pinyin(c) {
        let ini = initial_of(pinyin_plain(c));
        let num = pinyin_numbered(c);
        let k = ini.len() as int;
        let fin = if k <= num.len() && all_ascii(num.take(k)) { num.skip(k) } else { seq![] };
        (ini, if fin.len() == 0 { seq![c] } else { fin })
    } else {
        (seq![c], seq![c])
    }
}

/// A character with its onset and final.
pub struct Syllable {
    pub ch: char,
    pub initial: Vec<char>,
    pub final_with_tone: Vec<char>,
}

/// Onset and final of one character.
pub fn syllable_for(c: char) -> (r: Syllable)
    ensures
        r.ch == c,
        (r.initial@, r.final_with_tone@) == syllable_of(c),
{
    match char_pinyin(c) {
        Some(p) => {
            let plain = chars_of(p.0.as_str());
            let num = chars_of(p.1.as_str());
            let ini = extract_initial(plain.as_slice());
            let k = ini.len();
            let mut ascii = k <= num.len();
            let mut i: usize = 0;
            if ascii {
                while i < k
                    invariant
                        k <= num.len(),
                        i <= k,
                        ascii == forall|j: int| 0 <= j < i ==> #[trigger] num@[j] <= '\u{7f}',
                    decreases k - i,
                {
                    if num[i] > '\u{7f}' {
                        ascii = false;
                    }
                    i = i + 1;
                }
                proof {
                    let t = num@.take(k as int);
                    if ascii {
                        assert forall|j: int| 0 <= j < t.len() implies #[trigger] t[j] <= '\u{7f}' by {
                            assert(t[j] == num@[j]);
                        }
                    } else {
                        let j = choose|j: int| 0 <= j < i && !(num@[j] <= '\u{7f}');
                        assert(t[j] == num@[j]);
                    }
                }
                assert(ascii == all_ascii(num@.take(k as int)));
            }
            let mut fin: Vec<char> = Vec::new();
            if ascii {
                let mut m = k;
                while m < num.len()
                    invariant
                        k <= m <= num.len(),
                        fin@ == num@.subrange(k as int, m as int),
                    decreases num.len() - m,
                {
                    fin.push(num[m]);
                    m = m + 1;
                    assert(fin@ =~= num@.subrange(k as int, m as int));
                }
                assert(num@.skip(k as int) =~= num@.subrange(k as int, num.len() as int));
            } else {
                assert(fin@ =~= seq![]);
            }
            if fin.len() == 0 {
                fin.push(c);
                assert(fin@ =~= seq![c]);
            }
            Syllable { ch: c, initial: ini, final_with_tone: fin }
        },
        None => {
            let a = vec![c];
            let b = vec![c];
            assert(a@ =~= seq![c]);
            assert(b@ =~= seq![c]);
            Syllable { ch: c, initial: a, final_with_tone: b }
        },
    }
}

/// Finals with tones of every character of a word.
pub open spec fn finals_of(w: Seq<char>) -> Seq<Seq<char>> {
    w.map_values(|c: char| syllable_of(c).1)
}

/// The syllables of a word, one per character.
pub fn get_syllables(word: &[char]) -> (r: Vec<Syllable>)
    ensures
        r@.len() == word@.len(),
        forall|i: int|
            0 <= i < word@.len() ==> (#[trigger] r@[i]).ch == word@[i] && (r@[i].initial@,
            r@[i].final_with_tone@) == syllable_of(word@[i]),
{
    let mut r: Vec<Syllable> = Vec::new();
    let mut i: usize = 0;
    while i < word.len()
        invariant
            i <= word.len(),
            r@.len() == i,
            forall|j: int|
                0 <= j < i ==> (#[trigger] r@[j]).ch == word@[j] && (r@[j].initial@,
                r@[j].final_with_tone@) == syllable_of(word@[j]),
        decreases word.len() - i,
    {
        r.push(syllable_for(word[i]));
        i = i + 1;
    }
    r
}

/// The final with tone of each character of `word`.
pub fn finals_with_tone_chars(word: &[char]) -> (r: Vec<Vec<char>>)
    ensures
        view_all(r@) == finals_of(word@),
{
    let mut r: Vec<Vec<char>> = Vec::new();
    let mut i: usize = 0;
    while i < word.len()
        invariant
            i <= word.len(),
            view_all(r@) == finals_of(word@).subrange(0, i as int),
        decreases word.len() - i,
    {
        let s = syllable_for(word[i]);
        r.push(s.final_with_tone);
        i = i + 1;
        assert(view_all(r@) =~= finals_of(word@).subrange(0, i as int));
    }
    assert(finals_of(word@).subrange(0, i as int) =~= finals_of(word@));
    r
}

/// The final with tone of each character of `word` (`不对` gives `u4`, `ui4`).
pub fn finals_with_tone(word: &str) -> (r: Vec<String>)
    ensures
        r@.map_values(|s: String| s@) == finals_of(word@),
{
    let w = chars_of(word);
    let f = finals_with_tone_chars(w.as_slice());
    let r = crate::text::strings_of(&f);
    assert(r@.map_values(|s: String| s@) =~= view_all(f@));
    r
}

/// Drops every trailing ASCII digit.
pub open spec fn trim_digits_end(s: Seq<char>) -> Seq<char>
    decreases s.len(),
{
    if s.len() > 0 && is_ascii_digit(s.last()) {
        trim_digits_end(s.drop_last())
    } else {
        s
    }
}

pub open spec fn umlaut_as_v(s: Seq<char>) -> Seq<char> {
    s.map_values(|c: char| if c == 'ü' { 'v' } else { c })
}

/// The tone of a final: its last character when that is a digit, else 0.
pub open spec fn tone_digit(f: Seq<char>) -> i32 {
    if f.len() > 0 && is_ascii_digit(f.last()) {
        digit_value(f.last()) as i32
    } else {
        0
    }
}

/// Spelling of a syllable without onset: `ing`, `i`, `in`, `u` take `y`/`w`; a leading
/// `v`, `i`, `u` becomes `yu`, `y`, `w`.
pub open spec fn vowel_spelling(p: Seq<char>) -> Seq<char> {
    if p == seq!['i', 'n', 'g'] {
        seq!['y', 'i', 'n', 'g']
    } else if p == seq!['i'] {
        seq!['y', 'i']
    } else if p == seq!['i', 'n'] {
        seq!['y', 'i', 'n']
    } else if p == seq!['u'] {
        seq!['w', 'u']
    } else if p.len() > 0 && p[0] == 'v' {
        seq!['y', 'u'] + p.skip(1)
    } else if p.len() > 0 && p[0] == 'i' {
        seq!['y'] + p.skip(1)
    } else if p.len() > 0 && p[0] == 'u' {
        seq!['w'] + p.skip(1)
    } else {
        p
    }
}

/// Spelling after an onset: `uei`, `iou`, `uen` contract to `ui`, `iu`, `un`.
pub open spec fn consonant_spelling(ini: Seq<char>, p: Seq<char>) -> Seq<char> {
    ini + (if p == seq!['u', 'e', 'i'] {
        seq!['u', 'i']
    } else if p == seq!['i', 'o', 'u'] {
        seq!['i', 'u']
    } else if p == seq!['u', 'e', 'n'] {
        seq!['u', 'n']
    } else {
        p
    })
}

/// The table key of a syllable (the character itself when the spelling is empty).
pub open spec fn syllable_key(ch: char, ini: Seq<char>, fin: Seq<char>) -> Seq<char> {
    let body = umlaut_as_v(trim_digits_end(fin));
    let k = if ini.len() == 0 { vowel_spelling(body) } else { consonant_spelling(ini, body) };
    if k.len() == 0 { seq![ch] } else { k }
}

/// Phones and tone of a syllable: a character without reading is its own phone (tone 0);
/// else the table's phones for its key with the final's tone; a punctuation mark
/// outside the table is its own phone; any other miss is an error carrying the key.
#[verifier::opaque]
pub open spec fn syllable_mapped(ch: char, ini: Seq<char>, fin: Seq<char>) -> Result<(Seq<Seq<char>>, i32), Seq<char>> {
    if ini == fin {
        Ok((seq![seq![ch]], 0i32))
    } else {
        let key = syllable_key(ch, ini, fin);
        match syllable_phones(key) {
            Some(ps) => Ok((ps, tone_digit(fin))),
            None => if ini.len() == 0 && is_punctuation(ch) {
                Ok((seq![seq![ch]], 0i32))
            } else {
                Err(key)
            },
        }
    }
}

fn lit_eq(a: &[char], b: &[char]) -> (r: bool)
    ensures
        r == (a@ == b@),
{
    chars_eq(a, b)
}

fn skip_first(p: &[char]) -> (r: Vec<char>)
    requires
        p.len() > 0,
    ensures
        r@ == p@.skip(1),
{
    let r = to_vec_chars(p.split_at(1).1);
    assert(r@ =~= p@.skip(1));
    r
}

fn prefixed(front: Vec<char>, p: &[char]) -> (r: Vec<char>)
    requires
        p.len() > 0,
    ensures
        r@ == front@ + p@.skip(1),
{
    let mut r = front;
    let rest = skip_first(p);
    append_chars(&mut r, rest.as_slice());
    r
}

pub fn adjust_vowel_pinyin(p: &[char]) -> (r: Vec<char>)
    ensures
        r@ == vowel_spelling(p@),
{
    proof {
        assert(['i', 'n', 'g']@ =~= seq!['i', 'n', 'g']);
        assert(['i']@ =~= seq!['i']);
        assert(['i', 'n']@ =~= seq!['i', 'n']);
        assert(['u']@ =~= seq!['u']);
    }
    let r = if lit_eq(p, ['i', 'n', 'g'].as_slice()) {
        vec!['y', 'i', 'n', 'g']
    } else if lit_eq(p, ['i'].as_slice()) {
        vec!['y', 'i']
    } else if lit_eq(p, ['i', 'n'].as_slice()) {
        vec!['y', 'i', 'n']
    } else if lit_eq(p, ['u'].as_slice()) {
        vec!['w', 'u']
    } else if p.len() > 0 && p[0] == 'v' {
        prefixed(vec!['y', 'u'], p)
    } else if p.len() > 0 && p[0] == 'i' {
        prefixed(vec!['y'], p)
    } else if p.len() > 0 && p[0] == 'u' {
        prefixed(vec!['w'], p)
    } else {
        to_vec_chars(p)
    };
    assert(r@ =~= vowel_spelling(p@));
    r
}

pub fn adjust_consonant_pinyin(ini: &[char], p: &[char]) -> (r: Vec<char>)
    ensures
        r@ == consonant_spelling(ini@, p@),
{
    proof {
        assert(['u', 'e', 'i']@ =~= seq!['u', 'e', 'i']);
        assert(['i', 'o', 'u']@ =~= seq!['i', 'o', 'u']);
        assert(['u', 'e', 'n']@ =~= seq!['u', 'e', 'n']);
    }
    let tail = if lit_eq(p, ['u', 'e', 'i'].as_slice()) {
        vec!['u', 'i']
    } else if lit_eq(p, ['i', 'o', 'u'].as_slice()) {
        vec!['i', 'u']
    } else if lit_eq(p, ['u', 'e', 'n'].as_slice()) {
        vec!['u', 'n']
    } else {
        to_vec_chars(p)
    };
    let mut r = to_vec_chars(ini);
    append_chars(&mut r, tail.as_slice());
    assert(r@ =~= consonant_spelling(ini@, p@));
    r
}

/// Phones and tone of one syllable.
pub fn map_syllable_to_phones(s: &Syllable) -> (r: Result<(Vec<Vec<char>>, i32), TtsError>)
    ensures
        match syllable_mapped(s.ch, s.initial@, s.final_with_tone@) {
            Ok((ps, t)) => r matches Ok((v, tt)) && view_all(v@) == ps && tt == t,
            Err(_) => r is Err,
        },
{
    reveal(syllable_mapped);
    let fin = &s.final_with_tone;
    if chars_eq(s.initial.as_slice(), fin.as_slice()) {
        let inner = vec![s.ch];
        assert(inner@ =~= seq![s.ch]);
        let v = vec![inner];
        assert(view_all(v@) =~= seq![seq![s.ch]]);
        return Ok((v, 0));
    }
    let tone: i32 = if fin.len() > 0 && '0' <= fin[fin.len() - 1] && fin[fin.len() - 1] <= '9' {
        (fin[fin.len() - 1] as u32 - '0' as u32) as i32
    } else {
        0
    };
    let mut n = fin.len();
    assert(fin@.take(fin.len() as int) =~= fin@);
    while n > 0 && '0' <= fin[n - 1] && fin[n - 1] <= '9'
        invariant
            n <= fin.len(),
            trim_digits_end(fin@) == trim_digits_end(fin@.take(n as int)),
        decreases n,
    {
        assert(fin@.take(n as int).drop_last() =~= fin@.take(n - 1));
        n = n - 1;
    }
    assert(fin@.take(fin.len() as int) =~= fin@);
    let mut body: Vec<char> = Vec::new();
    let mut i: usize = 0;
    while i < n
        invariant
            n <= fin.len(),
            i <= n,
            body@ == umlaut_as_v(fin@.take(n as int)).take(i as int),
        decreases n - i,
    {
        body.push(if fin[i] == 'ü' { 'v' } else { fin[i] });
        i = i + 1;
        assert(body@ =~= umlaut_as_v(fin@.take(n as int)).take(i as int));
    }
    assert(trim_digits_end(fin@.take(n as int)) == fin@.take(n as int));
    assert(body@ =~= umlaut_as_v(trim_digits_end(fin@)));
    let key0 = if s.initial.len() == 0 {
        adjust_vowel_pinyin(body.as_slice())
    } else {
        adjust_consonant_pinyin(s.initial.as_slice(), body.as_slice())
    };
    let key = if key0.len() == 0 {
        let k = vec![s.ch];
        assert(k@ =~= seq![s.ch]);
        k
    } else {
        key0
    };
    match lookup_syllable(key.as_slice()) {
        Some(ps) => Ok((ps, tone)),
        None => {
            if s.initial.len() == 0 && is_punctuation_char(s.ch) {
                let inner = vec![s.ch];
                assert(inner@ =~= seq![s.ch]);
                let v = vec![inner];
                assert(view_all(v@) =~= seq![seq![s.ch]]);
                Ok((v, 0))
            } else {
                Err(TtsError::Mapping(string_of(key.as_slice())))
            }
        },
    }
}

/// word2ph sized to `n + 2` entries (zeros appended, or the tail cut), both ends 1.
pub open spec fn sized(w: Seq<usize>, n: nat) -> Seq<usize> {
    let e = n + 2;
    let v = if w.len() < e { w + Seq::new((e - w.len()) as nat, |q: int| 0usize) } else { w.take(e as int) };
    v.update(0, 1).update(e - 1, 1)
}

/// Zero at each white-space character (pads excluded).
pub open spec fn blank_ws(v: Seq<usize>, text: Seq<char>) -> Seq<usize> {
    Seq::new(
        v.len(),
        |p: int| if 1 <= p <= text.len() && p < v.len() - 1 && is_white_space(text[p - 1]) { 0 } else { v[p] },
    )
}

/// A deficit of `rem` phones: one more for each character from `i` on that is not white
/// space, left to right, until none is missing; what is left goes to the last entry.
pub open spec fn grow_from(v: Seq<usize>, text: Seq<char>, i: int, rem: nat) -> Seq<usize>
    decreases text.len() - i,
{
    if i < 0 || i >= text.len() || rem == 0 {
        if rem > 0 {
            v.update(v.len() - 1, (v.last() + rem) as usize)
        } else {
            v
        }
    } else if !is_white_space(text[i]) {
        grow_from(v.update(i + 1, (v[i + 1] + 1) as usize), text, i + 1, (rem - 1) as nat)
    } else {
        grow_from(v, text, i + 1, rem)
    }
}

/// A surplus of `rem` phones: taken from the characters up to `i` that are not white space
/// and have any, right to left; what is left is taken from the last entry.
pub open spec fn shrink_from(v: Seq<usize>, text: Seq<char>, i: int, rem: nat) -> Seq<usize>
    decreases i,
{
    if i <= 0 || rem == 0 {
        if rem > 0 {
            let red = if rem < v.last() { rem } else { v.last() as nat };
            v.update(v.len() - 1, (v.last() - red) as usize)
        } else {
            v
        }
    } else if v[i] != 0 && !is_white_space(text[i - 1]) {
        let red = if rem < v[i] { rem } else { v[i] as nat };
        shrink_from(v.update(i, (v[i] - red) as usize), text, i - 1, (rem - red) as nat)
    } else {
        shrink_from(v, text, i - 1, rem)
    }
}

/// The reconciled word2ph of `reconcile_word2ph`.
pub open spec fn reconciled(w: Seq<usize>, text: Seq<char>, target: nat) -> Seq<usize> {
    let v = blank_ws(sized(w, text.len()), text);
    let s = sum_seq(v);
    let v2 = if s < target {
        grow_from(v, text, 0, (target - s) as nat)
    } else if s > target {
        shrink_from(v, text, text.len() as int, (s - target) as nat)
    } else {
        v
    };
    let v3 = v2.update(0, 1);
    if v3.last() == 0 { v3.update(v3.len() - 1, 1) } else { v3 }
}

fn size_word2ph(w: Vec<usize>, n: usize) -> (r: Vec<usize>)
    requires
        n + 2 <= usize::MAX,
    ensures
        r@ == sized(w@, n as nat),
        sum_seq(r@) <= sum_seq(w@) + 2,
{
    let ghost w_in = w@;
    let mut w = w;
    let expected = n + 2;
    if w.len() < expected {
        while w.len() < expected
            invariant
                w_in.len() <= w@.len() <= expected,
                w@ == w_in + Seq::new((w@.len() - w_in.len()) as nat, |q: int| 0usize),
                sum_seq(w@) == sum_seq(w_in),
            decreases expected - w@.len(),
        {
            proof {
                lemma_sum_push(w@, 0);
            }
            let ghost w0 = w@;
            w.push(0);
            assert(w@ =~= w_in + Seq::new((w@.len() - w_in.len()) as nat, |q: int| 0usize));
        }
    } else if w.len() > expected {
        proof {
            lemma_sum_take_le(w@, expected as int);
        }
        w.truncate(expected);
        assert(w@ =~= w_in.take(expected as int));
    } else {
        assert(w@ =~= w_in.take(expected as int));
    }
    proof {
        lemma_sum_update(w@, 0, 1);
    }
    w.set(0, 1);
    let last = w.len() - 1;
    proof {
        lemma_sum_update(w@, last as int, 1);
    }
    w.set(last, 1);
    w
}

fn zero_ws(w: &mut Vec<usize>, text: &[char])
    requires
        old(w)@.len() == text@.len() + 2,
    ensures
        final(w)@ == blank_ws(old(w)@, text@),
        sum_seq(final(w)@) <= sum_seq(old(w)@),
{
    let n = text.len();
    let last = w.len() - 1;
    let mut idx: usize = 0;
    while idx < n
        invariant
            n == text@.len(),
            w@.len() == old(w)@.len() == n + 2,
            last == n + 1,
            idx <= n,
            sum_seq(w@) <= sum_seq(old(w)@),
            forall|p: int|
                0 <= p < w@.len() ==> #[trigger] w@[p] == (if 1 <= p <= idx && p < w@.len() - 1
                    && is_white_space(text@[p - 1]) {
                    0
                } else {
                    old(w)@[p]
                }),
        decreases n - idx,
    {
        if is_white_space_char(text[idx]) {
            let pos = idx + 1;
            if pos < last {
                proof {
                    lemma_sum_update(w@, pos as int, 0);
                }
                w.set(pos, 0);
            }
        }
        idx = idx + 1;
    }
    assert(w@ =~= blank_ws(old(w)@, text@));
}

fn grow(w: &mut Vec<usize>, text: &[char], rem: usize)
    requires
        old(w)@.len() == text@.len() + 2,
        sum_seq(old(w)@) + rem <= usize::MAX,
        rem > 0,
    ensures
        final(w)@ == grow_from(old(w)@, text@, 0, rem as nat),
        sum_seq(final(w)@) == sum_seq(old(w)@) + rem,
        final(w)@.len() == old(w)@.len(),
        final(w)@[0] == old(w)@[0],
        final(w)@.last() >= old(w)@.last(),
        forall|q: int| 0 <= q < text@.len() && is_white_space(#[trigger] text@[q]) ==> final(w)@[q + 1] == old(w)@[q + 1],
{
    let n = text.len();
    let last = w.len() - 1;
    let mut remaining = rem;
    let mut i: usize = 0;
    while i < n && remaining > 0
        invariant
            grow_from(w@, text@, i as int, remaining as nat) == grow_from(old(w)@, text@, 0, rem as nat),
            n == text@.len(),
            w@.len() == n + 2,
            last == n + 1,
            i <= n,
            w@[0] == old(w)@[0],
            w@[last as int] == old(w)@[last as int],
            sum_seq(w@) + remaining == sum_seq(old(w)@) + rem,
            sum_seq(old(w)@) + rem <= usize::MAX,
            forall|q: int| 0 <= q < n && is_white_space(#[trigger] text@[q]) ==> w@[q + 1] == old(w)@[q + 1],
        decreases n - i,
    {
        let pos = i + 1;
        if !is_white_space_char(text[i]) {
            proof {
                lemma_element_le_sum(w@, pos as int);
                lemma_sum_update(w@, pos as int, (w@[pos as int] + 1) as usize);
            }
            let v = w[pos] + 1;
            w.set(pos, v);
            remaining = remaining - 1;
        }
        i = i + 1;
    }
    if remaining > 0 {
        proof {
            lemma_element_le_sum(w@, last as int);
            lemma_sum_update(w@, last as int, (w@[last as int] + remaining) as usize);
        }
        let v = w[last] + remaining;
        w.set(last, v);
    }
}

fn shrink(w: &mut Vec<usize>, text: &[char], rem: usize)
    requires
        old(w)@.len() == text@.len() + 2,
        rem > 0,
        sum_seq(old(w)@) >= rem,
        sum_seq(old(w)@) - rem >= old(w)@[0] + old(w)@.last(),
        forall|q: int| 0 <= q < text@.len() && is_white_space(#[trigger] text@[q]) ==> old(w)@[q + 1] == 0,
    ensures
        final(w)@ == shrink_from(old(w)@, text@, text@.len() as int, rem as nat),
        final(w)@.len() == old(w)@.len(),
        final(w)@[0] == old(w)@[0],
        sum_seq(final(w)@) == sum_seq(old(w)@) - rem,
        final(w)@.last() == old(w)@.last(),
        forall|q: int| 0 <= q < text@.len() && is_white_space(#[trigger] text@[q]) ==> final(w)@[q + 1] == 0,
{
    let n = text.len();
    let last = w.len() - 1;
    let mut remaining = rem;
    let mut i: usize = n;
    while i > 0 && remaining > 0
        invariant
            shrink_from(w@, text@, i as int, remaining as nat) == shrink_from(old(w)@, text@, n as int, rem as nat),
            n == text@.len(),
            w@.len() == n + 2,
            last == n + 1,
            i <= n,
            w@[0] == old(w)@[0],
            w@[last as int] == old(w)@[last as int],
            sum_seq(w@) + rem == sum_seq(old(w)@) + remaining,
            remaining <= rem,
            remaining > 0 ==> forall|q: int| i < q <= n && !is_white_space(text@[q - 1]) ==> w@[q] == 0,
            forall|q: int| i < q <= n && is_white_space(text@[q - 1]) ==> w@[q] == old(w)@[q],
            forall|q: int| 0 < q <= i ==> w@[q] == old(w)@[q],
        decreases i,
    {
        let pos = i;
        if w[pos] != 0 && !is_white_space_char(text[i - 1]) {
            let reduce = if remaining < w[pos] { remaining } else { w[pos] };
            proof {
                lemma_sum_update(w@, pos as int, (w@[pos as int] - reduce) as usize);
            }
            let v = w[pos] - reduce;
            w.set(pos, v);
            remaining = remaining - reduce;
        }
        i = i - 1;
    }
    proof {
        if remaining > 0 {
            assert forall|q: int| 0 < q < w@.len() - 1 implies w@[q] == 0 by {
                if is_white_space(text@[q - 1]) {
                    assert(old(w)@[(q - 1) + 1] == 0);
                }
            }
            lemma_sum_ends(w@);
        }
    }
    if remaining > 0 {
        let reduce = if remaining < w[last] { remaining } else { w[last] };
        let v = w[last] - reduce;
        w.set(last, v);
    }
}

/// Brings a padded word2ph vector in line with the text and the phone count: one entry
/// per character between the two pads, zeros at white space, and the difference to
/// `n_phones` spread over the other characters (one each from the left when short, taken
/// from the right when long), what is left going to the last entry.
pub fn reconcile_word2ph(w: Vec<usize>, text: &[char], n_phones: usize) -> (r: Vec<usize>)
    requires
        sum_seq(w@) + 2 <= usize::MAX,
        2 <= n_phones < usize::MAX,
        text@.len() + 2 <= usize::MAX,
    ensures
        r@ == reconciled(w@, text@, n_phones as nat),
        r@.len() == text@.len() + 2,
        sum_seq(r@) == n_phones,
        r@[0] == 1,
        r@.last() >= 1,
        forall|i: int| 0 <= i < text@.len() && is_white_space(#[trigger] text@[i]) ==> r@[i + 1] == 0,
{
    let ghost w_in = w@;
    let n = text.len();
    let target = n_phones;
    let mut w = size_word2ph(w, n);
    zero_ws(&mut w, text);
    let ghost bw = w@;
    let last = w.len() - 1;
    assert(bw[0] == 1 && bw[last as int] == 1);
    let mut sum: usize = 0;
    let mut k: usize = 0;
    assert(w@.take(0) =~= Seq::<usize>::empty());
    while k < w.len()
        invariant
            k <= w@.len(),
            sum == sum_seq(w@.take(k as int)),
            sum_seq(w@) <= usize::MAX,
        decreases w@.len() - k,
    {
        proof {
            assert(w@.take(k + 1).drop_last() =~= w@.take(k as int));
            lemma_sum_take_le(w@, k + 1);
        }
        sum = sum + w[k];
        k = k + 1;
    }
    assert(w@.take(k as int) =~= w@);
    if sum < target {
        grow(&mut w, text, target - sum);
    } else if sum > target {
        shrink(&mut w, text, sum - target);
    }
    assert(w@[0] == 1);
    assert(w@[last as int] >= 1);
    assert(sum_seq(w@) == target);
    let ghost w1 = w@;
    w.set(0, 1);
    assert(w@ =~= w1);
    if w[last] == 0 {
        w.set(last, 1);
    }
    w
}

/// Runs of text, each closed by a punctuation mark (or by the end of the text), without
/// the runs that are white space only.
pub open spec fn sentences_from(t: Seq<char>, i: int, cur: Seq<char>, acc: Seq<Seq<char>>) -> Seq<Seq<char>>
    decreases t.len() - i,
{
    if i < 0 || i >= t.len() {
        if !all_white_space(cur) {
            acc.push(cur)
        } else {
            acc
        }
    } else {
        let c2 = cur.push(t[i]);
        if is_punctuation(t[i]) {
            sentences_from(t, i + 1, seq![], if !all_white_space(c2) { acc.push(c2) } else { acc })
        } else {
            sentences_from(t, i + 1, c2, acc)
        }
    }
}

fn all_white_space_exec(s: &[char]) -> (r: bool)
    ensures
        r == all_white_space(s@),
{
    let mut i: usize = 0;
    while i < s.len()
        invariant
            i <= s.len(),
            forall|q: int| 0 <= q < i ==> is_white_space(#[trigger] s@[q]),
        decreases s.len() - i,
    {
        if !is_white_space_char(s[i]) {
            return false;
        }
        i = i + 1;
    }
    true
}

/// Splits text after each punctuation mark, dropping blank runs.
pub fn split_sentences(t: &[char]) -> (r: Vec<Vec<char>>)
    ensures
        view_all(r@) == sentences_from(t@, 0, seq![], seq![]),
{
    let mut acc: Vec<Vec<char>> = Vec::new();
    let mut cur: Vec<char> = Vec::new();
    let mut i: usize = 0;
    assert(view_all(acc@) =~= seq![]);
    while i < t.len()
        invariant
            i <= t.len(),
            sentences_from(t@, i as int, cur@, view_all(acc@)) == sentences_from(t@, 0, seq![], seq![]),
        decreases t.len() - i,
    {
        cur.push(t[i]);
        if is_punctuation_char(t[i]) {
            if !all_white_space_exec(cur.as_slice()) {
                let ghost a0 = view_all(acc@);
                acc.push(cur);
                assert(view_all(acc@) =~= a0.push(cur@));
            }
            cur = Vec::new();
            assert(cur@ =~= seq![]);
        }
        i = i + 1;
    }
    if !all_white_space_exec(cur.as_slice()) {
        let ghost a0 = view_all(acc@);
        acc.push(cur);
        assert(view_all(acc@) =~= a0.push(cur@));
    }
    acc
}

pub open spec fn has_ascii_alpha(f: Seq<char>) -> bool {
    exists|i: int| 0 <= i < f.len() && crate::english::is_ascii_alpha(#[trigger] f[i])
}

fn has_ascii_alpha_exec(f: &[char]) -> (r: bool)
    ensures
        r == has_ascii_alpha(f@),
{
    let mut i: usize = 0;
    while i < f.len()
        invariant
            i <= f.len(),
            forall|q: int| 0 <= q < i ==> !crate::english::is_ascii_alpha(#[trigger] f@[q]),
        decreases f.len() - i,
    {
        if ('a' <= f[i] && f[i] <= 'z') || ('A' <= f[i] && f[i] <= 'Z') {
            assert(crate::english::is_ascii_alpha(f@[i as int]));
            return true;
        }
        i = i + 1;
    }
    false
}

/// Phones, tones and counts of a word's syllables from `i` on, with the finals
/// after sandhi (`adj`, where it has an entry); `None` when a syllable has no phones.
pub open spec fn syllables_from(w: Seq<char>, adj: Seq<Seq<char>>, i: int) -> Option<(Seq<Seq<char>>, Seq<i32>, Seq<usize>)>
    decreases w.len() - i,
{
    if i < 0 || i >= w.len() {
        Some((seq![], seq![], seq![]))
    } else {
        let (ini, f0) = syllable_of(w[i]);
        let f = if i < adj.len() { adj[i] } else { f0 };
        match syllable_mapped(w[i], ini, f) {
            Err(_) => None,
            Ok((ps, t)) => match syllables_from(w, adj, i + 1) {
                None => None,
                Some(r) => Some((ps + r.0, Seq::new(ps.len(), |q: int| t) + r.1, seq![ps.len() as usize] + r.2)),
            },
        }
    }
}

/// A Chinese word: its finals, through tone sandhi when any of them is spelled with
/// letters, then syllable by syllable.
pub open spec fn chinese_phones(w: Seq<char>, pos: Seq<char>) -> Option<(Seq<Seq<char>>, Seq<i32>, Seq<usize>)> {
    let finals = finals_of(w);
    let adj = if exists|i: int| 0 <= i < finals.len() && has_ascii_alpha(#[trigger] finals[i]) {
        crate::tone_sandhi::modified(w, pos, finals)
    } else {
        finals
    };
    syllables_from(w, adj, 0)
}

/// One tagged word: no phones for blank words (a zero count per character); the English
/// reading for ASCII words; else the Chinese reading.
pub open spec fn word_phones(dict: CmuDict, w: Seq<char>, pos: Seq<char>) -> Option<(Seq<Seq<char>>, Seq<i32>, Seq<usize>)> {
    if all_white_space(w) {
        Some((seq![], seq![], Seq::new(w.len(), |q: int| 0usize)))
    } else if is_english(w) {
        let e = crate::english::english_g2p(dict, w);
        Some((e.0.map_values(|p: (Seq<char>, i32)| p.0), e.0.map_values(|p: (Seq<char>, i32)| p.1), e.1))
    } else {
        chinese_phones(w, pos)
    }
}

/// The words `k..` of a merged sentence, concatenated.
pub open spec fn words_from(dict: CmuDict, ws: Seq<(Seq<char>, Seq<char>)>, k: int) -> Option<(Seq<Seq<char>>, Seq<i32>, Seq<usize>)>
    decreases ws.len() - k,
{
    if k < 0 || k >= ws.len() {
        Some((seq![], seq![], seq![]))
    } else {
        match word_phones(dict, ws[k].0, ws[k].1) {
            None => None,
            Some(a) => match words_from(dict, ws, k + 1) {
                None => None,
                Some(b) => Some((a.0 + b.0, a.1 + b.1, a.2 + b.2)),
            },
        }
    }
}

/// A sentence: its tagged words, merged for sandhi, one after the other.
pub open spec fn sentence_phones(dict: CmuDict, s: Seq<char>) -> Option<(Seq<Seq<char>>, Seq<i32>, Seq<usize>)> {
    words_from(dict, crate::tone_sandhi::pre_merged(crate::segmenter::tagged(s)), 0)
}

/// The sentences `i..` of a text, blank ones skipped.
pub open spec fn sentences_phones_from(dict: CmuDict, ss: Seq<Seq<char>>, i: int) -> Option<(Seq<Seq<char>>, Seq<i32>, Seq<usize>)>
    decreases ss.len() - i,
{
    if i < 0 || i >= ss.len() {
        Some((seq![], seq![], seq![]))
    } else if all_white_space(ss[i]) {
        sentences_phones_from(dict, ss, i + 1)
    } else {
        match sentence_phones(dict, ss[i]) {
            None => None,
            Some(a) => match sentences_phones_from(dict, ss, i + 1) {
                None => None,
                Some(b) => Some((a.0 + b.0, a.1 + b.1, a.2 + b.2)),
            },
        }
    }
}

/// Phones and tones of a whole text, before the pads.
pub open spec fn text_phones(dict: CmuDict, t: Seq<char>) -> Option<(Seq<Seq<char>>, Seq<i32>, Seq<usize>)> {
    sentences_phones_from(dict, sentences_from(t, 0, seq![], seq![]), 0)
}

type Phones = (Vec<Vec<char>>, Vec<i32>, Vec<usize>);

pub open spec fn phones_view(r: (Vec<Vec<char>>, Vec<i32>, Vec<usize>)) -> (Seq<Seq<char>>, Seq<i32>, Seq<usize>) {
    (view_all(r.0@), r.1@, r.2@)
}

pub open spec fn well_counted(r: (Seq<Seq<char>>, Seq<i32>, Seq<usize>)) -> bool {
    r.0.len() == r.1.len() && sum_seq(r.2) == r.0.len()
}

fn append_phones(acc: &mut Phones, b: Phones)
    requires
        well_counted(phones_view(*old(acc))),
        well_counted(phones_view(b)),
    ensures
        phones_view(*final(acc)) == (
            phones_view(*old(acc)).0 + phones_view(b).0,
            phones_view(*old(acc)).1 + phones_view(b).1,
            phones_view(*old(acc)).2 + phones_view(b).2,
        ),
        well_counted(phones_view(*final(acc))),
{
    proof {
        lemma_sum_append(acc.2@, b.2@);
    }
    let mut k: usize = 0;
    let ghost a0 = view_all(acc.0@);
    while k < b.0.len()
        invariant
            k <= b.0@.len(),
            acc.1@ == old(acc).1@,
            acc.2@ == old(acc).2@,
            view_all(acc.0@) == a0 + view_all(b.0@).take(k as int),
        decreases b.0.len() - k,
    {
        let x = to_vec_chars(b.0[k].as_slice());
        let ghost v0 = acc.0@;
        acc.0.push(x);
        assert(acc.0@ == v0.push(x));
        assert(view_all(acc.0@) =~= view_all(v0).push(x@));
        assert(view_all(b.0@).take(k + 1) =~= view_all(b.0@).take(k as int).push(x@));
        assert(view_all(acc.0@) =~= a0 + view_all(b.0@).take(k + 1));
        k = k + 1;
    }
    assert(view_all(b.0@).take(k as int) =~= view_all(b.0@));
    let mut q: usize = 0;
    let ghost t0 = acc.1@;
    while q < b.1.len()
        invariant
            q <= b.1@.len(),
            view_all(acc.0@) == a0 + view_all(b.0@),
            acc.2@ == old(acc).2@,
            acc.1@ == t0 + b.1@.take(q as int),
        decreases b.1.len() - q,
    {
        acc.1.push(b.1[q]);
        q = q + 1;
        assert(acc.1@ =~= t0 + b.1@.take(q as int));
    }
    assert(b.1@.take(q as int) =~= b.1@);
    let mut d: usize = 0;
    let ghost c0 = acc.2@;
    while d < b.2.len()
        invariant
            d <= b.2@.len(),
            view_all(acc.0@) == a0 + view_all(b.0@),
            acc.1@ == t0 + b.1@,
            acc.2@ == c0 + b.2@.take(d as int),
        decreases b.2.len() - d,
    {
        acc.2.push(b.2[d]);
        d = d + 1;
        assert(acc.2@ =~= c0 + b.2@.take(d as int));
    }
    assert(b.2@.take(d as int) =~= b.2@);
}

fn empty_phones() -> (r: Phones)
    ensures
        phones_view(r) == (Seq::<Seq<char>>::empty(), Seq::<i32>::empty(), Seq::<usize>::empty()),
        well_counted(phones_view(r)),
{
    let r: Phones = (Vec::new(), Vec::new(), Vec::new());
    assert(view_all(r.0@) =~= Seq::<Seq<char>>::empty());
    r
}

/// The syllable head of `syllables_from` at `k`: phones, tone repeated per phone, count.
pub open spec fn syllable_piece(w: Seq<char>, adj: Seq<Seq<char>>, k: int) -> Option<(Seq<Seq<char>>, Seq<i32>, Seq<usize>)> {
    let (ini, f0) = syllable_of(w[k]);
    let f = if k < adj.len() { adj[k] } else { f0 };
    match syllable_mapped(w[k], ini, f) {
        Err(_) => None,
        Ok((ps, t)) => Some((ps, Seq::new(ps.len(), |q: int| t), seq![ps.len() as usize])),
    }
}

proof fn lemma_syllables_step(w: Seq<char>, adj: Seq<Seq<char>>, k: int)
    requires
        0 <= k < w.len(),
    ensures
        syllables_from(w, adj, k) == match syllable_piece(w, adj, k) {
            None => None,
            Some(h) => match syllables_from(w, adj, k + 1) {
                None => None,
                Some(r) => Some((h.0 + r.0, h.1 + r.1, h.2 + r.2)),
            },
        },
{
}

fn syllable_piece_exec(w: &Vec<char>, adj: &Vec<Vec<char>>, k: usize) -> (r: Option<Phones>)
    requires
        k < w.len(),
    ensures
        match syllable_piece(w@, view_all(adj@), k as int) {
            Some(x) => r matches Some(y) && phones_view(y) == x,
            None => r is None,
        },
        r matches Some(y) ==> well_counted(phones_view(y)),
{
    let s = syllable_for(w[k]);
    let syl = if k < adj.len() {
        Syllable { ch: s.ch, initial: s.initial, final_with_tone: to_vec_chars(adj[k].as_slice()) }
    } else {
        s
    };
    match map_syllable_to_phones(&syl) {
        Ok((ps, tone)) => {
            let count = ps.len();
            let mut tones: Vec<i32> = Vec::new();
            let mut q: usize = 0;
            while q < count
                invariant
                    q <= count,
                    tones@ == Seq::new(q as nat, |z: int| tone),
                decreases count - q,
            {
                tones.push(tone);
                q = q + 1;
                assert(tones@ =~= Seq::new(q as nat, |z: int| tone));
            }
            let cs = vec![count];
            proof {
                lemma_sum_push(seq![], count);
                assert(seq![].push(count) =~= cs@);
            }
            Some((ps, tones, cs))
        },
        Err(_) => None,
    }
}

/// Phones, tones and per-character counts of the Chinese word `w`.
fn chinese_word(sandhi: &ToneSandhi, w: &Vec<char>, pos: &Vec<char>) -> (r: Option<Phones>)
    ensures
        match chinese_phones(w@, pos@) {
            Some(x) => r matches Some(y) && phones_view(y) == x,
            None => r is None,
        },
        r matches Some(y) ==> well_counted(phones_view(y)),
{
    let finals = finals_with_tone_chars(w.as_slice());
    let ghost fv = finals_of(w@);
    let mut any_alpha = false;
    let mut i: usize = 0;
    while i < finals.len()
        invariant
            view_all(finals@) == fv,
            i <= finals@.len(),
            any_alpha == exists|q: int| 0 <= q < i && has_ascii_alpha(#[trigger] fv[q]),
        decreases finals.len() - i,
    {
        assert(fv[i as int] == finals@[i as int]@);
        if has_ascii_alpha_exec(finals[i].as_slice()) {
            any_alpha = true;
        }
        i = i + 1;
    }
    let adj = if any_alpha {
        sandhi.modified_tone_chars(w, pos, &finals)
    } else {
        finals
    };
    let ghost av = view_all(adj@);
    assert(chinese_phones(w@, pos@) == syllables_from(w@, av, 0));
    let mut out = empty_phones();
    let mut k: usize = 0;
    while k < w.len()
        invariant
            av == view_all(adj@),
            k <= w@.len(),
            well_counted(phones_view(out)),
            match syllables_from(w@, av, 0) {
                Some(x) => syllables_from(w@, av, k as int) matches Some(y) && x == (
                    phones_view(out).0 + y.0,
                    phones_view(out).1 + y.1,
                    phones_view(out).2 + y.2,
                ),
                None => syllables_from(w@, av, k as int) is None,
            },
        decreases w.len() - k,
    {
        proof {
            lemma_syllables_step(w@, av, k as int);
        }
        match syllable_piece_exec(w, &adj, k) {
            Some(piece) => {
                let ghost o0 = phones_view(out);
                let ghost pv = phones_view(piece);
                append_phones(&mut out, piece);
                proof {
                    if let Some(y) = syllables_from(w@, av, k + 1) {
                        assert(phones_view(out).0 + y.0 =~= o0.0 + (pv.0 + y.0));
                        assert(phones_view(out).1 + y.1 =~= o0.1 + (pv.1 + y.1));
                        assert(phones_view(out).2 + y.2 =~= o0.2 + (pv.2 + y.2));
                    }
                }
            },
            None => {
                return None;
            },
        }
        k = k + 1;
    }
    proof {
        if let Some(x) = syllables_from(w@, av, 0) {
            let y = syllables_from(w@, av, k as int)->0;
            assert(phones_view(out).0 + y.0 =~= phones_view(out).0);
            assert(phones_view(out).1 + y.1 =~= phones_view(out).1);
            assert(phones_view(out).2 + y.2 =~= phones_view(out).2);
        }
    }
    Some(out)
}

fn zero_counts(n: usize) -> (r: Vec<usize>)
    ensures
        r@ == Seq::new(n as nat, |q: int| 0usize),
        sum_seq(r@) == 0,
{
    let mut r: Vec<usize> = Vec::new();
    let mut i: usize = 0;
    while i < n
        invariant
            i <= n,
            r@ == Seq::new(i as nat, |q: int| 0usize),
            sum_seq(r@) == 0,
        decreases n - i,
    {
        proof {
            lemma_sum_push(r@, 0);
        }
        r.push(0);
        i = i + 1;
        assert(r@ =~= Seq::new(i as nat, |q: int| 0usize));
    }
    r
}

/// Phones, tones and counts of one tagged word.
fn word_piece(sandhi: &ToneSandhi, dict: &CmuDict, w: &Vec<char>, pos: &Vec<char>) -> (r: Option<Phones>)
    requires
        dict.wf(),
    ensures
        match word_phones(*dict, w@, pos@) {
            Some(x) => r matches Some(y) && phones_view(y) == x,
            None => r is None,
        },
        r matches Some(y) ==> well_counted(phones_view(y)),
{
    if all_white_space_exec(w.as_slice()) {
        let r: Phones = (Vec::new(), Vec::new(), zero_counts(w.len()));
        assert(view_all(r.0@) =~= Seq::<Seq<char>>::empty());
        return Some(r);
    }
    let ws = string_of(w.as_slice());
    if is_english_token(ws.as_str()) {
        let eng = g2p_word(ws.as_str(), dict);
        let ghost e = crate::english::english_g2p(*dict, w@);
        let mut phones: Vec<Vec<char>> = Vec::new();
        let mut q: usize = 0;
        while q < eng.phones.len()
            invariant
                q <= eng.phones@.len(),
                eng.phones@.len() == eng.tones@.len(),
                crate::english::result_pairs(eng) == e.0,
                phones@.len() == q,
                forall|z: int| 0 <= z < q ==> (#[trigger] phones@[z])@ == eng.phones@[z]@,
            decreases eng.phones.len() - q,
        {
            phones.push(chars_of(eng.phones[q].as_str()));
            q = q + 1;
        }
        let r: Phones = (phones, eng.tones, eng.char_phone_counts);
        assert(view_all(r.0@) =~= e.0.map_values(|p: (Seq<char>, i32)| p.0));
        assert(r.1@ =~= e.0.map_values(|p: (Seq<char>, i32)| p.1));
        return Some(r);
    }
    chinese_word(sandhi, w, pos)
}

/// Phones, tones and per-character phone counts of one sentence: words and tags from the
/// segmenter, merged for sandhi; blank words count zero phones per character; ASCII words
/// through the English reading; the rest syllable by syllable after tone sandhi.
pub fn process_sentence(sandhi: &ToneSandhi, dict: &CmuDict, sentence: &Vec<char>) -> (r: Result<
    (Vec<Vec<char>>, Vec<i32>, Vec<usize>),
    TtsError,
>)
    requires
        dict.wf(),
    ensures
        match sentence_phones(*dict, sentence@) {
            Some(x) => r matches Ok(y) && phones_view(y) == x,
            None => r is Err,
        },
        r matches Ok(y) ==> well_counted(phones_view(y)),
{
    let s = string_of(sentence.as_slice());
    let tagged = sandhi.segmenter().tag(s.as_str());
    let ghost tv = crate::segmenter::tagged(sentence@);
    let mut seg: Vec<(Vec<char>, Vec<char>)> = Vec::new();
    let mut i: usize = 0;
    while i < tagged.len()
        invariant
            i <= tagged@.len(),
            tagged@.map_values(|p: (String, String)| (p.0@, p.1@)) == tv,
            crate::tone_sandhi::tags_view(seg@) == tv.take(i as int),
        decreases tagged.len() - i,
    {
        seg.push((chars_of(tagged[i].0.as_str()), chars_of(tagged[i].1.as_str())));
        i = i + 1;
        assert(crate::tone_sandhi::tags_view(seg@) =~= tv.take(i as int));
    }
    assert(tv.take(i as int) =~= tv);
    let merged = pre_merge_chars(&seg);
    let ghost mv = crate::tone_sandhi::tags_view(merged@);
    let mut out = empty_phones();
    let mut k: usize = 0;
    while k < merged.len()
        invariant
            dict.wf(),
            mv == crate::tone_sandhi::tags_view(merged@),
            k <= merged@.len(),
            well_counted(phones_view(out)),
            match words_from(*dict, mv, 0) {
                Some(x) => words_from(*dict, mv, k as int) matches Some(y) && x == (
                    phones_view(out).0 + y.0,
                    phones_view(out).1 + y.1,
                    phones_view(out).2 + y.2,
                ),
                None => words_from(*dict, mv, k as int) is None,
            },
        decreases merged.len() - k,
    {
        assert(mv[k as int] == (merged@[k as int].0@, merged@[k as int].1@));
        match word_piece(sandhi, dict, &merged[k].0, &merged[k].1) {
            Some(piece) => {
                let ghost o0 = phones_view(out);
                let ghost pv = phones_view(piece);
                append_phones(&mut out, piece);
                proof {
                    if let Some(y) = words_from(*dict, mv, k + 1) {
                        assert(phones_view(out).0 + y.0 =~= o0.0 + (pv.0 + y.0));
                        assert(phones_view(out).1 + y.1 =~= o0.1 + (pv.1 + y.1));
                        assert(phones_view(out).2 + y.2 =~= o0.2 + (pv.2 + y.2));
                    }
                }
            },
            None => {
                return Err(TtsError::Mapping(string_of(merged[k].0.as_slice())));
            },
        }
        k = k + 1;
    }
    proof {
        if let Some(x) = words_from(*dict, mv, 0) {
            let y = words_from(*dict, mv, k as int)->0;
            assert(phones_view(out).0 + y.0 =~= phones_view(out).0);
            assert(phones_view(out).1 + y.1 =~= phones_view(out).1);
            assert(phones_view(out).2 + y.2 =~= phones_view(out).2);
        }
    }
    Ok(out)
}

pub open spec fn pad() -> Seq<char> {
    seq!['_']
}

/// What every successful grapheme-to-phoneme result satisfies for `text`: as many tones
/// as phones, and as many phones as word2ph counts in all; one count per character plus
/// the two pads; pad phones `_` with tone 0 at both ends; a first count of 1 and a last
/// one of at least 1; zero phones for each white-space character.
pub open spec fn g2p_shape(text: Seq<char>, phones: Seq<Seq<char>>, tones: Seq<i32>, word2ph: Seq<usize>) -> bool {
    &&& phones.len() == tones.len()
    &&& phones.len() == sum_seq(word2ph)
    &&& word2ph.len() == text.len() + 2
    &&& phones.len() >= 2
    &&& phones[0] == pad() && phones.last() == pad()
    &&& tones[0] == 0 && tones.last() == 0
    &&& word2ph[0] == 1 && word2ph.last() >= 1
    &&& forall|i: int| 0 <= i < text.len() && is_white_space(#[trigger] text[i]) ==> word2ph[i + 1] == 0
}

/// Grapheme-to-phoneme conversion of normalized text: phones, tones (0 for the pads) and
/// the number of phones of each character, with a pad at each end. It fails when a
/// syllable has no phones, or when the text is too long to count.
pub fn g2p(text: &str, sandhi: &ToneSandhi, dict: &CmuDict) -> (r: Result<
    (Vec<String>, Vec<i32>, Vec<usize>),
    TtsError,
>)
    requires
        dict.wf(),
    ensures
        r matches Ok((p, t, w)) ==> g2p_shape(text@, p@.map_values(|s: String| s@), t@, w@),
        match text_phones(*dict, text@) {
            Some(x) => match r {
                Ok((p, t, w)) => p@.map_values(|s: String| s@) == seq![pad()] + x.0 + seq![pad()]
                    && t@ == seq![0i32] + x.1 + seq![0i32] && w@ == reconciled(
                    seq![1usize] + x.2 + seq![1usize],
                    text@,
                    (x.0.len() + 2) as nat,
                ),
                Err(_) => x.0.len() + 2 >= usize::MAX - 1 || text@.len() > usize::MAX - 2,
            },
            None => r is Err,
        },
{
    let chars = chars_of(text);
    let sentences = split_sentences(chars.as_slice());
    let ghost sv = view_all(sentences@);
    let mut out = empty_phones();
    let mut i: usize = 0;
    while i < sentences.len()
        invariant
            dict.wf(),
            sv == view_all(sentences@),
            i <= sentences@.len(),
            well_counted(phones_view(out)),
            match sentences_phones_from(*dict, sv, 0) {
                Some(x) => sentences_phones_from(*dict, sv, i as int) matches Some(y) && x == (
                    phones_view(out).0 + y.0,
                    phones_view(out).1 + y.1,
                    phones_view(out).2 + y.2,
                ),
                None => sentences_phones_from(*dict, sv, i as int) is None,
            },
        decreases sentences.len() - i,
    {
        assert(sv[i as int] == sentences@[i as int]@);
        if !all_white_space_exec(sentences[i].as_slice()) {
            match process_sentence(sandhi, dict, &sentences[i]) {
                Ok(piece) => {
                    let ghost o0 = phones_view(out);
                    let ghost pv = phones_view(piece);
                    append_phones(&mut out, piece);
                    proof {
                        if let Some(y) = sentences_phones_from(*dict, sv, i + 1) {
                            assert(phones_view(out).0 + y.0 =~= o0.0 + (pv.0 + y.0));
                            assert(phones_view(out).1 + y.1 =~= o0.1 + (pv.1 + y.1));
                            assert(phones_view(out).2 + y.2 =~= o0.2 + (pv.2 + y.2));
                        }
                    }
                },
                Err(e) => {
                    return Err(e);
                },
            }
        }
        i = i + 1;
    }
    let ghost x = phones_view(out);
    proof {
        if let Some(xx) = sentences_phones_from(*dict, sv, 0) {
            let y = sentences_phones_from(*dict, sv, i as int)->0;
            assert(x.0 + y.0 =~= x.0);
            assert(x.1 + y.1 =~= x.1);
            assert(x.2 + y.2 =~= x.2);
        }
    }
    if out.0.len() >= usize::MAX - 3 || chars.len() > usize::MAX - 2 {
        return Err(TtsError::Shape(string_of(['t', 'o', 'o', ' ', 'l', 'o', 'n', 'g'].as_slice())));
    }
    let pad_phone = vec!['_'];
    assert(pad_phone@ =~= pad());
    let mut phones: Vec<Vec<char>> = vec![pad_phone];
    assert(view_all(phones@) =~= seq![pad()]);
    phones = crate::text::concat_all(phones, &out.0);
    let last_pad = vec!['_'];
    assert(last_pad@ =~= pad());
    let ghost p0 = view_all(phones@);
    phones.push(last_pad);
    assert(view_all(phones@) =~= p0.push(pad()));
    let mut tones: Vec<i32> = vec![0];
    let mut q: usize = 0;
    while q < out.1.len()
        invariant
            q <= out.1@.len(),
            tones@ == seq![0i32] + out.1@.take(q as int),
        decreases out.1.len() - q,
    {
        tones.push(out.1[q]);
        q = q + 1;
        assert(tones@ =~= seq![0i32] + out.1@.take(q as int));
    }
    assert(out.1@.take(q as int) =~= out.1@);
    tones.push(0);
    let mut counts: Vec<usize> = vec![1];
    proof {
        lemma_sum_append(seq![1usize], out.2@);
        lemma_sum_push(seq![], 1);
        assert(seq![].push(1usize) =~= seq![1usize]);
    }
    let mut d: usize = 0;
    while d < out.2.len()
        invariant
            d <= out.2@.len(),
            counts@ == seq![1usize] + out.2@.take(d as int),
        decreases out.2.len() - d,
    {
        counts.push(out.2[d]);
        d = d + 1;
        assert(counts@ =~= seq![1usize] + out.2@.take(d as int));
    }
    assert(out.2@.take(d as int) =~= out.2@);
    proof {
        lemma_sum_push(counts@, 1);
    }
    counts.push(1);
    assert(counts@ =~= seq![1usize] + out.2@ + seq![1usize]);
    let n_phones = phones.len();
    let w = reconcile_word2ph(counts, chars.as_slice(), n_phones);
    let strs = crate::text::strings_of(&phones);
    let ghost pv = strs@.map_values(|s: String| s@);
    assert(pv =~= view_all(phones@));
    assert(pv[0] == pad());
    assert(pv.last() == pad());
    Ok((strs, tones, w))
}

} // verus!
