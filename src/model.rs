//! Integer inputs of the acoustic model: phone, tone and language ids, blank
//! interspersion, and speaker and style resolution.
use vstd::prelude::*;
use crate::errors::TtsError;
use crate::symbols::{symbol_at, symbol_id, symbol_list, Language};
use crate::text::{chars_eq, chars_of, lemma_sum_push, string_of, sum_seq};

verus! {

/// `values` with `blank` before each entry and after the last.
pub open spec fn interspersed(values: Seq<i64>, blank: i64) -> Seq<i64> {
    Seq::new(2 * values.len() + 1, |i: int| if i % 2 == 0 { blank } else { values[i / 2] })
}

/// Puts `blank` between and around the entries.
pub fn intersperse(values: &[i64], blank: i64) -> (r: Vec<i64>)
    requires
        2 * values@.len() + 1 <= usize::MAX,
    ensures
        r@ == interspersed(values@, blank),
{
    let mut r: Vec<i64> = Vec::new();
    let mut i: usize = 0;
    while i < values.len()
        invariant
            i <= values@.len(),
            r@.len() == 2 * i,
            forall|q: int| 0 <= q < 2 * i ==> #[trigger] r@[q] == interspersed(values@, blank)[q],
        decreases values.len() - i,
    {
        r.push(blank);
        r.push(values[i]);
        proof {
            assert forall|q: int| 0 <= q < 2 * (i + 1) implies #[trigger] r@[q] == interspersed(
                values@,
                blank,
            )[q] by {
                if q == 2 * i + 1 {
                    assert(q / 2 == i);
                }
            }
        }
        i = i + 1;
    }
    r.push(blank);
    assert(r@ =~= interspersed(values@, blank));
    r
}

/// word2ph after blank interspersion: every count doubled, the first one plus one.
pub open spec fn blanked_word2ph(w: Seq<usize>) -> Seq<int> {
    Seq::new(w.len(), |i: int| if i == 0 { 2 * w[i] + 1 } else { 2 * w[i] as int })
}

pub open spec fn sum_ints(s: Seq<int>) -> int
    decreases s.len(),
{
    if s.len() == 0 {
        0
    } else {
        sum_ints(s.drop_last()) + s.last()
    }
}

proof fn lemma_doubled_sum(w: Seq<usize>)
    ensures
        sum_ints(Seq::new(w.len(), |i: int| 2 * w[i] as int)) == 2 * sum_seq(w),
    decreases w.len(),
{
    if w.len() > 0 {
        lemma_doubled_sum(w.drop_last());
        assert(Seq::new(w.len(), |i: int| 2 * w[i] as int).drop_last() =~= Seq::new(
            w.drop_last().len(),
            |i: int| 2 * w.drop_last()[i] as int,
        ));
    }
}

proof fn lemma_sum_ints_update(s: Seq<int>, i: int, x: int)
    requires
        0 <= i < s.len(),
    ensures
        sum_ints(s.update(i, x)) == sum_ints(s) - s[i] + x,
    decreases s.len(),
{
    if i == s.len() - 1 {
        assert(s.update(i, x).drop_last() =~= s.drop_last());
    } else {
        lemma_sum_ints_update(s.drop_last(), i, x);
        assert(s.update(i, x).drop_last() =~= s.drop_last().update(i, x));
    }
}

/// Blank interspersion keeps word2ph in step with the phones: when the counts add up to
/// the number of phones, the blanked counts add up to the interspersed phone count.
pub proof fn lemma_blank_keeps_sum(phones: Seq<i64>, w: Seq<usize>, blank: i64)
    requires
        w.len() >= 1,
        sum_seq(w) == phones.len(),
    ensures
        sum_ints(blanked_word2ph(w)) == interspersed(phones, blank).len(),
{
    let d = Seq::new(w.len(), |i: int| 2 * w[i] as int);
    lemma_doubled_sum(w);
    lemma_sum_ints_update(d, 0, 2 * w[0] + 1);
    assert(blanked_word2ph(w) =~= d.update(0, 2 * w[0] + 1));
}

/// Doubles every count and adds one to the first.
pub fn blank_word2ph(w: &mut Vec<usize>)
    requires
        old(w)@.len() >= 1,
        forall|i: int| 0 <= i < old(w)@.len() ==> 2 * old(w)@[i] + 1 <= usize::MAX,
    ensures
        final(w)@.len() == old(w)@.len(),
        forall|i: int| 0 <= i < old(w)@.len() ==> final(w)@[i] as int == #[trigger] blanked_word2ph(old(w)@)[i],
{
    let mut i: usize = 0;
    while i < w.len()
        invariant
            w@.len() == old(w)@.len(),
            i <= w@.len(),
            forall|q: int| 0 <= q < i ==> w@[q] == 2 * old(w)@[q],
            forall|q: int| i <= q < w@.len() ==> w@[q] == old(w)@[q],
            forall|q: int| 0 <= q < old(w)@.len() ==> 2 * old(w)@[q] + 1 <= usize::MAX,
        decreases w.len() - i,
    {
        let v = w[i] * 2;
        w.set(i, v);
        i = i + 1;
    }
    let v = w[0] + 1;
    w.set(0, v);
}

/// Integer inputs for one utterance.
pub struct PhoneIds {
    pub phone_ids: Vec<i64>,
    pub tone_ids: Vec<i64>,
    pub lang_ids: Vec<i64>,
}

/// Phone ids from the symbol inventory, tones offset by the language's first tone, and
/// the language id for every phone; an unknown phone is an error.
pub fn phone_ids(phones: &Vec<String>, tones: &Vec<i32>, lang: Language) -> (r: Result<PhoneIds, TtsError>)
    requires
        phones@.len() == tones@.len(),
    ensures
        match r {
            Ok(ids) => {
                &&& ids.phone_ids@.len() == phones@.len()
                &&& ids.tone_ids@.len() == phones@.len()
                &&& ids.lang_ids@.len() == phones@.len()
                &&& forall|i: int|
                    0 <= i < phones@.len() ==> symbol_at(#[trigger] ids.phone_ids@[i] as int, phones@[i]@)
                        && forall|j: int| 0 <= j < ids.phone_ids@[i] ==> !symbol_at(j, phones@[i]@)
                &&& forall|i: int|
                    0 <= i < phones@.len() ==> #[trigger] ids.tone_ids@[i] == lang.tone_start_spec()
                        + tones@[i]
                &&& forall|i: int| 0 <= i < phones@.len() ==> #[trigger] ids.lang_ids@[i] == lang.id_spec()
            },
            Err(_) => exists|i: int|
                0 <= i < phones@.len() && forall|j: int|
                    0 <= j < symbol_list().len() ==> !symbol_at(j, #[trigger] phones@[i]@),
        },
{
    let start = lang.tone_start() as i64;
    let lid = lang.id() as i64;
    let mut p: Vec<i64> = Vec::new();
    let mut t: Vec<i64> = Vec::new();
    let mut l: Vec<i64> = Vec::new();
    let mut i: usize = 0;
    while i < phones.len()
        invariant
            phones@.len() == tones@.len(),
            start == lang.tone_start_spec(),
            lid == lang.id_spec(),
            i <= phones@.len(),
            p@.len() == i,
            t@.len() == i,
            l@.len() == i,
            forall|q: int|
                0 <= q < i ==> symbol_at(#[trigger] p@[q] as int, phones@[q]@) && forall|j: int|
                    0 <= j < p@[q] ==> !symbol_at(j, phones@[q]@),
            forall|q: int| 0 <= q < i ==> #[trigger] t@[q] == lang.tone_start_spec() + tones@[q],
            forall|q: int| 0 <= q < i ==> #[trigger] l@[q] == lang.id_spec(),
        decreases phones.len() - i,
    {
        let c = chars_of(phones[i].as_str());
        match symbol_id(c.as_slice()) {
            Some(id) => {
                p.push(id as i64);
                t.push(start + tones[i] as i64);
                l.push(lid);
            },
            None => {
                return Err(TtsError::Mapping(string_of(c.as_slice())));
            },
        }
        i = i + 1;
    }
    Ok(PhoneIds { phone_ids: p, tone_ids: t, lang_ids: l })
}

/// The smallest id of a table, 0 when it is empty.
pub fn min_id(table: &Vec<(String, usize)>) -> (r: usize)
    ensures
        table@.len() == 0 ==> r == 0,
        table@.len() > 0 ==> (exists|i: int| 0 <= i < table@.len() && (#[trigger] table@[i]).1 == r)
            && forall|i: int| 0 <= i < table@.len() ==> r <= (#[trigger] table@[i]).1,
{
    if table.len() == 0 {
        return 0;
    }
    let mut m = table[0].1;
    let mut i: usize = 1;
    while i < table.len()
        invariant
            table@.len() > 0,
            1 <= i <= table@.len(),
            exists|q: int| 0 <= q < i && (#[trigger] table@[q]).1 == m,
            forall|q: int| 0 <= q < i ==> m <= (#[trigger] table@[q]).1,
        decreases table.len() - i,
    {
        if table[i].1 < m {
            m = table[i].1;
        }
        i = i + 1;
    }
    m
}

/// The style used when none is named: the id of `Neutral` (0 without one), at most the
/// last style row.
pub fn default_style_id(style2id: &Vec<(String, usize)>, num_styles: usize) -> (r: usize)
    requires
        num_styles >= 1,
    ensures
        r < num_styles,
        r == (match lookup_id_spec(style2id@, seq!['N', 'e', 'u', 't', 'r', 'a', 'l']) {
            Some(id) => if id < num_styles { id } else { (num_styles - 1) as usize },
            None => 0,
        }),
{
    let name = string_of(['N', 'e', 'u', 't', 'r', 'a', 'l'].as_slice());
    assert(['N', 'e', 'u', 't', 'r', 'a', 'l']@ =~= seq!['N', 'e', 'u', 't', 'r', 'a', 'l']);
    let id = match lookup_id(style2id, name.as_str()) {
        Some(id) => id,
        None => 0,
    };
    if id < num_styles { id } else { num_styles - 1 }
}

/// The id that the first entry named `name` carries.
pub open spec fn lookup_id_spec(table: Seq<(String, usize)>, name: Seq<char>) -> Option<usize>
    decreases table.len(),
{
    if table.len() == 0 {
        None
    } else if table[0].0@ == name {
        Some(table[0].1)
    } else {
        lookup_id_spec(table.skip(1), name)
    }
}

pub fn lookup_id(table: &Vec<(String, usize)>, name: &str) -> (r: Option<usize>)
    ensures
        r == lookup_id_spec(table@, name@),
{
    let n = chars_of(name);
    let mut i: usize = 0;
    assert(table@.skip(0) =~= table@);
    while i < table.len()
        invariant
            n@ == name@,
            i <= table@.len(),
            lookup_id_spec(table@.skip(i as int), name@) == lookup_id_spec(table@, name@),
        decreases table.len() - i,
    {
        let k = chars_of(table[i].0.as_str());
        assert(table@.skip(i as int)[0] == table@[i as int]);
        if chars_eq(k.as_slice(), n.as_slice()) {
            return Some(table[i].1);
        }
        assert(table@.skip(i as int).skip(1) =~= table@.skip(i + 1));
        i = i + 1;
    }
    None
}

/// The first name in a table that carries `id`.
pub fn name_of_id(table: &Vec<(String, usize)>, id: usize) -> (r: Option<String>)
    ensures
        match r {
            Some(name) => exists|i: int|
                0 <= i < table@.len() && (#[trigger] table@[i]).1 == id && table@[i].0@ == name@
                    && forall|j: int| 0 <= j < i ==> (#[trigger] table@[j]).1 != id,
            None => forall|i: int| 0 <= i < table@.len() ==> (#[trigger] table@[i]).1 != id,
        },
{
    let mut i: usize = 0;
    while i < table.len()
        invariant
            i <= table@.len(),
            forall|j: int| 0 <= j < i ==> (#[trigger] table@[j]).1 != id,
        decreases table.len() - i,
    {
        if table[i].1 == id {
            let c = chars_of(table[i].0.as_str());
            return Some(string_of(c.as_slice()));
        }
        i = i + 1;
    }
    None
}

/// Encoding of synthesized audio.
#[derive(Debug, Clone, Copy, PartialEq, Eq)]
pub enum AudioFormat {
    Wav,
    Mp3,
}

impl AudioFormat {
    pub open spec fn name(&self) -> Seq<char> {
        match self {
            AudioFormat::Wav => seq!['w', 'a', 'v'],
            AudioFormat::Mp3 => seq!['m', 'p', '3'],
        }
    }

    /// The format's lower-case name.
    pub fn as_str(&self) -> (r: &'static str)
        ensures
            r@ == self.name(),
    {
        proof {
            reveal_strlit("wav");
            reveal_strlit("mp3");
        }
        match self {
            AudioFormat::Wav => "wav",
            AudioFormat::Mp3 => "mp3",
        }
    }

    /// The format named `s` (`wav` or `mp3`, lower case); WAV when no name is given.
    pub fn from_name(s: Option<&str>) -> (r: Option<AudioFormat>)
        ensures
            s is None ==> r == Some(AudioFormat::Wav),
            s matches Some(n) ==> r == (if n@ == seq!['w', 'a', 'v'] {
                Some(AudioFormat::Wav)
            } else if n@ == seq!['m', 'p', '3'] {
                Some(AudioFormat::Mp3)
            } else {
                None
            }),
    {
        match s {
            None => Some(AudioFormat::Wav),
            Some(n) => {
                let c = chars_of(n);
                let wav = ['w', 'a', 'v'];
                let mp3 = ['m', 'p', '3'];
                assert(wav@ =~= seq!['w', 'a', 'v']);
                assert(mp3@ =~= seq!['m', 'p', '3']);
                if chars_eq(c.as_slice(), wav.as_slice()) {
                    Some(AudioFormat::Wav)
                } else if chars_eq(c.as_slice(), mp3.as_slice()) {
                    Some(AudioFormat::Mp3)
                } else {
                    None
                }
            },
        }
    }
}

/// Whether a response-format name is accepted: none given, `b64_json`, or its alias `base64`.
pub fn response_format_accepted(s: Option<&str>) -> (r: bool)
    ensures
        r == (s is None || s->0@ == seq!['b', '6', '4', '_', 'j', 's', 'o', 'n'] || s->0@ == seq![
            'b',
            'a',
            's',
            'e',
            '6',
            '4',
        ]),
{
    match s {
        None => true,
        Some(n) => {
            let c = chars_of(n);
            let a = ['b', '6', '4', '_', 'j', 's', 'o', 'n'];
            let b = ['b', 'a', 's', 'e', '6', '4'];
            assert(a@ =~= seq!['b', '6', '4', '_', 'j', 's', 'o', 'n']);
            assert(b@ =~= seq!['b', 'a', 's', 'e', '6', '4']);
            chars_eq(c.as_slice(), a.as_slice()) || chars_eq(c.as_slice(), b.as_slice())
        },
    }
}

pub open spec fn entries_view(v: Seq<(Vec<char>, usize)>) -> Seq<(Seq<char>, usize)> {
    v.map_values(|e: (Vec<char>, usize)| (e.0@, e.1))
}

/// `e` placed after every entry whose id is not larger.
pub open spec fn insert_by_id(acc: Seq<(Seq<char>, usize)>, e: (Seq<char>, usize)) -> Seq<(Seq<char>, usize)>
    decreases acc.len(),
{
    if acc.len() == 0 || acc.last().1 <= e.1 {
        acc.push(e)
    } else {
        insert_by_id(acc.drop_last(), e).push(acc.last())
    }
}

/// Entries ordered by id, entries with equal ids in table order.
pub open spec fn sorted_by_id(t: Seq<(Seq<char>, usize)>) -> Seq<(Seq<char>, usize)>
    decreases t.len(),
{
    if t.len() == 0 {
        seq![]
    } else {
        insert_by_id(sorted_by_id(t.drop_last()), t.last())
    }
}

fn insert_by_id_exec(acc: &mut Vec<(Vec<char>, usize)>, e: (Vec<char>, usize))
    ensures
        entries_view(final(acc)@) == insert_by_id(entries_view(old(acc)@), (e.0@, e.1)),
    decreases old(acc)@.len(),
{
    let ghost a0 = entries_view(acc@);
    if acc.len() == 0 || acc[acc.len() - 1].1 <= e.1 {
        acc.push(e);
        assert(entries_view(acc@) =~= a0.push((e.0@, e.1)));
    } else {
        let l = acc.pop().unwrap();
        assert(entries_view(acc@) =~= a0.drop_last());
        let ghost lv = (l.0@, l.1);
        insert_by_id_exec(acc, e);
        let ghost a1 = entries_view(acc@);
        acc.push(l);
        assert(entries_view(acc@) =~= a1.push(lv));
    }
}

/// The names of a name-to-id table, ordered by id (equal ids keep the table's order).
pub fn names_by_id(table: &Vec<(String, usize)>) -> (r: Vec<String>)
    ensures
        r@.map_values(|s: String| s@) == sorted_by_id(table@.map_values(|e: (String, usize)| (e.0@, e.1))).map_values(
            |e: (Seq<char>, usize)| e.0,
        ),
{
    let ghost tv = table@.map_values(|e: (String, usize)| (e.0@, e.1));
    let mut acc: Vec<(Vec<char>, usize)> = Vec::new();
    let mut i: usize = 0;
    assert(entries_view(acc@) =~= sorted_by_id(tv.take(0)));
    while i < table.len()
        invariant
            i <= table@.len(),
            tv == table@.map_values(|e: (String, usize)| (e.0@, e.1)),
            entries_view(acc@) == sorted_by_id(tv.take(i as int)),
        decreases table.len() - i,
    {
        let e = (chars_of(table[i].0.as_str()), table[i].1);
        assert(tv.take(i + 1).drop_last() =~= tv.take(i as int));
        assert(tv.take(i + 1).last() == (e.0@, e.1));
        insert_by_id_exec(&mut acc, e);
        i = i + 1;
    }
    assert(tv.take(i as int) =~= tv);
    let mut out: Vec<String> = Vec::new();
    let mut k: usize = 0;
    while k < acc.len()
        invariant
            k <= acc@.len(),
            out@.len() == k,
            forall|q: int| 0 <= q < k ==> (#[trigger] out@[q])@ == acc@[q].0@,
        decreases acc.len() - k,
    {
        out.push(string_of(acc[k].0.as_slice()));
        k = k + 1;
    }
    assert(out@.map_values(|s: String| s@) =~= entries_view(acc@).map_values(|e: (Seq<char>, usize)| e.0));
    out
}

pub open spec fn clamped(id: usize, num_styles: usize) -> usize {
    if id < num_styles { id } else { (num_styles - 1) as usize }
}

/// A style id limited to the last row of the style matrix.
pub fn clamp_style_id(id: usize, num_styles: usize) -> (r: usize)
    requires
        num_styles >= 1,
    ensures
        r == clamped(id, num_styles),
{
    if id < num_styles { id } else { num_styles - 1 }
}

/// The style table with every id limited to the last row of the style matrix, names and
/// order kept.
pub fn clamp_style_table(table: &Vec<(String, usize)>, num_styles: usize) -> (r: Vec<(String, usize)>)
    requires
        num_styles >= 1,
    ensures
        r@.len() == table@.len(),
        forall|i: int|
            0 <= i < table@.len() ==> (#[trigger] r@[i]).0@ == table@[i].0@ && r@[i].1 == clamped(
                table@[i].1,
                num_styles,
            ),
{
    let mut r: Vec<(String, usize)> = Vec::new();
    let mut i: usize = 0;
    while i < table.len()
        invariant
            i <= table@.len(),
            num_styles >= 1,
            r@.len() == i,
            forall|q: int|
                0 <= q < i ==> (#[trigger] r@[q]).0@ == table@[q].0@ && r@[q].1 == clamped(
                    table@[q].1,
                    num_styles,
                ),
        decreases table.len() - i,
    {
        let c = chars_of(table[i].0.as_str());
        r.push((string_of(c.as_slice()), clamp_style_id(table[i].1, num_styles)));
        i = i + 1;
    }
    r
}

} // verus!
