//! Phone symbols, languages and tone ranges.
use vstd::prelude::*;
use crate::text::{chars_eq, chars_of};

verus! {

/// Language of a phone sequence.
#[derive(Debug, Clone, Copy, PartialEq, Eq, Hash)]
pub enum Language {
    Zh,
    Jp,
    En,
}

pub const NUM_ZH_TONES: usize = 6;
pub const NUM_JP_TONES: usize = 2;
pub const NUM_EN_TONES: usize = 4;
pub const NUM_TONES: usize = 12;

impl Language {
    pub open spec fn code(&self) -> Seq<char> {
        match self {
            Language::Zh => seq!['Z', 'H'],
            Language::Jp => seq!['J', 'P'],
            Language::En => seq!['E', 'N'],
        }
    }

    /// The language's upper-case two-letter code.
    pub fn as_code(&self) -> (r: &'static str)
        ensures
            r@ == self.code(),
    {
        proof {
            reveal_strlit("ZH");
            reveal_strlit("JP");
            reveal_strlit("EN");
        }
        match self {
            Language::Zh => "ZH",
            Language::Jp => "JP",
            Language::En => "EN",
        }
    }

    /// The language with the given code, letters in either case.
    pub fn from_code(s: &str) -> (r: Option<Language>)
        ensures
            r == (if s@.map_values(|c: char| ascii_upper(c)) == seq!['Z', 'H'] {
                Some(Language::Zh)
            } else if s@.map_values(|c: char| ascii_upper(c)) == seq!['J', 'P'] {
                Some(Language::Jp)
            } else if s@.map_values(|c: char| ascii_upper(c)) == seq!['E', 'N'] {
                Some(Language::En)
            } else {
                None
            }),
    {
        let c = chars_of(s);
        let mut u: Vec<char> = Vec::new();
        let mut i: usize = 0;
        while i < c.len()
            invariant
                i <= c.len(),
                c@ == s@,
                u@ == c@.subrange(0, i as int).map_values(|c: char| ascii_upper(c)),
            decreases c.len() - i,
        {
            u.push(to_ascii_upper(c[i]));
            i = i + 1;
            assert(u@ =~= c@.subrange(0, i as int).map_values(|c: char| ascii_upper(c)));
        }
        assert(c@.subrange(0, c.len() as int) =~= c@);
        if chars_eq(u.as_slice(), ['Z', 'H'].as_slice()) {
            Some(Language::Zh)
        } else if chars_eq(u.as_slice(), ['J', 'P'].as_slice()) {
            Some(Language::Jp)
        } else if chars_eq(u.as_slice(), ['E', 'N'].as_slice()) {
            Some(Language::En)
        } else {
            None
        }
    }

    /// Numeric language id: ZH 0, JP 1, EN 2.
    pub fn id(&self) -> (r: usize)
        ensures
            r == self.id_spec(),
    {
        match self {
            Language::Zh => 0,
            Language::Jp => 1,
            Language::En => 2,
        }
    }

    pub open spec fn id_spec(&self) -> usize {
        match self {
            Language::Zh => 0,
            Language::Jp => 1,
            Language::En => 2,
        }
    }

    /// First tone offset of the language: ZH 0, JP 6, EN 8.
    pub fn tone_start(&self) -> (r: usize)
        ensures
            r == self.tone_start_spec(),
    {
        match self {
            Language::Zh => 0,
            Language::Jp => NUM_ZH_TONES,
            Language::En => NUM_ZH_TONES + NUM_JP_TONES,
        }
    }

    pub open spec fn tone_start_spec(&self) -> usize {
        match self {
            Language::Zh => 0,
            Language::Jp => 6,
            Language::En => 8,
        }
    }
}

pub open spec fn ascii_upper(c: char) -> char {
    if 'a' <= c && c <= 'z' {
        ((c as u8) - 32) as u8 as char
    } else {
        c
    }
}

pub fn to_ascii_upper(c: char) -> (r: char)
    ensures
        r == ascii_upper(c),
{
    if 'a' <= c && c <= 'z' {
        ((c as u8) - 32) as char
    } else {
        c
    }
}

/// The punctuation marks that survive normalization, each its own phone.
pub open spec fn is_punctuation(c: char) -> bool {
    c == '!' || c == '?' || c == '…' || c == ',' || c == '.' || c == '\'' || c == '-'
}

pub fn is_punctuation_char(c: char) -> (r: bool)
    ensures
        r == is_punctuation(c),
{
    c == '!' || c == '?' || c == '…' || c == ',' || c == '.' || c == '\'' || c == '-'
}

/// The symbol inventory: the pad, the Mandarin, Japanese and English phones (sorted,
/// without repeats), the punctuation marks, `SP` and `UNK`. A symbol's index is its id.
pub open spec fn symbol_list() -> Seq<&'static str> {
    seq![
        "_", "AA", "E", "EE", "En", "N", "OO", "V", "a", "a:", "aa", "ae",
        "ah", "ai", "an", "ang", "ao", "aw", "ay", "b", "by", "c", "ch", "d",
        "dh", "dy", "e", "e:", "eh", "ei", "en", "eng", "er", "ey", "f", "g",
        "gy", "h", "hh", "hy", "i", "i0", "i:", "ia", "ian", "iang", "iao", "ie",
        "ih", "in", "ing", "iong", "ir", "iu", "iy", "j", "jh", "k", "ky", "l",
        "m", "my", "n", "ng", "ny", "o", "o:", "ong", "ou", "ow", "oy", "p",
        "py", "q", "r", "ry", "s", "sh", "t", "th", "ts", "ty", "u", "u:",
        "ua", "uai", "uan", "uang", "uh", "ui", "un", "uo", "uw", "v", "van", "ve",
        "vn", "w", "x", "y", "z", "zh", "zy", "!", "?", "…", ",", ".",
        "'", "-", "SP", "UNK",
    ]
}

fn symbol_table() -> (r: Vec<&'static str>)
    ensures
        r@ == symbol_list(),
{
    let r = vec![
        "_", "AA", "E", "EE", "En", "N", "OO", "V", "a", "a:", "aa", "ae",
        "ah", "ai", "an", "ang", "ao", "aw", "ay", "b", "by", "c", "ch", "d",
        "dh", "dy", "e", "e:", "eh", "ei", "en", "eng", "er", "ey", "f", "g",
        "gy", "h", "hh", "hy", "i", "i0", "i:", "ia", "ian", "iang", "iao", "ie",
        "ih", "in", "ing", "iong", "ir", "iu", "iy", "j", "jh", "k", "ky", "l",
        "m", "my", "n", "ng", "ny", "o", "o:", "ong", "ou", "ow", "oy", "p",
        "py", "q", "r", "ry", "s", "sh", "t", "th", "ts", "ty", "u", "u:",
        "ua", "uai", "uan", "uang", "uh", "ui", "un", "uo", "uw", "v", "van", "ve",
        "vn", "w", "x", "y", "z", "zh", "zy", "!", "?", "…", ",", ".",
        "'", "-", "SP", "UNK",
    ];
    assert(r@ =~= symbol_list());
    r
}

/// Whether the symbol at index `i` is spelled `p`.
pub open spec fn symbol_at(i: int, p: Seq<char>) -> bool {
    0 <= i < symbol_list().len() && symbol_list()[i]@ == p
}

/// The id of phone `p`: the first index of the inventory that holds it.
pub fn symbol_id(p: &[char]) -> (r: Option<usize>)
    ensures
        match r {
            Some(i) => symbol_at(i as int, p@) && forall|j: int| 0 <= j < i ==> !symbol_at(j, p@),
            None => forall|j: int| 0 <= j < symbol_list().len() ==> !symbol_at(j, p@),
        },
{
    let t = symbol_table();
    let mut i: usize = 0;
    while i < t.len()
        invariant
            t@ == symbol_list(),
            i <= t.len(),
            forall|j: int| 0 <= j < i ==> !symbol_at(j, p@),
        decreases t.len() - i,
    {
        let s = chars_of(t[i]);
        if chars_eq(s.as_slice(), p) {
            return Some(i);
        }
        i = i + 1;
    }
    None
}

} // verus!
