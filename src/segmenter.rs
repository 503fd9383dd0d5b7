//! Dictionary-based Chinese word segmentation and character readings.
use vstd::prelude::*;
use jieba_rs::Jieba;
use pinyin::ToPinyin;

verus! {

#[verifier::external_type_specification]
#[verifier::external_body]
pub struct ExJieba(Jieba);

/// The words of a sentence with their part-of-speech tags.
pub uninterp spec fn tagged(s: Seq<char>) -> Seq<(Seq<char>, Seq<char>)>;

/// The sub-words that search-mode segmentation finds in a word.
pub uninterp spec fn search_cut(s: Seq<char>) -> Seq<Seq<char>>;

/// Whether a character has a pinyin reading.
pub uninterp spec fn has_pinyin(c: char) -> bool;

/// The toneless pinyin of a character.
pub uninterp spec fn pinyin_plain(c: char) -> Seq<char>;

/// The pinyin of a character with its tone digit at the end.
pub uninterp spec fn pinyin_numbered(c: char) -> Seq<char>;

/// A word segmenter over the built-in dictionary.
pub struct Segmenter {
    jieba: Jieba,
}

/// Relies on `Jieba::new`: a segmenter that loads the built-in dictionary.
#[verifier::external_body]
fn new_jieba() -> Jieba {
    Jieba::new()
}

/// Relies on `Jieba::tag` with HMM over the built-in dictionary: the words of the
/// sentence, each with its part-of-speech tag; the result depends on the sentence alone.
#[verifier::external_body]
fn jieba_tag(j: &Jieba, sentence: &str) -> (r: Vec<(String, String)>)
    ensures
        r@.map_values(|p: (String, String)| (p.0@, p.1@)) == tagged(sentence@),
{
    j.tag(sentence, true).into_iter().map(|t| (t.word.to_string(), t.tag.to_string())).collect()
}

/// Relies on `Jieba::cut_for_search` without HMM over the built-in dictionary: the
/// result depends on the word alone.
#[verifier::external_body]
fn jieba_cut_for_search(j: &Jieba, word: &str) -> (r: Vec<String>)
    ensures
        r@.map_values(|s: String| s@) == search_cut(word@),
{
    j.cut_for_search(word, false).into_iter().map(|s| s.to_string()).collect()
}

/// Relies on `ToPinyin for char`, `Pinyin::plain` and `Pinyin::with_tone_num_end`: the
/// reading of a character from the crate's static table.
#[verifier::external_body]
pub(crate) fn char_pinyin(c: char) -> (r: Option<(String, String)>)
    ensures
        r is Some == has_pinyin(c),
        r matches Some(p) ==> p.0@ == pinyin_plain(c) && p.1@ == pinyin_numbered(c),
{
    c.to_pinyin().map(|p| (p.plain().to_string(), p.with_tone_num_end().to_string()))
}

impl Segmenter {
    pub fn new() -> Segmenter {
        Segmenter { jieba: new_jieba() }
    }

    /// Words and part-of-speech tags of a sentence.
    pub fn tag(&self, sentence: &str) -> (r: Vec<(String, String)>)
        ensures
            r@.map_values(|p: (String, String)| (p.0@, p.1@)) == tagged(sentence@),
    {
        jieba_tag(&self.jieba, sentence)
    }

    /// Sub-words found by search-mode segmentation.
    pub fn cut_for_search(&self, word: &str) -> (r: Vec<String>)
        ensures
            r@.map_values(|s: String| s@) == search_cut(word@),
    {
        jieba_cut_for_search(&self.jieba, word)
    }
}

} // verus!
