//! Text normalization: numerals, punctuation folding, unsupported characters.
use vstd::prelude::*;
use crate::cn2an::{is_ascii_digit, numbers_replaced, replace_numbers};
use crate::symbols::is_punctuation;
use crate::text::{chars_of, string_of};

verus! {

/// Unicode `White_Space`, the set that `\s` and `char::is_whitespace` use.
pub open spec fn is_white_space(c: char) -> bool {
    ('\u{9}' <= c && c <= '\u{d}') || c == ' ' || c == '\u{85}' || c == '\u{a0}' || c == '\u{1680}'
        || ('\u{2000}' <= c && c <= '\u{200a}') || c == '\u{2028}' || c == '\u{2029}' || c
        == '\u{202f}' || c == '\u{205f}' || c == '\u{3000}'
}

pub fn is_white_space_char(c: char) -> (r: bool)
    ensures
        r == is_white_space(c),
{
    ('\u{9}' <= c && c <= '\u{d}') || c == ' ' || c == '\u{85}' || c == '\u{a0}' || c == '\u{1680}'
        || ('\u{2000}' <= c && c <= '\u{200a}') || c == '\u{2028}' || c == '\u{2029}' || c
        == '\u{202f}' || c == '\u{205f}' || c == '\u{3000}'
}

pub open spec fn is_ascii_alnum(c: char) -> bool {
    ('a' <= c && c <= 'z') || ('A' <= c && c <= 'Z') || ('0' <= c && c <= '9')
}

/// Characters that survive normalization: CJK ideographs U+4E00..U+9FA5, ASCII letters
/// and digits, white space and the punctuation marks.
pub open spec fn is_supported(c: char) -> bool {
    ('\u{4e00}' <= c && c <= '\u{9fa5}') || is_ascii_alnum(c) || is_white_space(c) || is_punctuation(
        c,
    )
}

/// The replacement of a single-character mark: CJK and ASCII separators become `,` `.`
/// `!` `?`, brackets and quotes become `'`, dashes and tildes `-`, a newline `.`;
/// `嗯` becomes `恩` and `呣` becomes `母`. Any other character is kept.
pub open spec fn mark_of(c: char) -> char {
    if c == '：' || c == '；' || c == '，' || c == '·' || c == '、' {
        ','
    } else if c == '。' || c == '\n' || c == '$' {
        '.'
    } else if c == '！' {
        '!'
    } else if c == '？' {
        '?'
    } else if c == '“' || c == '”' || c == '"' || c == '‘' || c == '’' || c == '（' || c == '）'
        || c == '(' || c == ')' || c == '《' || c == '》' || c == '【' || c == '】' || c == '['
        || c == ']' || c == '「' || c == '」' {
        '\''
    } else if c == '—' || c == '～' || c == '~' {
        '-'
    } else if c == '嗯' {
        '恩'
    } else if c == '呣' {
        '母'
    } else {
        c
    }
}

fn mark_of_exec(c: char) -> (r: char)
    ensures
        r == mark_of(c),
{
    if c == '：' || c == '；' || c == '，' || c == '·' || c == '、' {
        ','
    } else if c == '。' || c == '\n' || c == '$' {
        '.'
    } else if c == '！' {
        '!'
    } else if c == '？' {
        '?'
    } else if c == '“' || c == '”' || c == '"' || c == '‘' || c == '’' || c == '（' || c == '）'
        || c == '(' || c == ')' || c == '《' || c == '》' || c == '【' || c == '】' || c == '['
        || c == ']' || c == '「' || c == '」' {
        '\''
    } else if c == '—' || c == '～' || c == '~' {
        '-'
    } else if c == '嗯' {
        '恩'
    } else if c == '呣' {
        '母'
    } else {
        c
    }
}

pub open spec fn starts_with_three_dots(s: Seq<char>) -> bool {
    s.len() >= 3 && s[0] == '.' && s[1] == '.' && s[2] == '.'
}

/// Marks folded from left to right; `...` becomes `…`.
pub open spec fn marks_folded(s: Seq<char>) -> Seq<char>
    decreases s.len(),
{
    if s.len() == 0 {
        seq![]
    } else if starts_with_three_dots(s) {
        seq!['…'] + marks_folded(s.skip(3))
    } else {
        seq![mark_of(s[0])] + marks_folded(s.skip(1))
    }
}

/// The supported characters of `s`, in order.
pub open spec fn supported_only(s: Seq<char>) -> Seq<char>
    decreases s.len(),
{
    if s.len() == 0 {
        seq![]
    } else if is_supported(s[0]) {
        seq![s[0]] + supported_only(s.skip(1))
    } else {
        supported_only(s.skip(1))
    }
}

pub open spec fn punctuation_replaced(s: Seq<char>) -> Seq<char> {
    supported_only(marks_folded(s))
}

pub open spec fn normalized(s: Seq<char>) -> Seq<char> {
    punctuation_replaced(numbers_replaced(s))
}

fn supported_char(c: char) -> (r: bool)
    ensures
        r == is_supported(c),
{
    ('\u{4e00}' <= c && c <= '\u{9fa5}') || ('a' <= c && c <= 'z') || ('A' <= c && c <= 'Z') || (
    '0' <= c && c <= '9') || is_white_space_char(c) || crate::symbols::is_punctuation_char(c)
}

/// Folds punctuation marks to their ASCII forms and removes unsupported characters.
pub fn replace_punctuation(text: &str) -> (r: String)
    ensures
        r@ == punctuation_replaced(text@),
{
    let s = chars_of(text);
    let n = s.len();
    let mut folded: Vec<char> = Vec::new();
    let mut i: usize = 0;
    assert(s@.skip(0) =~= s@);
    while i < n
        invariant
            n == s.len(),
            i <= n,
            folded@ + marks_folded(s@.skip(i as int)) == marks_folded(s@),
        decreases n - i,
    {
        let ghost rest = s@.skip(i as int);
        if n - i >= 3 && s[i] == '.' && s[i + 1] == '.' && s[i + 2] == '.' {
            folded.push('…');
            assert(rest.skip(3) =~= s@.skip(i + 3));
            i = i + 3;
        } else {
            folded.push(mark_of_exec(s[i]));
            assert(rest.skip(1) =~= s@.skip(i + 1));
            i = i + 1;
        }
        assert(folded@ + marks_folded(s@.skip(i as int)) =~= marks_folded(s@));
    }
    assert(s@.skip(n as int) =~= seq![]);
    assert(folded@ =~= marks_folded(s@));
    let mut out: Vec<char> = Vec::new();
    let mut j: usize = 0;
    assert(folded@.skip(0) =~= folded@);
    while j < folded.len()
        invariant
            j <= folded.len(),
            out@ + supported_only(folded@.skip(j as int)) == supported_only(folded@),
        decreases folded.len() - j,
    {
        assert(folded@.skip(j as int).skip(1) =~= folded@.skip(j + 1));
        if supported_char(folded[j]) {
            out.push(folded[j]);
        }
        j = j + 1;
        assert(out@ + supported_only(folded@.skip(j as int)) =~= supported_only(folded@));
    }
    assert(folded@.skip(folded.len() as int) =~= seq![]);
    assert(out@ =~= supported_only(folded@));
    string_of(out.as_slice())
}

/// Numerals to Chinese, then punctuation folding and removal of unsupported characters.
pub fn normalize_text(text: &str) -> (r: String)
    ensures
        r@ == normalized(text@),
{
    let t = replace_numbers(text);
    replace_punctuation(t.as_str())
}

proof fn lemma_no_digits_unchanged(s: Seq<char>)
    requires
        forall|i: int| 0 <= i < s.len() ==> !is_ascii_digit(#[trigger] s[i]),
    ensures
        numbers_replaced(s) == s,
    decreases s.len(),
{
    if s.len() > 0 {
        assert forall|i: int| 0 <= i < s.skip(1).len() implies !is_ascii_digit(
            #[trigger] s.skip(1)[i],
        ) by {
            assert(s.skip(1)[i] == s[i + 1]);
        }
        lemma_no_digits_unchanged(s.skip(1));
        assert(!is_ascii_digit(s[0]));
        assert(numbers_replaced(s) == seq![s[0]] + numbers_replaced(s.skip(1)));
        assert(s =~= seq![s[0]] + s.skip(1));
    } else {
        assert(s =~= seq![]);
    }
}

proof fn lemma_folded_chars(s: Seq<char>)
    ensures
        forall|i: int|
            0 <= i < marks_folded(s).len() ==> {
                let c = #[trigger] marks_folded(s)[i];
                c != '\n' && c != '嗯' && c != '呣'
            },
    decreases s.len(),
{
    if s.len() > 0 {
        let k: int = if starts_with_three_dots(s) { 3 } else { 1 };
        lemma_folded_chars(s.skip(k));
        let r = marks_folded(s.skip(k));
        assert(marks_folded(s) == seq![marks_folded(s)[0]] + r);
        assert forall|i: int| 0 <= i < marks_folded(s).len() implies {
            let c = #[trigger] marks_folded(s)[i];
            c != '\n' && c != '嗯' && c != '呣'
        } by {
            if i > 0 {
                assert(marks_folded(s)[i] == r[i - 1]);
            }
        }
    }
}

proof fn lemma_supported_only_chars(s: Seq<char>)
    ensures
        forall|i: int|
            0 <= i < supported_only(s).len() ==> is_supported(#[trigger] supported_only(s)[i])
                && s.contains(supported_only(s)[i]),
    decreases s.len(),
{
    if s.len() > 0 {
        lemma_supported_only_chars(s.skip(1));
        assert forall|i: int| 0 <= i < supported_only(s).len() implies is_supported(
            #[trigger] supported_only(s)[i],
        ) && s.contains(supported_only(s)[i]) by {
            let r = supported_only(s.skip(1));
            if is_supported(s[0]) {
                if i == 0 {
                    assert(s[0] == s[0]);
                } else {
                    assert(supported_only(s)[i] == r[i - 1]);
                    let k = choose|k: int| 0 <= k < s.skip(1).len() && s.skip(1)[k] == r[i - 1];
                    assert(s[k + 1] == r[i - 1]);
                }
            } else {
                let k = choose|k: int| 0 <= k < s.skip(1).len() && s.skip(1)[k] == r[i];
                assert(s[k + 1] == r[i]);
            }
        }
    }
}

proof fn lemma_folded_fixed(t: Seq<char>)
    requires
        forall|i: int|
            0 <= i < t.len() ==> {
                let c = #[trigger] t[i];
                is_supported(c) && c != '\n' && c != '嗯' && c != '呣'
            },
        forall|i: int| 0 <= i < t.len() ==> !starts_with_three_dots(#[trigger] t.skip(i)),
    ensures
        marks_folded(t) == t,
        supported_only(t) == t,
    decreases t.len(),
{
    if t.len() > 0 {
        let r = t.skip(1);
        assert(t.skip(0) =~= t);
        assert forall|i: int| 0 <= i < r.len() implies !starts_with_three_dots(#[trigger] r.skip(i)) by {
            assert(r.skip(i) =~= t.skip(i + 1));
        }
        assert forall|i: int| 0 <= i < r.len() implies {
            let c = #[trigger] r[i];
            is_supported(c) && c != '\n' && c != '嗯' && c != '呣'
        } by {
            assert(r[i] == t[i + 1]);
        }
        lemma_folded_fixed(r);
        assert(!starts_with_three_dots(t.skip(0)));
        assert(t =~= seq![t[0]] + r);
    } else {
        assert(t =~= seq![]);
    }
}

/// Normalization is idempotent on its own output whenever that output holds no ASCII
/// digit (all numerals were read) and no three consecutive dots.
pub proof fn lemma_normalize_idempotent(s: Seq<char>)
    requires
        forall|i: int| 0 <= i < normalized(s).len() ==> !is_ascii_digit(#[trigger] normalized(s)[i]),
        forall|i: int|
            0 <= i < normalized(s).len() ==> !starts_with_three_dots(#[trigger] normalized(s).skip(i)),
    ensures
        normalized(normalized(s)) == normalized(s),
{
    let t = normalized(s);
    let f = marks_folded(numbers_replaced(s));
    lemma_folded_chars(numbers_replaced(s));
    lemma_supported_only_chars(f);
    assert forall|i: int| 0 <= i < t.len() implies {
        let c = #[trigger] t[i];
        is_supported(c) && c != '\n' && c != '嗯' && c != '呣'
    } by {
        let k = choose|k: int| 0 <= k < f.len() && f[k] == t[i];
    }
    lemma_no_digits_unchanged(t);
    lemma_folded_fixed(t);
}

} // verus!
