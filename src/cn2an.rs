//! Arabic numerals to Chinese numerals.
use vstd::prelude::*;
use crate::text::{append_chars, chars_of, string_of};

verus! {

pub open spec fn is_ascii_digit(c: char) -> bool {
    '0' <= c && c <= '9'
}

pub open spec fn digit_value(c: char) -> nat {
    (c as u32 - '0' as u32) as nat
}

/// The Chinese numeral for a single decimal digit.
pub open spec fn digit_char(d: nat) -> char {
    if d == 0 {
        '零'
    } else if d == 1 {
        '一'
    } else if d == 2 {
        '二'
    } else if d == 3 {
        '三'
    } else if d == 4 {
        '四'
    } else if d == 5 {
        '五'
    } else if d == 6 {
        '六'
    } else if d == 7 {
        '七'
    } else if d == 8 {
        '八'
    } else {
        '九'
    }
}

/// Positional unit inside a group of four digits.
pub open spec fn unit_chars(p: nat) -> Seq<char> {
    if p == 1 {
        seq!['十']
    } else if p == 2 {
        seq!['百']
    } else if p == 3 {
        seq!['千']
    } else {
        seq![]
    }
}

/// Unit appended to the group of four digits at index `i` (counted from the least significant).
pub open spec fn section_unit(i: nat) -> Seq<char> {
    if i == 1 {
        seq!['万']
    } else if i == 2 {
        seq!['亿']
    } else if i == 3 {
        seq!['兆']
    } else if i == 4 {
        seq!['京']
    } else {
        seq![]
    }
}

/// Drops every trailing `零`.
pub open spec fn trim_trailing_zero(s: Seq<char>) -> Seq<char>
    decreases s.len(),
{
    if s.len() > 0 && s.last() == '零' {
        trim_trailing_zero(s.drop_last())
    } else {
        s
    }
}

/// Reads the digits of `section` from the least significant one, prepending each
/// rendered digit to `words`; a run of zeros renders as one `零`.
pub open spec fn section_loop(section: nat, unit_pos: nat, zero: bool, words: Seq<char>) -> Seq<char>
    decreases section,
{
    if section == 0 {
        words
    } else {
        let d = section % 10;
        if d == 0 {
            if !zero {
                section_loop(section / 10, unit_pos + 1, true, seq!['零'] + words)
            } else {
                section_loop(section / 10, unit_pos + 1, true, words)
            }
        } else {
            section_loop(
                section / 10,
                unit_pos + 1,
                false,
                seq![digit_char(d)] + unit_chars(unit_pos) + words,
            )
        }
    }
}

/// A group of at most four digits in Chinese, without trailing zeros.
pub open spec fn section_words(section: nat) -> Seq<char> {
    trim_trailing_zero(section_loop(section, 0, true, seq![]))
}

/// Reads `value` in groups of four digits from the least significant end, prepending
/// each rendered group with its unit, and a `零` where a lower group was below 1000.
pub open spec fn integer_loop(value: nat, idx: nat, need_zero: bool, result: Seq<char>) -> Seq<char>
    decreases value,
{
    if value == 0 {
        result
    } else {
        let section = value % 10000;
        if section != 0 {
            let r1 = if need_zero && !(result.len() > 0 && result[0] == '零') {
                seq!['零'] + result
            } else {
                result
            };
            integer_loop(
                value / 10000,
                idx + 1,
                section < 1000 && value >= 10000,
                section_words(section) + section_unit(idx) + r1,
            )
        } else {
            integer_loop(value / 10000, idx + 1, if result.len() > 0 { true } else { need_zero }, result)
        }
    }
}

/// `一十…` at the start becomes `十…`.
pub open spec fn drop_leading_yi_shi(s: Seq<char>) -> Seq<char> {
    if s.len() >= 2 && s[0] == '一' && s[1] == '十' {
        s.drop_first()
    } else {
        s
    }
}

/// The Chinese numeral of an integer.
pub open spec fn integer_words(v: int) -> Seq<char> {
    if v == 0 {
        seq!['零']
    } else if v < 0 {
        seq!['负'] + drop_leading_yi_shi(integer_loop((-v) as nat, 0, false, seq![]))
    } else {
        drop_leading_yi_shi(integer_loop(v as nat, 0, false, seq![]))
    }
}

fn digit_to_char(d: u32) -> (c: char)
    requires
        d < 10,
    ensures
        c == digit_char(d as nat),
{
    if d == 0 {
        '零'
    } else if d == 1 {
        '一'
    } else if d == 2 {
        '二'
    } else if d == 3 {
        '三'
    } else if d == 4 {
        '四'
    } else if d == 5 {
        '五'
    } else if d == 6 {
        '六'
    } else if d == 7 {
        '七'
    } else if d == 8 {
        '八'
    } else {
        '九'
    }
}

fn unit_of(p: u32) -> (r: Vec<char>)
    ensures
        r@ == unit_chars(p as nat),
{
    if p == 1 {
        vec!['十']
    } else if p == 2 {
        vec!['百']
    } else if p == 3 {
        vec!['千']
    } else {
        Vec::new()
    }
}

fn section_unit_of(i: u128) -> (r: Vec<char>)
    ensures
        r@ == section_unit(i as nat),
{
    if i == 1 {
        vec!['万']
    } else if i == 2 {
        vec!['亿']
    } else if i == 3 {
        vec!['兆']
    } else if i == 4 {
        vec!['京']
    } else {
        Vec::new()
    }
}

fn prepend(front: Vec<char>, back: &Vec<char>) -> (r: Vec<char>)
    ensures
        r@ == front@ + back@,
{
    let mut r = front;
    append_chars(&mut r, back.as_slice());
    r
}

fn trim_trailing_zero_exec(s: Vec<char>) -> (r: Vec<char>)
    ensures
        r@ == trim_trailing_zero(s@),
    decreases s.len(),
{
    if s.len() > 0 && s[s.len() - 1] == '零' {
        let mut t = s;
        t.pop();
        trim_trailing_zero_exec(t)
    } else {
        s
    }
}

fn section_loop_exec(section: u32, unit_pos: u32, zero: bool, words: Vec<char>) -> (r: Vec<char>)
    requires
        section as nat + unit_pos as nat <= u32::MAX,
    ensures
        r@ == section_loop(section as nat, unit_pos as nat, zero, words@),
    decreases section,
{
    if section == 0 {
        words
    } else {
        let d = section % 10;
        if d == 0 {
            if !zero {
                let z = vec!['零'];
                assert(z@ =~= seq!['零']);
                let w = prepend(z, &words);
                section_loop_exec(section / 10, unit_pos + 1, true, w)
            } else {
                section_loop_exec(section / 10, unit_pos + 1, true, words)
            }
        } else {
            let mut front = vec![digit_to_char(d)];
            assert(front@ =~= seq![digit_char((section as nat) % 10)]);
            let u = unit_of(unit_pos);
            append_chars(&mut front, u.as_slice());
            let w = prepend(front, &words);
            assert(w@ =~= seq![digit_char((section as nat) % 10)] + unit_chars(unit_pos as nat) + words@);
            section_loop_exec(section / 10, unit_pos + 1, false, w)
        }
    }
}

/// Renders one group of at most four digits.
pub fn convert_section(section: u32) -> (r: Vec<char>)
    ensures
        r@ == section_words(section as nat),
{
    let w = section_loop_exec(section, 0, true, Vec::new());
    trim_trailing_zero_exec(w)
}

fn integer_loop_exec(value: u128, idx: u128, need_zero: bool, result: Vec<char>) -> (r: Vec<char>)
    requires
        value as nat + idx as nat <= u128::MAX,
    ensures
        r@ == integer_loop(value as nat, idx as nat, need_zero, result@),
    decreases value,
{
    if value == 0 {
        result
    } else {
        let section = (value % 10000) as u32;
        if section != 0 {
            let r1 = if need_zero && !(result.len() > 0 && result[0] == '零') {
                let z = vec!['零'];
                assert(z@ =~= seq!['零']);
                prepend(z, &result)
            } else {
                result
            };
            let mut chunk = convert_section(section);
            let unit = section_unit_of(idx);
            append_chars(&mut chunk, unit.as_slice());
            let next = prepend(chunk, &r1);
            assert(next@ =~= section_words((value as nat) % 10000) + section_unit(idx as nat) + r1@);
            integer_loop_exec(value / 10000, idx + 1, section < 1000 && value >= 10000, next)
        } else {
            let nz = if result.len() > 0 { true } else { need_zero };
            integer_loop_exec(value / 10000, idx + 1, nz, result)
        }
    }
}

/// The Chinese numeral of `value`.
pub fn convert_integer(value: i128) -> (r: Vec<char>)
    requires
        value > i128::MIN,
    ensures
        r@ == integer_words(value as int),
{
    if value == 0 {
        return vec!['零'];
    }
    let neg = value < 0;
    let a: u128 = if neg { (-value) as u128 } else { value as u128 };
    let body = integer_loop_exec(a, 0, false, Vec::new());
    let body = if body.len() >= 2 && body[0] == '一' && body[1] == '十' {
        let mut t: Vec<char> = Vec::new();
        append_chars(&mut t, body.as_slice().split_at(1).1);
        assert(t@ =~= body@.drop_first());
        t
    } else {
        body
    };
    if neg {
        prepend(vec!['负'], &body)
    } else {
        body
    }
}

/// Number of leading ASCII digits.
pub open spec fn digit_run_len(s: Seq<char>) -> nat
    decreases s.len(),
{
    if s.len() > 0 && is_ascii_digit(s[0]) {
        1 + digit_run_len(s.skip(1))
    } else {
        0
    }
}

/// Decimal value of a sequence of ASCII digits.
pub open spec fn digits_value(s: Seq<char>) -> nat
    decreases s.len(),
{
    if s.len() == 0 {
        0
    } else {
        digits_value(s.drop_last()) * 10 + digit_value(s.last())
    }
}

pub open spec fn all_digits(s: Seq<char>) -> bool {
    forall|m: int| 0 <= m < s.len() ==> is_ascii_digit(#[trigger] s[m])
}

/// Length of the longest prefix of `s` of the shape `\d+(\.\d+)?` (0 when `s` does not
/// start with a digit).
pub open spec fn number_len(s: Seq<char>) -> nat {
    let j = digit_run_len(s);
    if j + 1 < s.len() && s[j as int] == '.' && is_ascii_digit(s[j + 1 as int]) {
        j + 1 + digit_run_len(s.skip(j + 1 as int))
    } else {
        j
    }
}

/// `s` has the shape `\d+(\.\d+)?`.
pub open spec fn is_number_literal(t: Seq<char>) -> bool {
    let j = digit_run_len(t);
    j >= 1 && (j == t.len() || (t[j as int] == '.' && j + 1 < t.len() && all_digits(t.skip(j + 1 as int))))
}

/// The Chinese reading of a number literal: the integer part as a numeral (kept as
/// written when it exceeds the 128-bit signed range), then `点` and the fraction digit by digit.
pub open spec fn number_words(t: Seq<char>) -> Seq<char> {
    let j = digit_run_len(t);
    let int_part = t.take(j as int);
    let iw = if digits_value(int_part) <= i128::MAX {
        integer_words(digits_value(int_part) as int)
    } else {
        int_part
    };
    if j < t.len() {
        iw + seq!['点'] + t.skip(j + 1 as int).map_values(|c: char| digit_char(digit_value(c)))
    } else {
        iw
    }
}

/// Every maximal match of `\d+(\.\d+)?` replaced by its Chinese reading.
pub open spec fn numbers_replaced(s: Seq<char>) -> Seq<char>
    decreases s.len(),
{
    if s.len() == 0 {
        seq![]
    } else if is_ascii_digit(s[0]) {
        let k = number_len(s);
        if 1 <= k <= s.len() {
            number_words(s.take(k as int)) + numbers_replaced(s.skip(k as int))
        } else {
            s
        }
    } else {
        seq![s[0]] + numbers_replaced(s.skip(1))
    }
}

pub proof fn lemma_digit_run(s: Seq<char>, j: nat)
    requires
        j <= s.len(),
        forall|m: int| 0 <= m < j ==> is_ascii_digit(#[trigger] s[m]),
        j == s.len() || !is_ascii_digit(s[j as int]),
    ensures
        digit_run_len(s) == j,
    decreases j,
{
    if j > 0 {
        assert(is_ascii_digit(s[0]));
        lemma_digit_run(s.skip(1), (j - 1) as nat);
    }
}

fn is_digit_char(c: char) -> (r: bool)
    ensures
        r == is_ascii_digit(c),
{
    '0' <= c && c <= '9'
}

/// End of the run of ASCII digits that starts at `i`, looking no further than `hi`.
fn digit_run_end(s: &Vec<char>, i: usize, hi: usize) -> (j: usize)
    requires
        i <= hi <= s.len(),
    ensures
        i <= j <= hi,
        j - i == digit_run_len(s@.subrange(i as int, hi as int)),
        forall|m: int| i <= m < j ==> is_ascii_digit(#[trigger] s@[m]),
        j == hi || !is_ascii_digit(s@[j as int]),
{
    let mut j = i;
    while j < hi && is_digit_char(s[j])
        invariant
            i <= j <= hi,
            forall|m: int| i <= m < j ==> is_ascii_digit(#[trigger] s@[m]),
        decreases hi - j,
    {
        j = j + 1;
    }
    proof {
        let t = s@.subrange(i as int, hi as int);
        assert forall|m: int| 0 <= m < j - i implies is_ascii_digit(#[trigger] t[m]) by {
            assert(t[m] == s@[m + i]);
        }
        lemma_digit_run(t, (j - i) as nat);
    }
    j
}

/// End of the number literal that starts at `i`.
fn number_end(s: &Vec<char>, i: usize) -> (k: usize)
    requires
        i < s.len(),
        is_ascii_digit(s@[i as int]),
    ensures
        i < k <= s.len(),
        k - i == number_len(s@.skip(i as int)),
        is_number_literal(s@.subrange(i as int, k as int)),
{
    let ghost t = s@.skip(i as int);
    let j = digit_run_end(s, i, s.len());
    assert(s@.subrange(i as int, s.len() as int) =~= t);
    assert(t[0] == s@[i as int]);
    let k = if j < s.len() && j + 1 < s.len() && s[j] == '.' && is_digit_char(s[j + 1]) {
        let e = digit_run_end(s, j + 1, s.len());
        proof {
            assert(t.skip((j - i) as int + 1) =~= s@.subrange(j + 1, s.len() as int));
        }
        e
    } else {
        j
    };
    proof {
        let u = s@.subrange(i as int, k as int);
        assert forall|m: int| 0 <= m < j - i implies is_ascii_digit(#[trigger] u[m]) by {
            assert(u[m] == s@[m + i]);
        }
        lemma_digit_run(u, (j - i) as nat);
        if k > j {
            assert(u.skip((j - i) as int + 1) =~= s@.subrange(j + 1, k as int));
        }
    }
    k
}

/// Reads a number literal (`\d+(\.\d+)?`) stored at `s[start..end]`.
fn an2cn(s: &Vec<char>, start: usize, end: usize) -> (r: Vec<char>)
    requires
        start < end <= s.len(),
        is_number_literal(s@.subrange(start as int, end as int)),
    ensures
        r@ == number_words(s@.subrange(start as int, end as int)),
{
    let ghost t = s@.subrange(start as int, end as int);
    let j = digit_run_end(s, start, end);
    let max: u128 = 170141183460469231731687303715884105727;
    let mut v: u128 = 0;
    let mut over = false;
    let mut m = start;
    while m < j
        invariant
            start <= m <= j,
            j <= end,
            j - start == digit_run_len(t),
            forall|q: int| start <= q < j ==> is_ascii_digit(#[trigger] s@[q]),
            !over ==> v as nat == digits_value(s@.subrange(start as int, m as int)) && v <= max,
            over ==> digits_value(s@.subrange(start as int, m as int)) > max,
        decreases j - m,
    {
        let d = (s[m] as u32 - '0' as u32) as u128;
        proof {
            let a = s@.subrange(start as int, m + 1);
            assert(a.drop_last() =~= s@.subrange(start as int, m as int));
        }
        if !over {
            if v > max / 10 {
                over = true;
            } else {
                let w = v * 10 + d;
                if w > max {
                    over = true;
                } else {
                    v = w;
                }
            }
        }
        m = m + 1;
    }
    assert(s@.subrange(start as int, j as int) =~= t.take((j - start) as int));
    let mut r = if !over {
        convert_integer(v as i128)
    } else {
        let mut c: Vec<char> = Vec::new();
        let mut q = start;
        while q < j
            invariant
                start <= q <= j,
                c@ == s@.subrange(start as int, q as int),
            decreases j - q,
        {
            c.push(s[q]);
            q = q + 1;
            assert(c@ =~= s@.subrange(start as int, q as int));
        }
        c
    };
    let ghost iw = r@;
    if j < end {
        r.push('点');
        let mut q = j + 1;
        assert(t.skip((j - start) as int + 1) =~= s@.subrange(j + 1, end as int));
        proof {
            let f = s@.subrange(j + 1, end as int);
            assert forall|p: int| j + 1 <= p < end implies is_ascii_digit(#[trigger] s@[p]) by {
                assert(f[p - j - 1] == s@[p]);
            }
            assert(iw + seq!['点'] =~= iw + seq!['点'] + s@.subrange(j + 1, q as int).map_values(
                |c: char| digit_char(digit_value(c)),
            ));
        }
        while q < end
            invariant
                j + 1 <= q <= end,
                forall|p: int| j + 1 <= p < end ==> is_ascii_digit(#[trigger] s@[p]),
                r@ == iw + seq!['点'] + s@.subrange(j + 1, q as int).map_values(
                    |c: char| digit_char(digit_value(c)),
                ),
            decreases end - q,
        {
            let d = s[q] as u32 - '0' as u32;
            r.push(digit_to_char(d));
            q = q + 1;
            assert(r@ =~= iw + seq!['点'] + s@.subrange(j + 1, q as int).map_values(
                |c: char| digit_char(digit_value(c)),
            ));
        }
    }
    r
}

/// Replaces every maximal match of `\d+(\.\d+)?` with its Chinese reading; the rest
/// of the text is kept.
pub fn replace_numbers(text: &str) -> (r: String)
    ensures
        r@ == numbers_replaced(text@),
{
    let s = chars_of(text);
    let n = s.len();
    let mut out: Vec<char> = Vec::new();
    let mut i: usize = 0;
    assert(s@.skip(0) =~= s@);
    while i < n
        invariant
            n == s.len(),
            i <= n,
            out@ + numbers_replaced(s@.skip(i as int)) == numbers_replaced(s@),
        decreases n - i,
    {
        let ghost rest = s@.skip(i as int);
        assert(rest[0] == s@[i as int]);
        if is_digit_char(s[i]) {
            let k = number_end(&s, i);
            let piece = an2cn(&s, i, k);
            assert(rest.take((k - i) as int) =~= s@.subrange(i as int, k as int));
            assert(rest.skip((k - i) as int) =~= s@.skip(k as int));
            append_chars(&mut out, piece.as_slice());
            i = k;
            assert(out@ + numbers_replaced(s@.skip(i as int)) =~= numbers_replaced(s@));
        } else {
            out.push(s[i]);
            assert(rest.skip(1) =~= s@.skip(i + 1));
            i = i + 1;
            assert(out@ + numbers_replaced(s@.skip(i as int)) =~= numbers_replaced(s@));
        }
    }
    assert(s@.skip(n as int) =~= seq![]);
    assert(out@ =~= numbers_replaced(s@));
    string_of(out.as_slice())
}

} // verus!
