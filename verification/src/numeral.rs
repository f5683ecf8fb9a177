//! Reading decimal integers and whitespace-separated words out of text.
use vstd::prelude::*;

use crate::text::{digit_value, is_digit};

verus! {

/// Unicode `White_Space`, the characters that `char::is_whitespace` accepts.
pub open spec fn is_whitespace(c: char) -> bool {
    ||| '\u{9}' <= c <= '\u{d}'
    ||| c == ' '
    ||| c == '\u{85}'
    ||| c == '\u{a0}'
    ||| c == '\u{1680}'
    ||| '\u{2000}' <= c <= '\u{200a}'
    ||| c == '\u{2028}'
    ||| c == '\u{2029}'
    ||| c == '\u{202f}'
    ||| c == '\u{205f}'
    ||| c == '\u{3000}'
}

pub fn char_is_whitespace(c: char) -> (ws: bool)
    ensures
        ws == is_whitespace(c),
{
    ('\u{9}' <= c && c <= '\u{d}') || c == ' ' || c == '\u{85}' || c == '\u{a0}' || c
        == '\u{1680}' || ('\u{2000}' <= c && c <= '\u{200a}') || c == '\u{2028}' || c
        == '\u{2029}' || c == '\u{202f}' || c == '\u{205f}' || c == '\u{3000}'
}

/// All characters of `s` are ASCII decimal digits.
pub open spec fn all_digits(s: Seq<char>) -> bool {
    forall|i: int| 0 <= i < s.len() ==> #[trigger] is_digit(s[i])
}

/// The number that the decimal digits `s` spell, most significant first.
pub open spec fn digits_value(s: Seq<char>) -> nat
    decreases s.len(),
{
    if s.len() == 0 {
        0
    } else {
        digits_value(s.drop_last()) * 10 + digit_value(s.last())
    }
}

/// The digits after an optional leading `+`.
pub open spec fn unsigned_digits(s: Seq<char>) -> Seq<char> {
    if s.len() > 0 && s[0] == '+' {
        s.drop_first()
    } else {
        s
    }
}

/// What `str::parse::<u64>` gives: an optional `+`, then one or more ASCII
/// digits whose value fits in `u64`.
pub open spec fn parse_u64_spec(s: Seq<char>) -> Option<u64> {
    let digits = unsigned_digits(s);
    if digits.len() > 0 && all_digits(digits) && digits_value(digits) <= u64::MAX {
        Some(digits_value(digits) as u64)
    } else {
        None
    }
}

/// What `str::parse::<i64>` gives: an optional sign, then one or more ASCII
/// digits whose signed value fits in `i64`.
pub open spec fn parse_i64_spec(s: Seq<char>) -> Option<i64> {
    if s.len() > 0 && s[0] == '-' {
        let digits = s.drop_first();
        if digits.len() > 0 && all_digits(digits) && digits_value(digits) <= 0x8000_0000_0000_0000 {
            Some((-digits_value(digits)) as i64)
        } else {
            None
        }
    } else {
        let digits = unsigned_digits(s);
        if digits.len() > 0 && all_digits(digits) && digits_value(digits) <= i64::MAX {
            Some(digits_value(digits) as i64)
        } else {
            None
        }
    }
}

/// A longer run of digits is worth at least as much as its prefix.
proof fn lemma_digits_value_prefix(s: Seq<char>, k: int)
    requires
        0 <= k <= s.len(),
        all_digits(s),
    ensures
        digits_value(s.take(k)) <= digits_value(s),
    decreases s.len() - k,
{
    if k < s.len() {
        lemma_digits_value_prefix(s, k + 1);
        assert(s.take(k + 1).drop_last() =~= s.take(k));
        assert(s.take(k + 1).last() == s[k]);
    } else {
        assert(s.take(k) =~= s);
    }
}

/// The value of the ASCII digits `s[from..]`, or `None` when there are none, one
/// of them is not a digit, or the value exceeds `limit`.
fn digits_up_to(s: &Vec<char>, from: usize, limit: u64) -> (value: Option<u64>)
    requires
        from <= s@.len(),
    ensures
        ({
            let digits = s@.skip(from as int);
            value == if digits.len() > 0 && all_digits(digits) && digits_value(digits) <= limit {
                Some(digits_value(digits) as u64)
            } else {
                None
            }
        }),
{
    let ghost digits = s@.skip(from as int);
    if from == s.len() {
        return None;
    }
    let mut acc: u64 = 0;
    let mut i: usize = from;
    while i < s.len()
        invariant
            from <= i <= s@.len(),
            digits == s@.skip(from as int),
            all_digits(digits.take(i - from)),
            acc == digits_value(digits.take(i - from)),
            acc <= limit,
        decreases s@.len() - i,
    {
        let c = s[i];
        let k: Ghost<int> = Ghost(i - from);
        assert(digits.take(k@ + 1).drop_last() =~= digits.take(k@));
        assert(digits.take(k@ + 1).last() == c);
        if !('0' <= c && c <= '9') {
            assert(!all_digits(digits)) by {
                assert(!is_digit(digits[k@]));
            }
            return None;
        }
        let d: u64 = if c == '0' {
            0
        } else if c == '1' {
            1
        } else if c == '2' {
            2
        } else if c == '3' {
            3
        } else if c == '4' {
            4
        } else if c == '5' {
            5
        } else if c == '6' {
            6
        } else if c == '7' {
            7
        } else if c == '8' {
            8
        } else {
            9
        };
        assert(d == digit_value(c));
        let next = if d <= limit && acc <= (limit - d) / 10 {
            Some(acc * 10 + d)
        } else {
            None
        };
        match next {
            Some(v) => {
                acc = v;
                assert(all_digits(digits.take(k@ + 1))) by {
                    assert forall|j: int| 0 <= j < k@ + 1 implies #[trigger] is_digit(
                        digits.take(k@ + 1)[j],
                    ) by {
                        if j < k@ {
                            assert(digits.take(k@ + 1)[j] == digits.take(k@)[j]);
                        }
                    }
                }
            },
            None => {
                assert(acc * 10 + d > limit) by (nonlinear_arith)
                    requires
                        d > limit || acc > (limit - d) / 10,
                        d < 10,
                {
                }
                proof {
                    if all_digits(digits) {
                        lemma_digits_value_prefix(digits, k@ + 1);
                    }
                }
                return None;
            },
        }
        i = i + 1;
    }
    assert(digits.take(i - from) =~= digits);
    Some(acc)
}

/// `str::parse::<u64>` on the given characters.
pub fn parse_u64(s: &Vec<char>) -> (value: Option<u64>)
    ensures
        value == parse_u64_spec(s@),
{
    let from: usize = if s.len() > 0 && s[0] == '+' {
        1
    } else {
        0
    };
    assert(s@.skip(from as int) =~= unsigned_digits(s@));
    digits_up_to(s, from, u64::MAX)
}

/// `str::parse::<i64>` on the given characters.
pub fn parse_i64(s: &Vec<char>) -> (value: Option<i64>)
    ensures
        value == parse_i64_spec(s@),
{
    if s.len() > 0 && s[0] == '-' {
        assert(s@.skip(1) =~= s@.drop_first());
        match digits_up_to(s, 1, 0x8000_0000_0000_0000) {
            Some(v) => {
                if v == 0x8000_0000_0000_0000 {
                    Some(i64::MIN)
                } else {
                    let w: i64 = v as i64;
                    Some(-w)
                }
            },
            None => None,
        }
    } else {
        let from: usize = if s.len() > 0 && s[0] == '+' {
            1
        } else {
            0
        };
        assert(s@.skip(from as int) =~= unsigned_digits(s@));
        match digits_up_to(s, from, 0x7fff_ffff_ffff_ffff) {
            Some(v) => {
                let w: i64 = v as i64;
                Some(w)
            },
            None => None,
        }
    }
}

/// The first position at or after `i` that does not hold whitespace.
pub open spec fn skip_whitespace(s: Seq<char>, i: int) -> int
    decreases s.len() - i,
{
    if i < 0 || i >= s.len() || !is_whitespace(s[i]) {
        i
    } else {
        skip_whitespace(s, i + 1)
    }
}

/// The first position at or after `i` that holds whitespace, or the end.
pub open spec fn skip_word(s: Seq<char>, i: int) -> int
    decreases s.len() - i,
{
    if i < 0 || i >= s.len() || is_whitespace(s[i]) {
        i
    } else {
        skip_word(s, i + 1)
    }
}

/// The first whitespace-separated word of `s`
/// (`s.split_whitespace().next()`).
pub open spec fn first_word(s: Seq<char>) -> Option<Seq<char>> {
    let start = skip_whitespace(s, 0);
    if start >= s.len() {
        None
    } else {
        Some(s.subrange(start, skip_word(s, start)))
    }
}

proof fn lemma_skip_bounds(s: Seq<char>, i: int)
    requires
        0 <= i <= s.len(),
    ensures
        i <= skip_whitespace(s, i) <= s.len(),
        i <= skip_word(s, i) <= s.len(),
    decreases s.len() - i,
{
    if i < s.len() {
        lemma_skip_bounds(s, i + 1);
    }
}

/// The first whitespace-separated word of `s`.
pub fn first_word_of(s: &Vec<char>) -> (word: Option<Vec<char>>)
    ensures
        match first_word(s@) {
            Some(w) => word matches Some(v) && v@ == w,
            None => word is None,
        },
{
    proof {
        lemma_skip_bounds(s@, 0);
    }
    let mut start: usize = 0;
    while start < s.len() && char_is_whitespace(s[start])
        invariant
            start <= s@.len(),
            skip_whitespace(s@, 0) == skip_whitespace(s@, start as int),
        decreases s@.len() - start,
    {
        start = start + 1;
    }
    if start >= s.len() {
        return None;
    }
    proof {
        lemma_skip_bounds(s@, start as int);
    }
    let mut end: usize = start;
    let mut word: Vec<char> = Vec::new();
    while end < s.len() && !char_is_whitespace(s[end])
        invariant
            start <= end <= s@.len(),
            skip_word(s@, start as int) == skip_word(s@, end as int),
            word@ == s@.subrange(start as int, end as int),
        decreases s@.len() - end,
    {
        word.push(s[end]);
        end = end + 1;
    }
    Some(word)
}

/// Where `pattern` first occurs in `s` at or after position `i`.
pub open spec fn find_from(s: Seq<char>, pattern: Seq<char>, i: int) -> Option<int>
    decreases s.len() + 1 - i,
{
    if i < 0 || i + pattern.len() > s.len() {
        None
    } else if s.subrange(i, i + pattern.len()) == pattern {
        Some(i)
    } else {
        find_from(s, pattern, i + 1)
    }
}

/// Where `pattern` first occurs in `s` (`str::find`, counted in characters).
pub open spec fn find(s: Seq<char>, pattern: Seq<char>) -> Option<int> {
    find_from(s, pattern, 0)
}

proof fn lemma_find_from_bounds(s: Seq<char>, pattern: Seq<char>, i: int)
    requires
        0 <= i,
    ensures
        find_from(s, pattern, i) matches Some(k) ==> i <= k && k + pattern.len() <= s.len(),
    decreases s.len() + 1 - i,
{
    if i + pattern.len() <= s.len() && s.subrange(i, i + pattern.len()) != pattern {
        lemma_find_from_bounds(s, pattern, i + 1);
    }
}

/// A match lies within the text.
pub proof fn lemma_find_bounds(s: Seq<char>, pattern: Seq<char>)
    ensures
        find(s, pattern) matches Some(k) ==> 0 <= k && k + pattern.len() <= s.len(),
{
    lemma_find_from_bounds(s, pattern, 0);
}

/// `s[at..]` starts with `pattern`.
fn matches_at(s: &Vec<char>, pattern: &Vec<char>, at: usize) -> (m: bool)
    requires
        at + pattern@.len() <= s@.len(),
    ensures
        m == (s@.subrange(at as int, at + pattern@.len()) == pattern@),
{
    let s_len: usize = s.len();
    let mut j: usize = 0;
    while j < pattern.len()
        invariant
            j <= pattern@.len(),
            at + pattern@.len() <= s@.len(),
            s@.len() == s_len,
            s@.subrange(at as int, at + j) == pattern@.take(j as int),
        decreases pattern@.len() - j,
    {
        if s[at + j] != pattern[j] {
            assert(s@.subrange(at as int, at + pattern@.len())[j as int] != pattern@[j as int]);
            return false;
        }
        assert(s@.subrange(at as int, at + j + 1) =~= s@.subrange(at as int, at + j).push(
            s@[at + j],
        ));
        assert(pattern@.take(j + 1) =~= pattern@.take(j as int).push(pattern@[j as int]));
        j = j + 1;
    }
    assert(pattern@.take(j as int) =~= pattern@);
    true
}

/// Where `pattern` first occurs in `s`.
pub fn find_in(s: &Vec<char>, pattern: &Vec<char>) -> (at: Option<usize>)
    ensures
        match find(s@, pattern@) {
            Some(k) => at == Some(k as usize),
            None => at is None,
        },
{
    proof {
        lemma_find_from_bounds(s@, pattern@, 0);
    }
    if pattern.len() > s.len() {
        return None;
    }
    let last: usize = s.len() - pattern.len();
    let mut i: usize = 0;
    loop
        invariant
            last + pattern@.len() == s@.len(),
            i <= last,
            find(s@, pattern@) == find_from(s@, pattern@, i as int),
        decreases last - i,
    {
        if matches_at(s, pattern, i) {
            return Some(i);
        }
        if i == last {
            return None;
        }
        i = i + 1;
    }
}

/// `s` without its trailing commas (`trim_end_matches(',')`).
pub open spec fn trim_trailing_commas(s: Seq<char>) -> Seq<char>
    decreases s.len(),
{
    if s.len() > 0 && s.last() == ',' {
        trim_trailing_commas(s.drop_last())
    } else {
        s
    }
}

pub fn trim_commas_at_end(s: &Vec<char>) -> (trimmed: Vec<char>)
    ensures
        trimmed@ == trim_trailing_commas(s@),
{
    let mut end: usize = s.len();
    assert(s@.take(end as int) =~= s@);
    while end > 0 && s[end - 1] == ','
        invariant
            end <= s@.len(),
            trim_trailing_commas(s@) == trim_trailing_commas(s@.take(end as int)),
        decreases end,
    {
        assert(s@.take(end as int).drop_last() =~= s@.take(end - 1));
        end = end - 1;
    }
    let mut trimmed: Vec<char> = Vec::new();
    let mut i: usize = 0;
    while i < end
        invariant
            i <= end <= s@.len(),
            trimmed@ == s@.take(i as int),
        decreases end - i,
    {
        trimmed.push(s[i]);
        assert(s@.take(i + 1) =~= s@.take(i as int).push(s@[i as int]));
        i = i + 1;
    }
    assert(s@.take(end as int) =~= trimmed@);
    trimmed
}

/// `s[from..to]` as a vector.
pub fn slice_of(s: &Vec<char>, from: usize, to: usize) -> (part: Vec<char>)
    requires
        from <= to <= s@.len(),
    ensures
        part@ == s@.subrange(from as int, to as int),
{
    let mut part: Vec<char> = Vec::new();
    let mut i: usize = from;
    while i < to
        invariant
            from <= i <= to <= s@.len(),
            part@ == s@.subrange(from as int, i as int),
        decreases to - i,
    {
        part.push(s[i]);
        assert(s@.subrange(from as int, i + 1) =~= s@.subrange(from as int, i as int).push(
            s@[i as int],
        ));
        i = i + 1;
    }
    part
}

} // verus!
