//! Small verified text helpers: ASCII whitespace trimming, decimal port
//! parsing, and character search, shared by the configuration builder.

use vstd::prelude::*;
use crate::bridge::chars_of;
use crate::bridge::string_from_chars;

verus! {

/// ASCII whitespace, as it occurs in configuration lines.
pub open spec fn is_ws(c: char) -> bool {
    c == ' ' || c == '\t' || c == '\r' || c == '\n'
}

/// Leading whitespace removed.
pub open spec fn trim_front(s: Seq<char>) -> Seq<char>
    decreases s.len(),
{
    if s.len() > 0 && is_ws(s[0]) {
        trim_front(s.skip(1))
    } else {
        s
    }
}

/// Trailing whitespace removed.
pub open spec fn trim_back(s: Seq<char>) -> Seq<char>
    decreases s.len(),
{
    if s.len() > 0 && is_ws(s.last()) {
        trim_back(s.drop_last())
    } else {
        s
    }
}

/// Whitespace removed from both ends.
pub open spec fn trim(s: Seq<char>) -> Seq<char> {
    trim_back(trim_front(s))
}

fn ws_char(c: char) -> (r: bool)
    ensures
        r == is_ws(c),
{
    c == ' ' || c == '\t' || c == '\r' || c == '\n'
}

/// Offset of the first non-whitespace character at or after `off`.
fn trim_front_off(s: &Vec<char>, off: usize) -> (r: usize)
    requires
        off <= s@.len(),
    ensures
        off <= r <= s@.len(),
        trim_front(s@.skip(off as int)) == s@.skip(r as int),
    decreases s@.len() - off,
{
    let n = s.len();
    if off < n && ws_char(s[off]) {
        proof {
            assert(s@.skip(off as int)[0] == s@[off as int]);
            assert(s@.skip(off as int).skip(1) =~= s@.skip(off + 1));
        }
        trim_front_off(s, off + 1)
    } else {
        proof {
            if off < s@.len() {
                assert(s@.skip(off as int)[0] == s@[off as int]);
            }
        }
        off
    }
}

/// End offset after trailing whitespace of `s[from..end]` is removed.
fn trim_back_off(s: &Vec<char>, from: usize, end: usize) -> (r: usize)
    requires
        from <= end <= s@.len(),
    ensures
        from <= r <= end,
        trim_back(s@.subrange(from as int, end as int)) == s@.subrange(from as int, r as int),
    decreases end,
{
    if end > from && ws_char(s[end - 1]) {
        proof {
            let sub = s@.subrange(from as int, end as int);
            assert(sub.last() == s@[end - 1]);
            assert(sub.drop_last() =~= s@.subrange(from as int, end - 1));
        }
        trim_back_off(s, from, end - 1)
    } else {
        proof {
            let sub = s@.subrange(from as int, end as int);
            if end > from {
                assert(sub.last() == s@[end - 1]);
            }
        }
        end
    }
}

/// The trimmed bounds `(a, b)` of `s`: `s[a..b]` is `trim(s@)`.
pub(crate) fn trim_bounds(s: &Vec<char>) -> (r: (usize, usize))
    ensures
        r.0 <= r.1 <= s@.len(),
        s@.subrange(r.0 as int, r.1 as int) == trim(s@),
{
    let a = trim_front_off(s, 0);
    proof {
        assert(s@.skip(0) =~= s@);
        assert(s@.skip(a as int) =~= s@.subrange(a as int, s@.len() as int));
    }
    let b = trim_back_off(s, a, s.len());
    (a, b)
}

/// A new string holding `s[a..b]`.
pub(crate) fn string_of_range(s: &Vec<char>, a: usize, b: usize) -> (r: String)
    requires
        a <= b <= s@.len(),
    ensures
        r@ == s@.subrange(a as int, b as int),
{
    string_from_chars(&s[a..b])
}

/// One line with its surrounding whitespace removed.
pub(crate) fn trim_string(s: &str) -> (r: String)
    ensures
        r@ == trim(s@),
{
    let cs = chars_of(s);
    let (a, b) = trim_bounds(&cs);
    string_of_range(&cs, a, b)
}

/// Every line trimmed.
pub(crate) fn trimmed_lines(ls: &Vec<String>) -> (r: Vec<String>)
    ensures
        r@.len() == ls@.len(),
        forall|i: int| 0 <= i < ls@.len() ==> (#[trigger] r@[i])@ == trim(ls@[i]@),
{
    let mut out: Vec<String> = Vec::new();
    let mut i: usize = 0;
    while i < ls.len()
        invariant
            i <= ls@.len(),
            out@.len() == i,
            forall|j: int| 0 <= j < i ==> (#[trigger] out@[j])@ == trim(ls@[j]@),
        decreases ls@.len() - i,
    {
        out.push(trim_string(ls[i].as_str()));
        i += 1;
    }
    out
}

/// An ASCII lowercase letter.
pub open spec fn is_ascii_lower(c: char) -> bool {
    97 <= c as u32 && c as u32 <= 122
}

/// No character of the string is an ASCII lowercase letter.
pub open spec fn no_ascii_lower(s: Seq<char>) -> bool {
    forall|i: int| 0 <= i < s.len() ==> !is_ascii_lower(#[trigger] s[i])
}

/// Whether the string holds an ASCII lowercase letter.
pub(crate) fn has_ascii_lower(s: &str) -> (r: bool)
    ensures
        r == !no_ascii_lower(s@),
{
    let cs = chars_of(s);
    let mut i: usize = 0;
    while i < cs.len()
        invariant
            cs@ == s@,
            i <= cs@.len(),
            forall|j: int| 0 <= j < i ==> !is_ascii_lower(#[trigger] cs@[j]),
        decreases cs@.len() - i,
    {
        let c = cs[i] as u32;
        if 97 <= c && c <= 122 {
            proof {
                assert(is_ascii_lower(cs@[i as int]));
            }
            return true;
        }
        i += 1;
    }
    false
}

/// A decimal digit.
pub open spec fn is_digit(c: char) -> bool {
    48 <= c as u32 && c as u32 <= 57
}

/// Non-empty and made of digits alone.
pub open spec fn all_digits(s: Seq<char>) -> bool {
    s.len() > 0 && forall|i: int| 0 <= i < s.len() ==> is_digit(#[trigger] s[i])
}

/// The number the digits denote.
pub open spec fn digits_value(s: Seq<char>) -> int
    decreases s.len(),
{
    if s.len() == 0 {
        0
    } else {
        digits_value(s.drop_last()) * 10 + (s.last() as u32 - 48)
    }
}

proof fn lemma_digits_value_nonneg(s: Seq<char>)
    requires
        forall|i: int| 0 <= i < s.len() ==> is_digit(#[trigger] s[i]),
    ensures
        digits_value(s) >= 0,
    decreases s.len(),
{
    if s.len() > 0 {
        lemma_digits_value_nonneg(s.drop_last());
    }
}

/// A port number: digits denoting a value up to 65535.
pub open spec fn spec_parse_port(s: Seq<char>) -> Option<u16> {
    if all_digits(s) && digits_value(s) <= 65535 {
        Some(digits_value(s) as u16)
    } else {
        None
    }
}

/// Parse the digits of `s[start..]` as a port number.
pub(crate) fn parse_port_chars(s: &Vec<char>, start: usize) -> (r: Option<u16>)
    requires
        start <= s@.len(),
    ensures
        r == spec_parse_port(s@.skip(start as int)),
{
    let ghost tail = s@.skip(start as int);
    let n = s.len();
    if start == n {
        return None;
    }
    let mut acc: u32 = 0;
    let mut over = false;
    let mut i: usize = start;
    while i < n
        invariant
            n == s@.len(),
            start <= i <= n,
            start < n,
            tail == s@.skip(start as int),
            forall|j: int| 0 <= j < i - start ==> is_digit(#[trigger] tail[j]),
            !over ==> acc == digits_value(tail.take(i - start)) && acc <= 65535,
            over ==> digits_value(tail.take(i - start)) > 65535,
        decreases n - i,
    {
        let c = s[i];
        let cc = c as u32;
        proof {
            assert(tail[i - start] == s@[i as int]);
            assert(tail.take(i - start + 1).drop_last() =~= tail.take(i - start));
            assert(tail.take(i - start + 1).last() == tail[i - start]);
        }
        if cc < 48 || cc > 57 {
            return None;
        }
        let d = cc - 48;
        proof {
            lemma_digits_value_nonneg(tail.take(i - start));
        }
        if over || acc > 6553 || (acc == 6553 && d > 5) {
            proof {
                if !over {
                    assert(digits_value(tail.take(i - start + 1)) > 65535);
                }
            }
            over = true;
        } else {
            acc = acc * 10 + d;
        }
        i += 1;
    }
    proof {
        assert(tail.take(n - start) =~= tail);
        lemma_digits_value_nonneg(tail);
    }
    if over {
        None
    } else {
        Some(acc as u16)
    }
}

/// Index of the first occurrence of `c` in `s`.
pub open spec fn find_char(s: Seq<char>, c: char) -> Option<int>
    decreases s.len(),
{
    if s.len() == 0 {
        None
    } else if s[0] == c {
        Some(0)
    } else {
        match find_char(s.skip(1), c) {
            Some(i) => Some(i + 1),
            None => None,
        }
    }
}

/// Number of occurrences of `c` in `s`.
pub open spec fn count_char(s: Seq<char>, c: char) -> int
    decreases s.len(),
{
    if s.len() == 0 {
        0
    } else {
        count_char(s.drop_last(), c) + if s.last() == c {
            1int
        } else {
            0int
        }
    }
}

pub proof fn lemma_find_char_at(s: Seq<char>, c: char, k: int)
    requires
        0 <= k < s.len(),
        s[k] == c,
        forall|j: int| 0 <= j < k ==> s[j] != c,
    ensures
        find_char(s, c) == Some(k),
    decreases k,
{
    if k == 0 {
    } else {
        assert forall|j: int| 0 <= j < k - 1 implies s.skip(1)[j] != c by {
            assert(s.skip(1)[j] == s[j + 1]);
        }
        assert(s.skip(1)[k - 1] == s[k]);
        lemma_find_char_at(s.skip(1), c, k - 1);
    }
}

pub proof fn lemma_find_char_none(s: Seq<char>, c: char)
    requires
        forall|j: int| 0 <= j < s.len() ==> s[j] != c,
    ensures
        find_char(s, c) is None,
    decreases s.len(),
{
    if s.len() > 0 {
        assert forall|j: int| 0 <= j < s.skip(1).len() implies s.skip(1)[j] != c by {
            assert(s.skip(1)[j] == s[j + 1]);
        }
        lemma_find_char_none(s.skip(1), c);
    }
}

} // verus!
