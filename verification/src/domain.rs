//! Domain lists: a suffix set and a regex list, with the containment test
//! for a queried name.
//!
//! List lines are classified as in the list-file syntax: blank lines and
//! `#` comments are ignored, a `regexp:` prefix tags a regular expression,
//! and leading `full:` markers or dots are stripped before the remainder
//! enters the suffix set.

use vstd::prelude::*;
use crate::bridge::chars_of;
use crate::bridge::regex_match;
use crate::bridge::regex_verdict;
use crate::bridge::string_from_chars;

verus! {

/// Code point of a character, with an ASCII capital folded to lower case.
pub open spec fn lower_code(c: char) -> u32 {
    if 65 <= c as u32 && c as u32 <= 90 {
        (c as u32 + 32) as u32
    } else {
        c as u32
    }
}

/// The name equals the entry once the name's ASCII capitals are folded.
pub open spec fn eq_folded(name: Seq<char>, entry: Seq<char>) -> bool {
    name.len() == entry.len() && forall|i: int|
        0 <= i < name.len() ==> lower_code(#[trigger] name[i]) == entry[i] as u32
}

/// The suffix rule: the folded name equals the entry, or ends with a dot
/// followed by the entry.
pub open spec fn spec_suffix_matches(name: Seq<char>, entry: Seq<char>) -> bool {
    ||| eq_folded(name, entry)
    ||| (name.len() > entry.len() && name[name.len() - entry.len() - 1] == '.' && eq_folded(
        name.skip(name.len() - entry.len()),
        entry,
    ))
}

fn fold_char(c: char) -> (r: u32)
    ensures
        r == lower_code(c),
{
    let cc = c as u32;
    if 65 <= cc && cc <= 90 {
        cc + 32
    } else {
        cc
    }
}

/// Compare the tail of `name` beginning at `off` against `entry`, folding
/// the name's capitals.
fn tail_eq_folded(name: &Vec<char>, off: usize, entry: &Vec<char>) -> (r: bool)
    requires
        off + entry@.len() == name@.len(),
    ensures
        r == eq_folded(name@.skip(off as int), entry@),
{
    let n = name.len();
    let mut i: usize = 0;
    while i < entry.len()
        invariant
            n == name@.len(),
            off + entry@.len() == name@.len(),
            i <= entry@.len(),
            forall|j: int|
                0 <= j < i ==> lower_code(#[trigger] name@[off + j]) == entry@[j] as u32,
        decreases entry@.len() - i,
    {
        if fold_char(name[off + i]) != entry[i] as u32 {
            proof {
                assert(name@.skip(off as int)[i as int] == name@[off + i]);
            }
            return false;
        }
        i += 1;
    }
    proof {
        assert forall|j: int| 0 <= j < entry@.len() implies lower_code(
            #[trigger] name@.skip(off as int)[j],
        ) == entry@[j] as u32 by {
            assert(name@.skip(off as int)[j] == name@[off + j]);
        }
    }
    true
}

/// Whether one suffix entry matches the queried name.
pub fn suffix_entry_matches(name: &Vec<char>, entry: &Vec<char>) -> (r: bool)
    ensures
        r == spec_suffix_matches(name@, entry@),
{
    if name.len() == entry.len() {
        let r = tail_eq_folded(name, 0, entry);
        proof {
            assert(name@.skip(0) =~= name@);
        }
        r
    } else if name.len() > entry.len() {
        let off = name.len() - entry.len();
        if name[off - 1] == '.' {
            tail_eq_folded(name, off, entry)
        } else {
            false
        }
    } else {
        false
    }
}

/// `s` begins with `p`.
pub open spec fn starts_with(s: Seq<char>, p: Seq<char>) -> bool {
    s.len() >= p.len() && forall|i: int| 0 <= i < p.len() ==> s[i] == p[i]
}

/// The `full:` marker.
pub open spec fn full_prefix() -> Seq<char> {
    seq!['f', 'u', 'l', 'l', ':']
}

/// The `regexp:` marker.
pub open spec fn regex_prefix() -> Seq<char> {
    seq!['r', 'e', 'g', 'e', 'x', 'p', ':']
}

/// `full:` markers stripped from the front, repeatedly.
pub open spec fn strip_full(s: Seq<char>) -> Seq<char>
    decreases s.len(),
{
    if starts_with(s, full_prefix()) {
        strip_full(s.skip(5))
    } else {
        s
    }
}

/// `regexp:` markers stripped from the front, repeatedly.
pub open spec fn strip_regex_marker(s: Seq<char>) -> Seq<char>
    decreases s.len(),
{
    if starts_with(s, regex_prefix()) {
        strip_regex_marker(s.skip(7))
    } else {
        s
    }
}

/// Leading dots stripped.
pub open spec fn strip_dots(s: Seq<char>) -> Seq<char>
    decreases s.len(),
{
    if s.len() > 0 && s[0] == '.' {
        strip_dots(s.skip(1))
    } else {
        s
    }
}

/// Blank lines and `#` comments carry no entry.
pub open spec fn line_is_skipped(s: Seq<char>) -> bool {
    s.len() == 0 || s[0] == '#'
}

/// Lines tagged `regexp:` go to the regex list.
pub open spec fn line_is_regex(s: Seq<char>) -> bool {
    !line_is_skipped(s) && starts_with(s, regex_prefix())
}

/// The regex entries of a line list, in order.
pub open spec fn spec_regexes(lines: Seq<Seq<char>>) -> Seq<Seq<char>>
    decreases lines.len(),
{
    if lines.len() == 0 {
        Seq::empty()
    } else {
        let rest = spec_regexes(lines.drop_last());
        if line_is_regex(lines.last()) {
            rest.push(strip_regex_marker(lines.last()))
        } else {
            rest
        }
    }
}

/// The suffix entries of a line list, in order.
pub open spec fn spec_suffixes(lines: Seq<Seq<char>>) -> Seq<Seq<char>>
    decreases lines.len(),
{
    if lines.len() == 0 {
        Seq::empty()
    } else {
        let rest = spec_suffixes(lines.drop_last());
        if !line_is_skipped(lines.last()) && !line_is_regex(lines.last()) {
            rest.push(strip_dots(strip_full(lines.last())))
        } else {
            rest
        }
    }
}

fn full_prefix_vec() -> (v: Vec<char>)
    ensures
        v@ == full_prefix(),
{
    let mut v: Vec<char> = Vec::new();
    v.push('f');
    v.push('u');
    v.push('l');
    v.push('l');
    v.push(':');
    proof {
        assert(v@ =~= full_prefix());
    }
    v
}

fn regex_prefix_vec() -> (v: Vec<char>)
    ensures
        v@ == regex_prefix(),
{
    let mut v: Vec<char> = Vec::new();
    v.push('r');
    v.push('e');
    v.push('g');
    v.push('e');
    v.push('x');
    v.push('p');
    v.push(':');
    proof {
        assert(v@ =~= regex_prefix());
    }
    v
}

/// Whether `s`, from offset `off` on, begins with `p`.
fn has_prefix_at(s: &Vec<char>, off: usize, p: &Vec<char>) -> (r: bool)
    requires
        off <= s@.len(),
    ensures
        r == starts_with(s@.skip(off as int), p@),
{
    let n = s.len();
    if n - off < p.len() {
        return false;
    }
    let mut i: usize = 0;
    while i < p.len()
        invariant
            n == s@.len(),
            off + p@.len() <= s@.len(),
            i <= p@.len(),
            forall|j: int| 0 <= j < i ==> s@[off + j] == p@[j],
        decreases p@.len() - i,
    {
        if s[off + i] != p[i] {
            proof {
                assert(s@.skip(off as int)[i as int] == s@[off + i]);
            }
            return false;
        }
        i += 1;
    }
    proof {
        assert forall|j: int| 0 <= j < p@.len() implies (#[trigger] s@.skip(off as int)[j])
            == p@[j] by {
            assert(s@.skip(off as int)[j] == s@[off + j]);
        }
    }
    true
}

/// Offset after all leading `full:` markers from `off`.
fn strip_full_off(s: &Vec<char>, off: usize, p: &Vec<char>) -> (r: usize)
    requires
        off <= s@.len(),
        p@ == full_prefix(),
    ensures
        off <= r <= s@.len(),
        strip_full(s@.skip(off as int)) == s@.skip(r as int),
    decreases s@.len() - off,
{
    let n = s.len();
    if has_prefix_at(s, off, p) {
        proof {
            assert(s@.skip(off as int).skip(5) =~= s@.skip(off + 5));
        }
        strip_full_off(s, off + 5, p)
    } else {
        off
    }
}

/// Offset after all leading `regexp:` markers from `off`.
fn strip_regex_marker_off(s: &Vec<char>, off: usize, p: &Vec<char>) -> (r: usize)
    requires
        off <= s@.len(),
        p@ == regex_prefix(),
    ensures
        off <= r <= s@.len(),
        strip_regex_marker(s@.skip(off as int)) == s@.skip(r as int),
    decreases s@.len() - off,
{
    let n = s.len();
    if has_prefix_at(s, off, p) {
        proof {
            assert(s@.skip(off as int).skip(7) =~= s@.skip(off + 7));
        }
        strip_regex_marker_off(s, off + 7, p)
    } else {
        off
    }
}

/// Offset after all leading dots from `off`.
fn strip_dots_off(s: &Vec<char>, off: usize) -> (r: usize)
    requires
        off <= s@.len(),
    ensures
        off <= r <= s@.len(),
        strip_dots(s@.skip(off as int)) == s@.skip(r as int),
    decreases s@.len() - off,
{
    if off < s.len() && s[off] == '.' {
        proof {
            assert(s@.skip(off as int)[0] == s@[off as int]);
            assert(s@.skip(off as int).skip(1) =~= s@.skip(off + 1));
        }
        strip_dots_off(s, off + 1)
    } else {
        proof {
            if off < s@.len() {
                assert(s@.skip(off as int)[0] == s@[off as int]);
            }
        }
        off
    }
}

/// A named domain list: regular expressions and a suffix set.
#[derive(Debug)]
pub struct Domains {
    pub regex_set: Vec<String>,
    pub suffix_set: Vec<String>,
}

impl Domains {
    /// A name matches when some suffix entry matches it, or some regex
    /// of the list matches it.
    pub open spec fn spec_matches(self, name: Seq<char>) -> bool {
        ||| exists|i: int|
            0 <= i < self.suffix_set@.len() && spec_suffix_matches(name, self.suffix_set@[i]@)
        ||| exists|i: int|
            0 <= i < self.regex_set@.len() && regex_verdict(self.regex_set@[i]@, name) == Some(true)
    }

    /// Containment test for a queried name.
    pub fn matches(&self, name: &str) -> (r: bool)
        ensures
            r == self.spec_matches(name@),
    {
        let name_chars = chars_of(name);
        let mut i: usize = 0;
        while i < self.suffix_set.len()
            invariant
                name_chars@ == name@,
                i <= self.suffix_set@.len(),
                forall|j: int|
                    0 <= j < i ==> !spec_suffix_matches(name@, (#[trigger] self.suffix_set@[j])@),
            decreases self.suffix_set@.len() - i,
        {
            let entry = chars_of(self.suffix_set[i].as_str());
            if suffix_entry_matches(&name_chars, &entry) {
                return true;
            }
            i += 1;
        }
        let mut i: usize = 0;
        while i < self.regex_set.len()
            invariant
                i <= self.regex_set@.len(),
                forall|j: int|
                    0 <= j < i ==> regex_verdict((#[trigger] self.regex_set@[j])@, name@) != Some(
                        true,
                    ),
                forall|j: int|
                    0 <= j < self.suffix_set@.len() ==> !spec_suffix_matches(
                        name@,
                        (#[trigger] self.suffix_set@[j])@,
                    ),
            decreases self.regex_set@.len() - i,
        {
            let verdict = regex_match(self.regex_set[i].as_str(), name);
            match verdict {
                Some(true) => {
                    return true;
                },
                _ => {},
            }
            i += 1;
        }
        false
    }

    /// Build a domain list from its lines, classifying each line.
    pub fn build(lines: &Vec<String>) -> (r: Domains)
        ensures
            r.regex_set@.len() == spec_regexes(lines.deep_view()).len(),
            r.suffix_set@.len() == spec_suffixes(lines.deep_view()).len(),
            forall|k: int|
                0 <= k < r.regex_set@.len() ==> (#[trigger] r.regex_set@[k])@ == spec_regexes(
                    lines.deep_view(),
                )[k],
            forall|k: int|
                0 <= k < r.suffix_set@.len() ==> (#[trigger] r.suffix_set@[k])@ == spec_suffixes(
                    lines.deep_view(),
                )[k],
    {
        let rp = regex_prefix_vec();
        let fp = full_prefix_vec();
        let mut regex_set: Vec<String> = Vec::new();
        let mut suffix_set: Vec<String> = Vec::new();
        let ghost dv = lines.deep_view();
        let mut i: usize = 0;
        while i < lines.len()
            invariant
                dv == lines.deep_view(),
                dv.len() == lines@.len(),
                forall|k: int| 0 <= k < dv.len() ==> dv[k] == (#[trigger] lines@[k])@,
                rp@ == regex_prefix(),
                fp@ == full_prefix(),
                i <= lines@.len(),
                regex_set@.len() == spec_regexes(dv.take(i as int)).len(),
                suffix_set@.len() == spec_suffixes(dv.take(i as int)).len(),
                forall|k: int|
                    0 <= k < regex_set@.len() ==> (#[trigger] regex_set@[k])@ == spec_regexes(
                        dv.take(i as int),
                    )[k],
                forall|k: int|
                    0 <= k < suffix_set@.len() ==> (#[trigger] suffix_set@[k])@ == spec_suffixes(
                        dv.take(i as int),
                    )[k],
            decreases lines@.len() - i,
        {
            let line = chars_of(lines[i].as_str());
            proof {
                assert(line@ == dv[i as int]);
                assert(dv.take(i + 1).drop_last() =~= dv.take(i as int));
                assert(dv.take(i + 1).last() == dv[i as int]);
                assert(line@.skip(0) =~= line@);
            }
            if line.len() == 0 || line[0] == '#' {
            } else if has_prefix_at(&line, 0, &rp) {
                let off = strip_regex_marker_off(&line, 0, &rp);
                let entry = string_from_chars(&line[off..line.len()]);
                proof {
                    assert(line@.subrange(off as int, line@.len() as int) =~= line@.skip(
                        off as int,
                    ));
                }
                regex_set.push(entry);
            } else {
                let a = strip_full_off(&line, 0, &fp);
                let b = strip_dots_off(&line, a);
                proof {
                    assert(strip_dots(strip_full(line@)) == line@.skip(b as int));
                    assert(line@.subrange(b as int, line@.len() as int) =~= line@.skip(b as int));
                }
                let entry = string_from_chars(&line[b..line.len()]);
                suffix_set.push(entry);
            }
            i += 1;
        }
        proof {
            assert(dv.take(dv.len() as int) =~= dv);
        }
        Domains { regex_set, suffix_set }
    }
}

} // verus!
