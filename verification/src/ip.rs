//! Canonicalized sets of CIDR blocks with containment queries.
//!
//! A range set is loaded by `add`, brought to a canonical disjoint sorted
//! form by `simplify`, and then queried by `contains` in logarithmic time.

use vstd::prelude::*;

verus! {

/// Largest IPv4 address, as an unsigned 128-bit value.
pub const V4_MAX: u128 = 0xffff_ffff;

/// An IP address of either family.
#[derive(Clone, Copy, PartialEq, Eq, Structural, Debug)]
pub enum IpAddress {
    V4(u32),
    V6(u128),
}

/// A CIDR block: an address of one family together with a prefix length.
/// Host bits of `addr` below the prefix are ignored by the range set.
#[derive(Clone, Copy, PartialEq, Eq, Structural, Debug)]
pub struct Cidr {
    pub is_v6: bool,
    pub addr: u128,
    pub prefix: u8,
}

impl Cidr {
    /// The prefix length is bounded by the family's address width, and a
    /// v4 address fits in 32 bits.
    pub open spec fn wf(self) -> bool {
        if self.is_v6 {
            self.prefix <= 128
        } else {
            self.prefix <= 32 && self.addr <= V4_MAX
        }
    }

    /// Number of host bits below the prefix.
    pub open spec fn spec_host_bits(self) -> u128 {
        if self.is_v6 {
            (128 - self.prefix) as u128
        } else {
            (32 - self.prefix) as u128
        }
    }

    /// First address covered by the block.
    pub open spec fn spec_first(self) -> u128 {
        let h = self.spec_host_bits();
        if h >= 128 {
            0
        } else {
            (self.addr >> h) << h
        }
    }

    /// Last address covered by the block.
    pub open spec fn spec_last(self) -> u128 {
        let h = self.spec_host_bits();
        if h >= 128 {
            u128::MAX
        } else {
            self.spec_first() | ((((1u128 << h) - 1) as u128) as u128)
        }
    }
}

proof fn lemma_align(a: u128, h: u128)
    requires
        h < 128,
    ensures
        ((a >> h) << h) <= a,
        ((a >> h) << h) | (((1u128 << h) - 1) as u128) >= a,
        ((a >> h) << h) <= ((a >> h) << h) | (((1u128 << h) - 1) as u128),
{
    assert(h < 128 ==> ((a >> h) << h) <= a && ((a >> h) << h) | (((1u128 << h) - 1) as u128) >= a && ((a
        >> h) << h) <= ((a >> h) << h) | (((1u128 << h) - 1) as u128)) by (bit_vector);
}

proof fn lemma_align_v4(a: u128, h: u128)
    requires
        h <= 32,
        a <= 0xffff_ffff,
    ensures
        h < 128 ==> (((a >> h) << h) | (((1u128 << h) - 1) as u128)) <= 0xffff_ffff,
{
    assert(h <= 32 && a <= 0xffff_ffff ==> (((a >> h) << h) | (((1u128 << h) - 1) as u128))
        <= 0xffff_ffff) by (bit_vector);
}

/// The bounds of a well-formed block are ordered, and stay within the
/// family's address space.
pub proof fn lemma_cidr_bounds(c: Cidr)
    requires
        c.wf(),
    ensures
        c.spec_first() <= c.spec_last(),
        !c.is_v6 ==> c.spec_last() <= V4_MAX,
{
    let h = c.spec_host_bits();
    if h < 128 {
        lemma_align(c.addr, h);
        if !c.is_v6 {
            lemma_align_v4(c.addr, h);
        }
    }
}

/// True when every pair is an ordered interval.
pub open spec fn pairs_wf(s: Seq<(u128, u128)>) -> bool {
    forall|i: int| 0 <= i < s.len() ==> (#[trigger] s[i]).0 <= s[i].1
}

/// True when the intervals are sorted by their start.
pub open spec fn sorted_by_start(s: Seq<(u128, u128)>) -> bool {
    forall|i: int, j: int| 0 <= i < j < s.len() ==> (#[trigger] s[i]).0 <= (#[trigger] s[j]).0
}

/// Canonical form: ordered intervals, sorted, pairwise disjoint and not
/// even adjacent, so that the covered set determines the representation.
pub open spec fn canonical(s: Seq<(u128, u128)>) -> bool {
    &&& pairs_wf(s)
    &&& forall|i: int| 0 <= i < s.len() - 1 ==> (#[trigger] s[i]).1 + 1 < s[i + 1].0
}

/// Whether some interval of `s` covers the address `x`.
pub open spec fn covers(s: Seq<(u128, u128)>, x: u128) -> bool {
    exists|i: int| 0 <= i < s.len() && (#[trigger] s[i]).0 <= x && x <= s[i].1
}

proof fn lemma_canonical_sorted(s: Seq<(u128, u128)>)
    requires
        canonical(s),
    ensures
        sorted_by_start(s),
{
    assert forall|i: int, j: int| 0 <= i < j < s.len() implies (#[trigger] s[i]).0
        <= (#[trigger] s[j]).0 by {
        lemma_canonical_separated(s, i, j);
    }
}

/// In canonical form, an earlier interval ends strictly before a later
/// one starts.
proof fn lemma_canonical_separated(s: Seq<(u128, u128)>, i: int, j: int)
    requires
        canonical(s),
        0 <= i < j < s.len(),
    ensures
        s[i].1 < s[j].0,
    decreases j - i,
{
    if i + 1 == j {
    } else {
        lemma_canonical_separated(s, i, j - 1);
    }
}

/// A set of disjoint address intervals over one family, kept sorted by
/// start while loading and canonical after `simplify`.
#[derive(Debug)]
pub struct RangeSet {
    pub items: Vec<(u128, u128)>,
}

impl RangeSet {
    /// Loading invariant: ordered intervals, sorted by start.
    pub open spec fn loading_wf(self) -> bool {
        pairs_wf(self.items@) && sorted_by_start(self.items@)
    }

    /// Queryable invariant: canonical form.
    pub open spec fn wf(self) -> bool {
        canonical(self.items@)
    }

    pub open spec fn spec_covers(self, x: u128) -> bool {
        covers(self.items@, x)
    }

    pub fn new() -> (r: RangeSet)
        ensures
            r.loading_wf(),
            r.wf(),
            r.items@.len() == 0,
            forall|x: u128| !r.spec_covers(x),
    {
        RangeSet { items: Vec::new() }
    }

    /// Insert the interval `[start, end]`, keeping the list sorted.
    pub fn insert_interval(&mut self, start: u128, end: u128)
        requires
            old(self).loading_wf(),
            start <= end,
        ensures
            final(self).loading_wf(),
            forall|x: u128| final(self).spec_covers(x) <==> (old(self).spec_covers(x) || (start
                <= x && x <= end)),
    {
        let ghost orig = self.items@;
        let mut idx: usize = 0;
        while idx < self.items.len() && self.items[idx].0 < start
            invariant
                idx <= self.items.len(),
                self.items@ == orig,
                forall|j: int| 0 <= j < idx ==> (#[trigger] orig[j]).0 < start,
            decreases self.items.len() - idx,
        {
            idx += 1;
        }
        proof {
            if idx < orig.len() {
                assert(orig[idx as int].0 >= start);
            }
        }
        self.items.insert(idx, (start, end));
        proof {
            let s = self.items@;
            assert(s == orig.insert(idx as int, (start, end)));
            assert forall|x: u128| covers(s, x) implies (covers(orig, x) || (start <= x && x
                <= end)) by {
                let i = choose|i: int| 0 <= i < s.len() && (#[trigger] s[i]).0 <= x && x <= s[i].1;
                if i < idx {
                    assert(orig[i] == s[i]);
                } else if i == idx {
                } else {
                    assert(orig[i - 1] == s[i]);
                }
            }
            assert forall|x: u128| (covers(orig, x) || (start <= x && x <= end)) implies covers(
                s,
                x,
            ) by {
                if start <= x && x <= end {
                    assert(s[idx as int].0 <= x && x <= s[idx as int].1);
                } else {
                    let i = choose|i: int|
                        0 <= i < orig.len() && (#[trigger] orig[i]).0 <= x && x <= orig[i].1;
                    if i < idx {
                        assert(s[i] == orig[i]);
                    } else {
                        assert(s[i + 1] == orig[i]);
                    }
                }
            }
            assert forall|i: int, j: int| 0 <= i < j < s.len() implies (#[trigger] s[i]).0
                <= (#[trigger] s[j]).0 by {
                let a = if i < idx { orig[i].0 } else if i == idx { start } else { orig[i - 1].0 };
                assert(s[i].0 == a);
                let b = if j < idx { orig[j].0 } else if j == idx { start } else { orig[j - 1].0 };
                assert(s[j].0 == b);
                if i < idx && j > idx {
                    assert(orig[i].0 < start);
                    assert(start <= orig[idx as int].0);
                }
                if i == idx {
                    assert(start <= orig[idx as int].0);
                }
            }
        }
    }

    /// Insert every address covered by a CIDR block.
    pub fn add(&mut self, net: Cidr)
        requires
            old(self).loading_wf(),
            net.wf(),
        ensures
            final(self).loading_wf(),
            forall|x: u128| final(self).spec_covers(x) <==> (old(self).spec_covers(x) || (
            net.spec_first() <= x && x <= net.spec_last())),
    {
        let width: u8 = if net.is_v6 {
            128
        } else {
            32
        };
        let h: u128 = (width - net.prefix) as u128;
        if h >= 128 {
            self.insert_interval(0, u128::MAX);
        } else {
            proof {
                assert(h < 128 ==> (1u128 << h) >= 1) by (bit_vector);
                lemma_align(net.addr, h);
            }
            let start: u128 = (net.addr >> h) << h;
            let end: u128 = start | ((1u128 << h) - 1);
            self.insert_interval(start, end);
        }
    }

    /// Coalesce overlapping or adjacent intervals into canonical form.
    /// The covered set of addresses is unchanged.
    #[verifier::rlimit(60)]
    pub fn simplify(&mut self)
        requires
            old(self).loading_wf(),
        ensures
            final(self).wf(),
            final(self).loading_wf(),
            forall|x: u128| final(self).spec_covers(x) <==> old(self).spec_covers(x),
    {
        let ghost orig = self.items@;
        let mut out: Vec<(u128, u128)> = Vec::new();
        let mut i: usize = 0;
        while i < self.items.len()
            invariant
                i <= self.items.len(),
                self.items@ == orig,
                pairs_wf(orig),
                sorted_by_start(orig),
                canonical(out@),
                out@.len() > 0 ==> i > 0,
                forall|x: u128| covers(out@, x) ==> covers(orig, x),
                forall|x: u128| covers(orig.subrange(0, i as int), x) ==> covers(out@, x),
                forall|j: int| i <= j < orig.len() && out@.len() > 0 ==> out@.last().0
                    <= (#[trigger] orig[j]).0,
            decreases self.items.len() - i,
        {
            let ghost out_before = out@;
            let (s, e) = self.items[i];
            let n = out.len();
            if n == 0 {
                out.push((s, e));
            } else {
                let last = out[n - 1];
                if s <= last.1 || s == 0 || s - 1 <= last.1 {
                    // Overlapping or adjacent: extend the last interval.
                    if e > last.1 {
                        out.pop();
                        out.push((last.0, e));
                        proof {
                            assert(out@ == out_before.update(n - 1 as int, (last.0, e)));
                        }
                    }
                }  // else: fully contained in `last`, nothing to do.
                 else {
                    out.push((s, e));
                }
            }
            proof {
                let cur = out@;
                // The step only grows the covered set of the accumulator.
                assert forall|x: u128| covers(out_before, x) implies covers(cur, x) by {
                    let k = choose|k: int|
                        0 <= k < out_before.len() && (#[trigger] out_before[k]).0 <= x && x
                            <= out_before[k].1;
                    assert(cur[k].0 <= x && x <= cur[k].1);
                }
                // The freshly read interval is now covered.
                assert forall|x: u128| s <= x && x <= e implies covers(cur, x) by {
                    let m = cur.len() - 1;
                    assert(cur[m].0 <= x && x <= cur[m].1);
                }
                // Nothing outside the inputs seen so far is covered.
                assert forall|x: u128| covers(cur, x) implies covers(orig, x) by {
                    let k = choose|k: int|
                        0 <= k < cur.len() && (#[trigger] cur[k]).0 <= x && x <= cur[k].1;
                    if k < out_before.len() && cur[k] == out_before[k] {
                        assert(covers(out_before, x));
                    } else {
                        if out_before.len() > 0 && cur.len() == out_before.len() && x
                            <= out_before[k].1 {
                            assert(covers(out_before, x));
                        } else {
                            assert(s <= x && x <= e);
                            assert(orig[i as int].0 <= x && x <= orig[i as int].1);
                        }
                    }
                }
                // Every address of the first i + 1 inputs is covered.
                assert forall|x: u128| covers(orig.subrange(0, i + 1), x) implies covers(
                    cur,
                    x,
                ) by {
                    let sub = orig.subrange(0, i + 1);
                    let k = choose|k: int|
                        0 <= k < sub.len() && (#[trigger] sub[k]).0 <= x && x <= sub[k].1;
                    assert(sub[k] == orig[k]);
                    if k < i {
                        let subi = orig.subrange(0, i as int);
                        assert(subi[k] == orig[k]);
                        assert(covers(subi, x));
                        assert(covers(out_before, x));
                    } else {
                        assert(s <= x && x <= e);
                    }
                }
            }
            i += 1;
        }
        self.items = out;
        proof {
            lemma_canonical_sorted(self.items@);
            assert(orig.subrange(0, orig.len() as int) == orig);
            assert forall|x: u128| covers(orig, x) implies covers(self.items@, x) by {
                assert(covers(orig.subrange(0, orig.len() as int), x));
            }
        }
    }

    /// Containment query by binary search over the canonical intervals.
    pub fn contains(&self, x: u128) -> (r: bool)
        requires
            self.wf(),
        ensures
            r == self.spec_covers(x),
    {
        proof {
            lemma_canonical_sorted(self.items@);
        }
        let mut lo: usize = 0;
        let mut hi: usize = self.items.len();
        while lo < hi
            invariant
                lo <= hi <= self.items@.len(),
                forall|j: int| 0 <= j < lo ==> (#[trigger] self.items@[j]).0 <= x,
                forall|j: int| hi <= j < self.items@.len() ==> (#[trigger] self.items@[j]).0 > x,
                canonical(self.items@),
                sorted_by_start(self.items@),
            decreases hi - lo,
        {
            let mid = lo + (hi - lo) / 2;
            if self.items[mid].0 <= x {
                lo = mid + 1;
            } else {
                hi = mid;
            }
        }
        if lo == 0 {
            proof {
                assert forall|i: int|
                    0 <= i < self.items@.len() implies !((#[trigger] self.items@[i]).0 <= x && x
                    <= self.items@[i].1) by {}
            }
            false
        } else {
            let r = x <= self.items[lo - 1].1;
            proof {
                if !r {
                    assert forall|i: int|
                        0 <= i < self.items@.len() implies !((#[trigger] self.items@[i]).0 <= x && x
                        <= self.items@[i].1) by {
                        if i < lo - 1 {
                            lemma_canonical_separated(self.items@, i, lo - 1);
                            assert(self.items@[i].1 < self.items@[lo - 1].0);
                        }
                    }
                }
            }
            r
        }
    }
}

/// A canonicalized set of CIDRs of both families with longest-prefix
/// containment queries.
#[derive(Debug)]
pub struct IpRange {
    pub v4: RangeSet,
    pub v6: RangeSet,
}

impl IpRange {
    /// Invariant while blocks are being added.
    pub open spec fn loading_wf(self) -> bool {
        self.v4.loading_wf() && self.v6.loading_wf()
    }

    /// Invariant once `simplify` has run: both families canonical.
    pub open spec fn wf(self) -> bool {
        self.v4.wf() && self.v6.wf() && self.loading_wf()
    }

    /// The set of addresses covered, as a predicate.
    pub open spec fn spec_contains(self, ip: IpAddress) -> bool {
        match ip {
            IpAddress::V4(a) => self.v4.spec_covers(a as u128),
            IpAddress::V6(a) => self.v6.spec_covers(a),
        }
    }

    /// The set of addresses a CIDR block covers, as a predicate.
    pub open spec fn cidr_covers(net: Cidr, ip: IpAddress) -> bool {
        match ip {
            IpAddress::V4(a) => !net.is_v6 && net.spec_first() <= a as u128 && a as u128
                <= net.spec_last(),
            IpAddress::V6(a) => net.is_v6 && net.spec_first() <= a && a <= net.spec_last(),
        }
    }

    pub fn new() -> (r: IpRange)
        ensures
            r.loading_wf(),
            r.wf(),
            forall|ip: IpAddress| !r.spec_contains(ip),
    {
        IpRange { v4: RangeSet::new(), v6: RangeSet::new() }
    }

    /// Insert one CIDR block.
    pub fn add(&mut self, net: Cidr)
        requires
            old(self).loading_wf(),
            net.wf(),
        ensures
            final(self).loading_wf(),
            forall|ip: IpAddress| final(self).spec_contains(ip) <==> (old(self).spec_contains(ip)
                || Self::cidr_covers(net, ip)),
    {
        if net.is_v6 {
            self.v6.add(net);
        } else {
            self.v4.add(net);
            proof {
                lemma_cidr_bounds(net);
                assert forall|ip: IpAddress| self.spec_contains(ip) implies (old(
                    self,
                ).spec_contains(ip) || Self::cidr_covers(net, ip)) by {
                    if let IpAddress::V4(a) = ip {
                        assert(a as u128 <= V4_MAX);
                    }
                }
            }
        }
    }

    /// Coalesce both families into canonical form; the covered address
    /// set is unchanged.
    pub fn simplify(&mut self)
        requires
            old(self).loading_wf(),
        ensures
            final(self).wf(),
            forall|ip: IpAddress| final(self).spec_contains(ip) <==> old(self).spec_contains(ip),
    {
        self.v4.simplify();
        self.v6.simplify();
    }

    /// Whether any stored CIDR covers the address.
    pub fn contains(&self, ip: IpAddress) -> (r: bool)
        requires
            self.wf(),
        ensures
            r == self.spec_contains(ip),
    {
        match ip {
            IpAddress::V4(a) => self.v4.contains(a as u128),
            IpAddress::V6(a) => self.v6.contains(a),
        }
    }
}

} // verus!
