//! The request router and the response filter.
//!
//! The router scans the ordered request rules and hands back the upstream
//! names of the first rule that matches the query, deduplicated with
//! order preserved; with no match, the default upstreams. The filter
//! scans the ordered response rules and returns the action of the first
//! rule whose predicates all match; with no match, an answer is accepted.

use vstd::prelude::*;
use crate::config::Config;
use crate::config::RequestRule;
use crate::config::ResponseRule;
use crate::config::RuleAction;
use crate::domain::Domains;
use crate::ip::IpAddress;

verus! {

/// The value of the first pair whose key reads `name`.
pub open spec fn assoc_lookup<T>(s: Seq<(String, T)>, name: Seq<char>) -> Option<T>
    decreases s.len(),
{
    if s.len() == 0 {
        None
    } else if s[0].0@ == name {
        Some(s[0].1)
    } else {
        assoc_lookup(s.skip(1), name)
    }
}

proof fn lemma_assoc_lookup_at<T>(s: Seq<(String, T)>, name: Seq<char>, k: int)
    requires
        0 <= k < s.len(),
        s[k].0@ == name,
        forall|j: int| 0 <= j < k ==> (#[trigger] s[j]).0@ != name,
    ensures
        assoc_lookup(s, name) == Some(s[k].1),
    decreases k,
{
    if k == 0 {
    } else {
        assert(s[0].0@ != name);
        assert forall|j: int| 0 <= j < k - 1 implies (#[trigger] s.skip(1)[j]).0@ != name by {
            assert(s.skip(1)[j] == s[j + 1]);
        }
        assert(s.skip(1)[k - 1] == s[k]);
        lemma_assoc_lookup_at(s.skip(1), name, k - 1);
    }
}

proof fn lemma_assoc_lookup_none<T>(s: Seq<(String, T)>, name: Seq<char>)
    requires
        forall|j: int| 0 <= j < s.len() ==> (#[trigger] s[j]).0@ != name,
    ensures
        assoc_lookup(s, name) is None,
    decreases s.len(),
{
    if s.len() > 0 {
        assert forall|j: int| 0 <= j < s.skip(1).len() implies (#[trigger] s.skip(1)[j]).0@
            != name by {
            assert(s.skip(1)[j] == s[j + 1]);
        }
        lemma_assoc_lookup_none(s.skip(1), name);
    }
}

/// Find the value under a name in an association list.
pub(crate) fn assoc_get<'a, T>(s: &'a Vec<(String, T)>, name: &String) -> (r: Option<&'a T>)
    ensures
        match r {
            Some(v) => assoc_lookup(s@, name@) == Some(*v) && exists|k: int|
                0 <= k < s@.len() && (#[trigger] s@[k]).1 == *v,
            None => assoc_lookup(s@, name@) is None,
        },
{
    let mut i: usize = 0;
    while i < s.len()
        invariant
            i <= s@.len(),
            forall|j: int| 0 <= j < i ==> (#[trigger] s@[j]).0@ != name@,
        decreases s@.len() - i,
    {
        if s[i].0.eq(name) {
            proof {
                lemma_assoc_lookup_at(s@, name@, i as int);
            }
            return Some(&s[i].1);
        }
        i += 1;
    }
    proof {
        lemma_assoc_lookup_none(s@, name@);
    }
    None
}

/// Whether any named domain list matches the queried name.
pub open spec fn spec_sets_match(cfg: Config, sets: Seq<String>, qname: Seq<char>) -> bool {
    exists|i: int|
        0 <= i < sets.len() && match assoc_lookup(cfg.domains@, (#[trigger] sets[i])@) {
            Some(d) => d.spec_matches(qname),
            None => false,
        }
}

fn sets_match(cfg: &Config, sets: &Vec<String>, qname: &str) -> (r: bool)
    ensures
        r == spec_sets_match(*cfg, sets@, qname@),
{
    let mut i: usize = 0;
    while i < sets.len()
        invariant
            i <= sets@.len(),
            forall|j: int|
                0 <= j < i ==> match assoc_lookup(cfg.domains@, (#[trigger] sets@[j])@) {
                    Some(d) => !d.spec_matches(qname@),
                    None => true,
                },
        decreases sets@.len() - i,
    {
        match assoc_get(&cfg.domains, &sets[i]) {
            Some(d) => {
                if d.matches(qname) {
                    return true;
                }
            },
            None => {},
        }
        i += 1;
    }
    false
}

/// Whether a request rule matches the query: its domain lists (absent is
/// a wildcard) and its record types (absent is a wildcard).
pub open spec fn spec_rule_matches(
    cfg: Config,
    rule: RequestRule,
    qname: Seq<char>,
    qtype: u16,
) -> bool {
    &&& match rule.domains {
        Some(sets) => spec_sets_match(cfg, sets@, qname),
        None => true,
    }
    &&& match rule.types {
        Some(ts) => ts@.contains(qtype),
        None => true,
    }
}

fn types_contain(ts: &Vec<u16>, qtype: u16) -> (r: bool)
    ensures
        r == ts@.contains(qtype),
{
    let mut i: usize = 0;
    while i < ts.len()
        invariant
            i <= ts@.len(),
            forall|j: int| 0 <= j < i ==> (#[trigger] ts@[j]) != qtype,
        decreases ts@.len() - i,
    {
        if ts[i] == qtype {
            proof {
                assert(ts@[i as int] == qtype);
            }
            return true;
        }
        i += 1;
    }
    proof {
        if ts@.contains(qtype) {
            let k = choose|k: int| 0 <= k < ts@.len() && ts@[k] == qtype;
            assert(false);
        }
    }
    false
}

fn rule_matches(cfg: &Config, rule: &RequestRule, qname: &str, qtype: u16) -> (r: bool)
    ensures
        r == spec_rule_matches(*cfg, *rule, qname@, qtype),
{
    let domains_ok = match &rule.domains {
        Some(sets) => sets_match(cfg, sets, qname),
        None => true,
    };
    let types_ok = match &rule.types {
        Some(ts) => types_contain(ts, qtype),
        None => true,
    };
    domains_ok && types_ok
}

/// Upstream names with duplicates removed, first occurrence kept.
pub open spec fn spec_dedup(s: Seq<String>) -> Seq<Seq<char>>
    decreases s.len(),
{
    if s.len() == 0 {
        Seq::empty()
    } else {
        let rest = spec_dedup(s.drop_last());
        if rest.contains(s.last()@) {
            rest
        } else {
            rest.push(s.last()@)
        }
    }
}

fn dedup_names(s: &Vec<String>) -> (r: Vec<String>)
    ensures
        r.deep_view() == spec_dedup(s@),
{
    let mut out: Vec<String> = Vec::new();
    let mut i: usize = 0;
    while i < s.len()
        invariant
            i <= s@.len(),
            out.deep_view() == spec_dedup(s@.take(i as int)),
        decreases s@.len() - i,
    {
        proof {
            assert(s@.take(i + 1).drop_last() =~= s@.take(i as int));
            assert(s@.take(i + 1).last() == s@[i as int]);
        }
        let ghost dv0 = out.deep_view();
        let mut seen = false;
        let mut j: usize = 0;
        while j < out.len() && !seen
            invariant
                i < s@.len(),
                j <= out@.len(),
                dv0 == out.deep_view(),
                dv0.len() == out@.len(),
                forall|k: int| 0 <= k < dv0.len() ==> dv0[k] == (#[trigger] out@[k])@,
                seen ==> exists|k: int|
                    0 <= k < out@.len() && (#[trigger] out@[k])@ == s@[i as int]@,
                !seen ==> forall|k: int| 0 <= k < j ==> (#[trigger] out@[k])@ != s@[i as int]@,
            decreases out@.len() - j, (if seen { 0int } else { 1int }),
        {
            if out[j].eq(&s[i]) {
                proof {
                    assert(out@[j as int]@ == s@[i as int]@);
                }
                seen = true;
            } else {
                j += 1;
            }
        }
        proof {
            if seen {
                let k = choose|k: int| 0 <= k < out@.len() && (#[trigger] out@[k])@ == s@[i as int]@;
                assert(dv0[k] == s@[i as int]@);
                assert(dv0.contains(s@[i as int]@));
            } else {
                if dv0.contains(s@[i as int]@) {
                    let k = choose|k: int| 0 <= k < dv0.len() && dv0[k] == s@[i as int]@;
                    assert(out@[k]@ == s@[i as int]@);
                    assert(false);
                }
            }
        }
        if !seen {
            out.push(s[i].clone());
            proof {
                assert(out.deep_view() =~= dv0.push(s@[i as int]@));
            }
        }
        i += 1;
    }
    proof {
        assert(s@.take(s@.len() as int) =~= s@);
    }
    out
}

/// The router: the upstream names of the first matching request rule,
/// deduplicated in order; with no match, the default upstreams.
pub open spec fn spec_select_from(
    cfg: Config,
    rules: Seq<RequestRule>,
    qname: Seq<char>,
    qtype: u16,
) -> Seq<Seq<char>>
    decreases rules.len(),
{
    if rules.len() == 0 {
        cfg.default_upstreams.deep_view()
    } else if spec_rule_matches(cfg, rules[0], qname, qtype) {
        spec_dedup(rules[0].upstreams@)
    } else {
        spec_select_from(cfg, rules.skip(1), qname, qtype)
    }
}

/// What the router returns for a query, as a function of the
/// configuration, the queried name and the record type alone.
pub open spec fn spec_select(cfg: Config, qname: Seq<char>, qtype: u16) -> Seq<Seq<char>> {
    spec_select_from(cfg, cfg.request_rules@, qname, qtype)
}

proof fn lemma_select_at(
    cfg: Config,
    rules: Seq<RequestRule>,
    qname: Seq<char>,
    qtype: u16,
    k: int,
)
    requires
        0 <= k < rules.len(),
        spec_rule_matches(cfg, rules[k], qname, qtype),
        forall|j: int| 0 <= j < k ==> !spec_rule_matches(cfg, #[trigger] rules[j], qname, qtype),
    ensures
        spec_select_from(cfg, rules, qname, qtype) == spec_dedup(rules[k].upstreams@),
    decreases k,
{
    if k == 0 {
    } else {
        assert(!spec_rule_matches(cfg, rules[0], qname, qtype));
        assert forall|j: int| 0 <= j < k - 1 implies !spec_rule_matches(
            cfg,
            #[trigger] rules.skip(1)[j],
            qname,
            qtype,
        ) by {
            assert(rules.skip(1)[j] == rules[j + 1]);
        }
        assert(rules.skip(1)[k - 1] == rules[k]);
        lemma_select_at(cfg, rules.skip(1), qname, qtype, k - 1);
    }
}

/// Default fallback: when no request rule matches a query, the router
/// returns exactly the default upstreams.
pub proof fn lemma_select_default(cfg: Config, rules: Seq<RequestRule>, qname: Seq<char>, qtype: u16)
    requires
        forall|j: int|
            0 <= j < rules.len() ==> !spec_rule_matches(cfg, #[trigger] rules[j], qname, qtype),
    ensures
        spec_select_from(cfg, rules, qname, qtype) == cfg.default_upstreams.deep_view(),
    decreases rules.len(),
{
    if rules.len() > 0 {
        assert forall|j: int| 0 <= j < rules.skip(1).len() implies !spec_rule_matches(
            cfg,
            #[trigger] rules.skip(1)[j],
            qname,
            qtype,
        ) by {
            assert(rules.skip(1)[j] == rules[j + 1]);
        }
        lemma_select_default(cfg, rules.skip(1), qname, qtype);
    }
}

/// Router determinism: for a fixed configuration, what the router
/// returns is a function of the queried name and record type alone.
pub proof fn lemma_select_deterministic(
    cfg: Config,
    qname1: Seq<char>,
    qtype1: u16,
    qname2: Seq<char>,
    qtype2: u16,
)
    requires
        qname1 == qname2,
        qtype1 == qtype2,
    ensures
        spec_select(cfg, qname1, qtype1) == spec_select(cfg, qname2, qtype2),
{
}

/// The ordered upstream names to contact for a query.
pub fn resolvers(config: &Config, qname: &str, qtype: u16) -> (r: Vec<String>)
    ensures
        r.deep_view() == spec_select(*config, qname@, qtype),
{
    let rules = &config.request_rules;
    let mut i: usize = 0;
    while i < rules.len()
        invariant
            rules == config.request_rules,
            i <= rules@.len(),
            forall|j: int|
                0 <= j < i ==> !spec_rule_matches(*config, #[trigger] rules@[j], qname@, qtype),
        decreases rules@.len() - i,
    {
        if rule_matches(config, &rules[i], qname, qtype) {
            proof {
                lemma_select_at(*config, rules@, qname@, qtype, i as int);
            }
            return dedup_names(&rules[i].upstreams);
        }
        i += 1;
    }
    proof {
        lemma_select_default(*config, rules@, qname@, qtype);
    }
    crate::config::clone_strings(&config.default_upstreams)
}

/// Whether the upstream name stands in the list.
pub open spec fn str_seq_contains(us: Seq<String>, name: Seq<char>) -> bool {
    exists|i: int| 0 <= i < us.len() && (#[trigger] us[i])@ == name
}

fn names_contain(us: &Vec<String>, name: &String) -> (r: bool)
    ensures
        r == str_seq_contains(us@, name@),
{
    let mut i: usize = 0;
    while i < us.len()
        invariant
            i <= us@.len(),
            forall|j: int| 0 <= j < i ==> (#[trigger] us@[j])@ != name@,
        decreases us@.len() - i,
    {
        if us[i].eq(name) {
            return true;
        }
        i += 1;
    }
    false
}

/// Whether any answered address lies in any of the named ranges.
pub open spec fn spec_answer_in_ranges(
    cfg: Config,
    ranges: Seq<String>,
    ips: Seq<IpAddress>,
) -> bool {
    exists|i: int, j: int|
        0 <= i < ranges.len() && 0 <= j < ips.len() && match assoc_lookup(
            cfg.ranges@,
            (#[trigger] ranges[i])@,
        ) {
            Some(rg) => rg.spec_contains(#[trigger] ips[j]),
            None => false,
        }
}

fn answer_in_ranges(cfg: &Config, ranges: &Vec<String>, ips: &Vec<IpAddress>) -> (r: bool)
    requires
        cfg.wf(),
    ensures
        r == spec_answer_in_ranges(*cfg, ranges@, ips@),
{
    let mut i: usize = 0;
    while i < ranges.len()
        invariant
            cfg.wf(),
            i <= ranges@.len(),
            forall|j2: int, k: int|
                0 <= j2 < i && 0 <= k < ips@.len() ==> match assoc_lookup(
                    cfg.ranges@,
                    (#[trigger] ranges@[j2])@,
                ) {
                    Some(rg) => !rg.spec_contains(#[trigger] ips@[k]),
                    None => true,
                },
        decreases ranges@.len() - i,
    {
        match assoc_get(&cfg.ranges, &ranges[i]) {
            Some(rg) => {
                proof {
                    let k = choose|k: int|
                        0 <= k < cfg.ranges@.len() && (#[trigger] cfg.ranges@[k]).1 == *rg;
                    assert(cfg.ranges@[k].1.wf());
                }
                let mut j: usize = 0;
                while j < ips.len()
                    invariant
                        rg.wf(),
                        assoc_lookup(cfg.ranges@, ranges@[i as int]@) == Some(*rg),
                        i < ranges@.len(),
                        j <= ips@.len(),
                        forall|k: int| 0 <= k < j ==> !rg.spec_contains(#[trigger] ips@[k]),
                    decreases ips@.len() - j,
                {
                    if rg.contains(ips[j]) {
                        return true;
                    }
                    j += 1;
                }
            },
            None => {},
        }
        i += 1;
    }
    false
}

/// Whether a response rule matches: upstream name, answered addresses
/// and queried domain, each a wildcard when absent.
pub open spec fn spec_resp_rule_matches(
    cfg: Config,
    rule: ResponseRule,
    upstream: Seq<char>,
    qname: Seq<char>,
    ips: Seq<IpAddress>,
) -> bool {
    &&& match rule.upstreams {
        Some(us) => str_seq_contains(us@, upstream),
        None => true,
    }
    &&& match rule.ranges {
        Some(rs) => spec_answer_in_ranges(cfg, rs@, ips),
        None => true,
    }
    &&& match rule.domains {
        Some(ds) => spec_sets_match(cfg, ds@, qname),
        None => true,
    }
}

fn resp_rule_matches(
    cfg: &Config,
    rule: &ResponseRule,
    upstream: &String,
    qname: &str,
    ips: &Vec<IpAddress>,
) -> (r: bool)
    requires
        cfg.wf(),
    ensures
        r == spec_resp_rule_matches(*cfg, *rule, upstream@, qname@, ips@),
{
    let ups_ok = match &rule.upstreams {
        Some(us) => names_contain(us, upstream),
        None => true,
    };
    if !ups_ok {
        return false;
    }
    let ranges_ok = match &rule.ranges {
        Some(rs) => answer_in_ranges(cfg, rs, ips),
        None => true,
    };
    if !ranges_ok {
        return false;
    }
    match &rule.domains {
        Some(ds) => sets_match(cfg, ds, qname),
        None => true,
    }
}

/// The filter: the action of the first matching response rule; with no
/// match, `Accept`.
pub open spec fn spec_check_from(
    cfg: Config,
    rules: Seq<ResponseRule>,
    upstream: Seq<char>,
    qname: Seq<char>,
    ips: Seq<IpAddress>,
) -> RuleAction
    decreases rules.len(),
{
    if rules.len() == 0 {
        RuleAction::Accept
    } else if spec_resp_rule_matches(cfg, rules[0], upstream, qname, ips) {
        rules[0].action
    } else {
        spec_check_from(cfg, rules.skip(1), upstream, qname, ips)
    }
}

/// What the filter answers for one upstream's answer, as a function of
/// the configuration, the answering upstream, the queried name and the
/// answered addresses alone.
pub open spec fn spec_check_response(
    cfg: Config,
    upstream: Seq<char>,
    qname: Seq<char>,
    ips: Seq<IpAddress>,
) -> RuleAction {
    spec_check_from(cfg, cfg.response_rules@, upstream, qname, ips)
}

proof fn lemma_check_at(
    cfg: Config,
    rules: Seq<ResponseRule>,
    upstream: Seq<char>,
    qname: Seq<char>,
    ips: Seq<IpAddress>,
    k: int,
)
    requires
        0 <= k < rules.len(),
        spec_resp_rule_matches(cfg, rules[k], upstream, qname, ips),
        forall|j: int|
            0 <= j < k ==> !spec_resp_rule_matches(cfg, #[trigger] rules[j], upstream, qname, ips),
    ensures
        spec_check_from(cfg, rules, upstream, qname, ips) == rules[k].action,
    decreases k,
{
    if k == 0 {
    } else {
        assert forall|j: int| 0 <= j < k - 1 implies !spec_resp_rule_matches(
            cfg,
            #[trigger] rules.skip(1)[j],
            upstream,
            qname,
            ips,
        ) by {
            assert(rules.skip(1)[j] == rules[j + 1]);
        }
        assert(rules.skip(1)[k - 1] == rules[k]);
        lemma_check_at(cfg, rules.skip(1), upstream, qname, ips, k - 1);
    }
}

proof fn lemma_check_none(
    cfg: Config,
    rules: Seq<ResponseRule>,
    upstream: Seq<char>,
    qname: Seq<char>,
    ips: Seq<IpAddress>,
)
    requires
        forall|j: int|
            0 <= j < rules.len() ==> !spec_resp_rule_matches(
                cfg,
                #[trigger] rules[j],
                upstream,
                qname,
                ips,
            ),
    ensures
        spec_check_from(cfg, rules, upstream, qname, ips) == RuleAction::Accept,
    decreases rules.len(),
{
    if rules.len() > 0 {
        assert forall|j: int| 0 <= j < rules.skip(1).len() implies !spec_resp_rule_matches(
            cfg,
            #[trigger] rules.skip(1)[j],
            upstream,
            qname,
            ips,
        ) by {
            assert(rules.skip(1)[j] == rules[j + 1]);
        }
        lemma_check_none(cfg, rules.skip(1), upstream, qname, ips);
    }
}

/// Filter default-accept: with no response rules, every answer is
/// accepted.
pub proof fn lemma_empty_rules_accept(
    cfg: Config,
    upstream: Seq<char>,
    qname: Seq<char>,
    ips: Seq<IpAddress>,
)
    requires
        cfg.response_rules@.len() == 0,
    ensures
        spec_check_response(cfg, upstream, qname, ips) == RuleAction::Accept,
{
}

/// Evaluate the response rules against one upstream's answer.
pub fn check_response(
    config: &Config,
    upstream: &String,
    qname: &str,
    ips: &Vec<IpAddress>,
) -> (r: RuleAction)
    requires
        config.wf(),
    ensures
        r == spec_check_response(*config, upstream@, qname@, ips@),
{
    let rules = &config.response_rules;
    let mut i: usize = 0;
    while i < rules.len()
        invariant
            config.wf(),
            rules == config.response_rules,
            i <= rules@.len(),
            forall|j: int|
                0 <= j < i ==> !spec_resp_rule_matches(
                    *config,
                    #[trigger] rules@[j],
                    upstream@,
                    qname@,
                    ips@,
                ),
        decreases rules@.len() - i,
    {
        if resp_rule_matches(config, &rules[i], upstream, qname, ips) {
            proof {
                lemma_check_at(*config, rules@, upstream@, qname@, ips@, i as int);
            }
            return rules[i].action;
        }
        i += 1;
    }
    proof {
        lemma_check_none(*config, rules@, upstream@, qname@, ips@);
    }
    RuleAction::Accept
}

} // verus!
