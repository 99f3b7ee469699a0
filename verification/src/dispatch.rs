//! The dispatcher's receive-and-decide core.
//!
//! The surrounding runtime fans a query out to the selected upstreams,
//! each under a one-second timeout, and collects one event per upstream
//! in arrival order: an answer, or a marker for a timeout or error. The
//! decision over that arrival-ordered event list is pure and stands
//! here: the first event whose answer the response filter accepts wins;
//! events after the winner are discarded unread.

use vstd::prelude::*;
use crate::config::Config;
use crate::config::RuleAction;
use crate::filter::check_response;
use crate::filter::spec_check_response;
use crate::ip::IpAddress;

verus! {

/// What one upstream's resolve attempt came to: an answer with the
/// answering upstream's name and its address records, or a failure
/// marker (timeout, transport error, or refusal).
pub enum UpstreamEvent {
    Failed,
    Answered { name: String, ips: Vec<IpAddress> },
}

/// Whether the response filter accepts an event's answer. A failure
/// marker is never accepted.
pub open spec fn spec_event_accepted(cfg: Config, qname: Seq<char>, e: UpstreamEvent) -> bool {
    match e {
        UpstreamEvent::Failed => false,
        UpstreamEvent::Answered { name, ips } => spec_check_response(cfg, name@, qname, ips@)
            == RuleAction::Accept,
    }
}

/// The index of the first accepted event in arrival order, if any.
pub open spec fn spec_first_accepted(cfg: Config, qname: Seq<char>, events: Seq<UpstreamEvent>) -> Option<int>
    decreases events.len(),
{
    if events.len() == 0 {
        None
    } else if spec_event_accepted(cfg, qname, events[0]) {
        Some(0)
    } else {
        match spec_first_accepted(cfg, qname, events.skip(1)) {
            Some(i) => Some(i + 1),
            None => None,
        }
    }
}

proof fn lemma_first_accepted_at(cfg: Config, qname: Seq<char>, events: Seq<UpstreamEvent>, k: int)
    requires
        0 <= k < events.len(),
        spec_event_accepted(cfg, qname, events[k]),
        forall|j: int| 0 <= j < k ==> !spec_event_accepted(cfg, qname, #[trigger] events[j]),
    ensures
        spec_first_accepted(cfg, qname, events) == Some(k),
    decreases k,
{
    if k == 0 {
    } else {
        assert forall|j: int| 0 <= j < k - 1 implies !spec_event_accepted(
            cfg,
            qname,
            #[trigger] events.skip(1)[j],
        ) by {
            assert(events.skip(1)[j] == events[j + 1]);
        }
        assert(events.skip(1)[k - 1] == events[k]);
        lemma_first_accepted_at(cfg, qname, events.skip(1), k - 1);
    }
}

proof fn lemma_first_accepted_none(cfg: Config, qname: Seq<char>, events: Seq<UpstreamEvent>)
    requires
        forall|j: int|
            0 <= j < events.len() ==> !spec_event_accepted(cfg, qname, #[trigger] events[j]),
    ensures
        spec_first_accepted(cfg, qname, events) is None,
    decreases events.len(),
{
    if events.len() > 0 {
        assert forall|j: int| 0 <= j < events.skip(1).len() implies !spec_event_accepted(
            cfg,
            qname,
            #[trigger] events.skip(1)[j],
        ) by {
            assert(events.skip(1)[j] == events[j + 1]);
        }
        lemma_first_accepted_none(cfg, qname, events.skip(1));
    }
}

/// A first-accepted result names an accepted event, and exists exactly
/// when some event is accepted.
pub proof fn lemma_first_accepted_iff_exists(
    cfg: Config,
    qname: Seq<char>,
    events: Seq<UpstreamEvent>,
)
    ensures
        (spec_first_accepted(cfg, qname, events) is Some) <==> exists|i: int|
            0 <= i < events.len() && spec_event_accepted(cfg, qname, #[trigger] events[i]),
        match spec_first_accepted(cfg, qname, events) {
            Some(i) => 0 <= i < events.len() && spec_event_accepted(cfg, qname, events[i]) && (
            forall|j: int| 0 <= j < i ==> !spec_event_accepted(cfg, qname, #[trigger] events[j])),
            None => true,
        },
    decreases events.len(),
{
    if events.len() > 0 {
        let rest = events.skip(1);
        lemma_first_accepted_iff_exists(cfg, qname, rest);
        assert forall|j: int| 0 <= j < rest.len() implies #[trigger] rest[j] == events[j + 1] by {}
        if spec_event_accepted(cfg, qname, events[0]) {
        } else {
            match spec_first_accepted(cfg, qname, rest) {
                Some(i) => {
                    assert(rest[i] == events[i + 1]);
                    assert forall|j: int| 0 <= j < i + 1 implies !spec_event_accepted(
                        cfg,
                        qname,
                        #[trigger] events[j],
                    ) by {
                        if j > 0 {
                            assert(rest[j - 1] == events[j]);
                        }
                    }
                    assert(spec_event_accepted(cfg, qname, events[i + 1]));
                },
                None => {
                    if exists|i: int|
                        0 <= i < events.len() && spec_event_accepted(
                            cfg,
                            qname,
                            #[trigger] events[i],
                        ) {
                        let i = choose|i: int|
                            0 <= i < events.len() && spec_event_accepted(
                                cfg,
                                qname,
                                #[trigger] events[i],
                            );
                        assert(i > 0);
                        assert(rest[i - 1] == events[i]);
                        assert(false);
                    }
                },
            }
        }
    }
}

/// First-accept idempotence over arrival order: for two arrival orders
/// holding the same events, the dispatcher finds an acceptable answer in
/// one exactly when it finds one in the other.
pub proof fn lemma_first_accept_permutation(
    cfg: Config,
    qname: Seq<char>,
    a: Seq<UpstreamEvent>,
    b: Seq<UpstreamEvent>,
)
    requires
        a.to_multiset() == b.to_multiset(),
    ensures
        (spec_first_accepted(cfg, qname, a) is Some) <==> (spec_first_accepted(cfg, qname, b) is Some),
{
    broadcast use vstd::seq_lib::group_to_multiset_ensures;

    lemma_first_accepted_iff_exists(cfg, qname, a);
    lemma_first_accepted_iff_exists(cfg, qname, b);
    if spec_first_accepted(cfg, qname, a) is Some {
        let i = choose|i: int| 0 <= i < a.len() && spec_event_accepted(cfg, qname, #[trigger] a[i]);
        assert(a.contains(a[i]));
        assert(b.to_multiset().count(a[i]) > 0);
        assert(b.contains(a[i]));
        let j = choose|j: int| 0 <= j < b.len() && b[j] == a[i];
        assert(spec_event_accepted(cfg, qname, b[j]));
    }
    if spec_first_accepted(cfg, qname, b) is Some {
        let i = choose|i: int| 0 <= i < b.len() && spec_event_accepted(cfg, qname, #[trigger] b[i]);
        assert(b.contains(b[i]));
        assert(a.to_multiset().count(b[i]) > 0);
        assert(a.contains(b[i]));
        let j = choose|j: int| 0 <= j < a.len() && a[j] == b[i];
        assert(spec_event_accepted(cfg, qname, a[j]));
    }
}

/// No-rule passthrough: with no response rules, the first answer in
/// arrival order wins, whatever it holds.
pub proof fn lemma_no_rules_passthrough(
    cfg: Config,
    qname: Seq<char>,
    events: Seq<UpstreamEvent>,
    i: int,
)
    requires
        cfg.response_rules@.len() == 0,
        0 <= i < events.len(),
        events[i] is Answered,
        forall|j: int| 0 <= j < i ==> !((#[trigger] events[j]) is Answered),
    ensures
        spec_first_accepted(cfg, qname, events) == Some(i),
{
    assert(spec_event_accepted(cfg, qname, events[i]));
    assert forall|j: int| 0 <= j < i implies !spec_event_accepted(
        cfg,
        qname,
        #[trigger] events[j],
    ) by {}
    lemma_first_accepted_at(cfg, qname, events, i);
}

/// Decide over the events of one query, in arrival order: the index of
/// the first event whose answer the filter accepts.
pub fn first_accepted(config: &Config, qname: &str, events: &Vec<UpstreamEvent>) -> (r: Option<
    usize,
>)
    requires
        config.wf(),
    ensures
        match r {
            Some(i) => spec_first_accepted(*config, qname@, events@) == Some(i as int),
            None => spec_first_accepted(*config, qname@, events@) is None,
        },
{
    let mut i: usize = 0;
    while i < events.len()
        invariant
            config.wf(),
            i <= events@.len(),
            forall|j: int|
                0 <= j < i ==> !spec_event_accepted(*config, qname@, #[trigger] events@[j]),
        decreases events@.len() - i,
    {
        let accepted = match &events[i] {
            UpstreamEvent::Failed => false,
            UpstreamEvent::Answered { name, ips } => {
                check_response(config, name, qname, ips) == RuleAction::Accept
            },
        };
        if accepted {
            proof {
                lemma_first_accepted_at(*config, qname@, events@, i as int);
            }
            return Some(i);
        }
        i += 1;
    }
    proof {
        lemma_first_accepted_none(*config, qname@, events@);
    }
    None
}

} // verus!
