use vstd::prelude::*;

use crate::graph::StepGraph;
use crate::graph::VisitResult;
use crate::graph::has_event;
use crate::graph::event_for;
use crate::graph::event_index;
use crate::graph::unique_nodes;
use crate::graph::lemma_has_event_push;

verus! {

/// The ordering half of the run phase's guarantees over its visit log:
/// at most one visit per node, only set members, every visit after all of
/// its in-set dependencies, and a run attempted only when those
/// dependencies all succeeded.
pub closed spec fn log_order_ok<S>(g: &StepGraph<S>, set: Seq<bool>, events: Seq<VisitResult>) -> bool {
    &&& unique_nodes(events)
    &&& (forall|j: int|
        0 <= j < events.len() ==> (#[trigger] events[j]).node_idx < g.node_count()
            && set[events[j].node_idx as int])
    &&& (forall|j: int, d: int|
        0 <= j < events.len() && #[trigger] g.dep_edge(events[j].node_idx as int, d)
            && set[d] ==> exists|j2: int|
            0 <= j2 < j && (#[trigger] events[j2]).node_idx as int == d)
    &&& (forall|j: int, j2: int|
        0 <= j < events.len() && 0 <= j2 < events.len() && events[j].attempted
            && #[trigger] g.dep_edge(
            events[j].node_idx as int,
            events[j2].node_idx as int,
        ) && set[events[j2].node_idx as int] ==> events[j2].result is Ok)
}

/// The error half of the run phase's guarantees over its visit log: a
/// short-circuited visit republishes some failed dependency's error
/// verbatim, every error originates in an attempted run that failed, and
/// such an error is stamped with the failing step's name.
pub closed spec fn log_err_ok<S>(g: &StepGraph<S>, set: Seq<bool>, events: Seq<VisitResult>) -> bool {
    &&& (forall|j: int|
        0 <= j < events.len() && !(#[trigger] events[j]).attempted ==> events[j].result is Err
            && (exists|j2: int|
            0 <= j2 < j && g.dep_edge(
                events[j].node_idx as int,
                (#[trigger] events[j2]).node_idx as int,
            ) && set[events[j2].node_idx as int] && events[j2].result == events[j].result))
    &&& (forall|j: int|
        0 <= j < events.len() && (#[trigger] events[j]).result is Err ==> exists|j2: int|
            0 <= j2 <= j && (#[trigger] events[j2]).attempted && events[j2].result
                == events[j].result)
    &&& (forall|j: int|
        0 <= j < events.len() && (#[trigger] events[j]).attempted && events[j].result is Err
            ==> events[j].result->Err_0.step_name@ == g.spec_name(
            events[j].node_idx as int,
        ))
}

/// Both halves of the log model hold of an empty log.
pub proof fn lemma_log_empty<S>(g: &StepGraph<S>, set: Seq<bool>)
    ensures
        log_order_ok(g, set, Seq::<VisitResult>::empty()),
        log_err_ok(g, set, Seq::<VisitResult>::empty()),
{
}

/// Dependency order survives appending a visit whose in-set dependencies
/// already appear in the log.
#[verifier::rlimit(50)]
#[verifier::spinoff_prover]
proof fn lemma_order_push<S>(g: &StepGraph<S>, set: Seq<bool>, events: Seq<VisitResult>, ev: VisitResult)
    requires
        forall|j: int, d: int|
            0 <= j < events.len() && #[trigger] g.dep_edge(events[j].node_idx as int, d)
                && set[d] ==> exists|j2: int|
                0 <= j2 < j && (#[trigger] events[j2]).node_idx as int == d,
        forall|d: int|
            #[trigger] g.dep_edge(ev.node_idx as int, d) && set[d] ==> has_event(events, d),
    ensures
        forall|j: int, d: int|
            0 <= j < events.push(ev).len() && #[trigger] g.dep_edge(
                events.push(ev)[j].node_idx as int,
                d,
            ) && set[d] ==> exists|j2: int|
                0 <= j2 < j && (#[trigger] events.push(ev)[j2]).node_idx as int == d,
{
    let evs = events.push(ev);
    let li = events.len() as int;
    assert forall|j: int, d: int|
        0 <= j < evs.len() && #[trigger] g.dep_edge(evs[j].node_idx as int, d)
            && set[d] implies exists|j2: int|
        0 <= j2 < j && (#[trigger] evs[j2]).node_idx as int == d by {
        if j < li {
            assert(evs[j] == events[j]);
            let j2 = choose|j2: int|
                0 <= j2 < j && (#[trigger] events[j2]).node_idx as int == d;
            assert(evs[j2].node_idx as int == d);
        } else {
            let j2 = choose|j2: int|
                0 <= j2 < events.len() && events[j2].node_idx as int == d;
            assert(evs[j2].node_idx as int == d);
        }
    };
}

/// A visit that ran only on success of its dependencies keeps that
/// guarantee when appended.
#[verifier::rlimit(50)]
#[verifier::spinoff_prover]
proof fn lemma_gate_push<S>(g: &StepGraph<S>, set: Seq<bool>, events: Seq<VisitResult>, ev: VisitResult)
    requires
        forall|j: int, j2: int|
            0 <= j < events.len() && 0 <= j2 < events.len() && events[j].attempted
                && #[trigger] g.dep_edge(
                events[j].node_idx as int,
                events[j2].node_idx as int,
            ) && set[events[j2].node_idx as int] ==> events[j2].result is Ok,
        forall|j: int, d: int|
            0 <= j < events.len() && #[trigger] g.dep_edge(events[j].node_idx as int, d)
                && set[d] ==> exists|j2: int|
                0 <= j2 < j && (#[trigger] events[j2]).node_idx as int == d,
        !has_event(events, ev.node_idx as int),
        set[ev.node_idx as int],
        forall|d: int| #[trigger] g.dep_edge(ev.node_idx as int, d) && set[d] ==> has_event(
            events,
            d,
        ),
        ev.attempted ==> (forall|j2: int|
            0 <= j2 < events.len() && #[trigger] g.dep_edge(
                ev.node_idx as int,
                events[j2].node_idx as int,
            ) && set[events[j2].node_idx as int] ==> events[j2].result is Ok),
    ensures
        forall|j: int, j2: int|
            0 <= j < events.push(ev).len() && 0 <= j2 < events.push(ev).len() && events.push(
                ev,
            )[j].attempted && #[trigger] g.dep_edge(
                events.push(ev)[j].node_idx as int,
                events.push(ev)[j2].node_idx as int,
            ) && set[events.push(ev)[j2].node_idx as int] ==> events.push(ev)[j2].result is Ok,
{
    let evs = events.push(ev);
    let li = events.len() as int;
    let nd = ev.node_idx as int;
    assert forall|j: int, j2: int|
        0 <= j < evs.len() && 0 <= j2 < evs.len() && evs[j].attempted
            && #[trigger] g.dep_edge(evs[j].node_idx as int, evs[j2].node_idx as int)
            && set[evs[j2].node_idx as int] implies evs[j2].result is Ok by {
        if j < li {
            assert(evs[j] == events[j]);
            if j2 < li {
                assert(evs[j2] == events[j2]);
            } else {
                // an earlier visit depending on the node visited now would
                // have required an even earlier visit of it
                let j3 = choose|j3: int|
                    0 <= j3 < j && (#[trigger] events[j3]).node_idx as int == nd;
                assert(has_event(events, nd));
            }
        } else {
            if j2 < li {
                assert(evs[j2] == events[j2]);
            } else {
                // a self-dependency: nd would have to appear in the log
                assert(has_event(events, nd));
            }
        }
    };
}

/// The short-circuit clause survives appending a visit that either ran or
/// republishes a failed dependency's error.
#[verifier::rlimit(50)]
#[verifier::spinoff_prover]
proof fn lemma_short_push<S>(g: &StepGraph<S>, set: Seq<bool>, events: Seq<VisitResult>, ev: VisitResult)
    requires
        forall|j: int|
            0 <= j < events.len() && !(#[trigger] events[j]).attempted ==> events[j].result
                is Err && (exists|j2: int|
                0 <= j2 < j && g.dep_edge(
                    events[j].node_idx as int,
                    (#[trigger] events[j2]).node_idx as int,
                ) && set[events[j2].node_idx as int] && events[j2].result == events[j].result),
        !ev.attempted ==> ev.result is Err && (exists|j2: int|
            0 <= j2 < events.len() && g.dep_edge(
                ev.node_idx as int,
                (#[trigger] events[j2]).node_idx as int,
            ) && set[events[j2].node_idx as int] && events[j2].result == ev.result),
    ensures
        forall|j: int|
            0 <= j < events.push(ev).len() && !(#[trigger] events.push(ev)[j]).attempted
                ==> events.push(ev)[j].result is Err && (exists|j2: int|
                0 <= j2 < j && g.dep_edge(
                    events.push(ev)[j].node_idx as int,
                    (#[trigger] events.push(ev)[j2]).node_idx as int,
                ) && set[events.push(ev)[j2].node_idx as int] && events.push(ev)[j2].result
                    == events.push(ev)[j].result),
{
    let evs = events.push(ev);
    let li = events.len() as int;
    assert forall|j: int| 0 <= j < evs.len() && !(#[trigger] evs[j]).attempted implies
        evs[j].result is Err && (exists|j2: int|
        0 <= j2 < j && g.dep_edge(
            evs[j].node_idx as int,
            (#[trigger] evs[j2]).node_idx as int,
        ) && set[evs[j2].node_idx as int] && evs[j2].result == evs[j].result) by {
        if j < li {
            assert(evs[j] == events[j]);
            let j2 = choose|j2: int|
                0 <= j2 < j && g.dep_edge(
                    events[j].node_idx as int,
                    (#[trigger] events[j2]).node_idx as int,
                ) && set[events[j2].node_idx as int] && events[j2].result == events[j].result;
            assert(evs[j2] == events[j2]);
        } else {
            let j2 = choose|j2: int|
                0 <= j2 < events.len() && g.dep_edge(
                    ev.node_idx as int,
                    (#[trigger] events[j2]).node_idx as int,
                ) && set[events[j2].node_idx as int] && events[j2].result == ev.result;
            assert(evs[j2] == events[j2]);
        }
    };
}

/// Every error still originates in an attempted, failed run after a
/// visit is appended.
#[verifier::rlimit(50)]
#[verifier::spinoff_prover]
proof fn lemma_prov_push<S>(g: &StepGraph<S>, set: Seq<bool>, events: Seq<VisitResult>, ev: VisitResult)
    requires
        forall|j: int|
            0 <= j < events.len() && (#[trigger] events[j]).result is Err ==> exists|j2: int|
                0 <= j2 <= j && (#[trigger] events[j2]).attempted && events[j2].result
                    == events[j].result,
        !ev.attempted ==> ev.result is Err && (exists|j2: int|
            0 <= j2 < events.len() && (#[trigger] events[j2]).result == ev.result),
    ensures
        forall|j: int|
            0 <= j < events.push(ev).len() && (#[trigger] events.push(ev)[j]).result is Err
                ==> exists|j2: int|
                0 <= j2 <= j && (#[trigger] events.push(ev)[j2]).attempted && events.push(
                    ev,
                )[j2].result == events.push(ev)[j].result,
{
    let evs = events.push(ev);
    let li = events.len() as int;
    assert forall|j: int| 0 <= j < evs.len() && (#[trigger] evs[j]).result is Err implies
        exists|j2: int|
        0 <= j2 <= j && (#[trigger] evs[j2]).attempted && evs[j2].result == evs[j].result by {
        if j < li {
            assert(evs[j] == events[j]);
            let j2 = choose|j2: int|
                0 <= j2 <= j && (#[trigger] events[j2]).attempted && events[j2].result
                    == events[j].result;
            assert(evs[j2] == events[j2]);
        } else {
            if ev.attempted {
                assert(0 <= li <= j && evs[li].attempted && evs[li].result == evs[j].result);
            } else {
                let j2 = choose|j2: int|
                    0 <= j2 < events.len() && (#[trigger] events[j2]).result == ev.result;
                assert(events[j2].result is Err);
                let j3 = choose|j3: int|
                    0 <= j3 <= j2 && (#[trigger] events[j3]).attempted && events[j3].result
                        == events[j2].result;
                assert(evs[j3] == events[j3]);
            }
        }
    };
}

/// A failed run's error keeps carrying its step's name.
#[verifier::rlimit(50)]
#[verifier::spinoff_prover]
proof fn lemma_name_push<S>(g: &StepGraph<S>, set: Seq<bool>, events: Seq<VisitResult>, ev: VisitResult)
    requires
        forall|j: int|
            0 <= j < events.len() && (#[trigger] events[j]).attempted && events[j].result
                is Err ==> events[j].result->Err_0.step_name@ == g.spec_name(
                events[j].node_idx as int,
            ),
        ev.attempted && ev.result is Err ==> ev.result->Err_0.step_name@ == g.spec_name(
            ev.node_idx as int,
        ),
    ensures
        forall|j: int|
            0 <= j < events.push(ev).len() && (#[trigger] events.push(ev)[j]).attempted
                && events.push(ev)[j].result is Err
                ==> events.push(ev)[j].result->Err_0.step_name@ == g.spec_name(
                events.push(ev)[j].node_idx as int,
            ),
{
    let evs = events.push(ev);
    let li = events.len() as int;
    assert forall|j: int|
        0 <= j < evs.len() && (#[trigger] evs[j]).attempted && evs[j].result is Err implies
        evs[j].result->Err_0.step_name@ == g.spec_name(evs[j].node_idx as int) by {
        if j < li {
            assert(evs[j] == events[j]);
        }
    };
}

/// Appending a visit for a node not yet in the log keeps visits unique.
proof fn lemma_unique_push(events: Seq<VisitResult>, ev: VisitResult)
    requires
        unique_nodes(events),
        !has_event(events, ev.node_idx as int),
    ensures
        unique_nodes(events.push(ev)),
{
    let evs = events.push(ev);
    let li = events.len() as int;
    assert forall|j1: int, j2: int| 0 <= j1 < j2 < evs.len() implies (
    #[trigger] evs[j1].node_idx) != (#[trigger] evs[j2].node_idx) by {
        if j2 == li {
            if evs[j1].node_idx == ev.node_idx {
                assert(events[j1].node_idx as int == ev.node_idx as int);
                assert(has_event(events, ev.node_idx as int));
            }
        }
    };
}

/// Appending a visit for a set member keeps the log inside the set.
proof fn lemma_member_push(events: Seq<VisitResult>, ev: VisitResult, set: Seq<bool>, n: nat)
    requires
        forall|j: int|
            0 <= j < events.len() ==> (#[trigger] events[j]).node_idx < n
                && set[events[j].node_idx as int],
        ev.node_idx < n,
        set[ev.node_idx as int],
    ensures
        forall|j: int|
            0 <= j < events.push(ev).len() ==> (#[trigger] events.push(ev)[j]).node_idx < n
                && set[events.push(ev)[j].node_idx as int],
{
    let evs = events.push(ev);
    assert forall|j: int| 0 <= j < evs.len() implies (#[trigger] evs[j]).node_idx < n
        && set[evs[j].node_idx as int] by {
        if j < events.len() {
            assert(evs[j] == events[j]);
        }
    };
}


/// One visit of a ready node preserves the ordering half of the log's
/// guarantees.
#[verifier::rlimit(100)]
#[verifier::spinoff_prover]
pub proof fn lemma_push_order_bundle<S>(
    g: &StepGraph<S>,
    set: Seq<bool>,
    events: Seq<VisitResult>,
    ev: VisitResult,
)
    requires
        set.len() == g.node_count(),
        log_order_ok(g, set, events),
        (ev.node_idx as int) < g.node_count(),
        set[ev.node_idx as int],
        !has_event(events, ev.node_idx as int),
        forall|d: int|
            #[trigger] g.dep_edge(ev.node_idx as int, d) && set[d] ==> has_event(events, d),
        ev.attempted ==> (forall|j2: int|
            0 <= j2 < events.len() && #[trigger] g.dep_edge(
                ev.node_idx as int,
                events[j2].node_idx as int,
            ) && set[events[j2].node_idx as int] ==> events[j2].result is Ok),
    ensures
        log_order_ok(g, set, events.push(ev)),
{
    lemma_unique_push(events, ev);
    lemma_member_push(events, ev, set, g.node_count());
    lemma_order_push(g, set, events, ev);
    lemma_gate_push(g, set, events, ev);
}

/// One visit of a ready node preserves the error half of the log's
/// guarantees.
#[verifier::rlimit(100)]
#[verifier::spinoff_prover]
pub proof fn lemma_push_err_bundle<S>(
    g: &StepGraph<S>,
    set: Seq<bool>,
    events: Seq<VisitResult>,
    ev: VisitResult,
)
    requires
        log_err_ok(g, set, events),
        !ev.attempted ==> ev.result is Err && (exists|j2: int|
            0 <= j2 < events.len() && g.dep_edge(
                ev.node_idx as int,
                (#[trigger] events[j2]).node_idx as int,
            ) && set[events[j2].node_idx as int] && events[j2].result == ev.result),
        ev.attempted && ev.result is Err ==> ev.result->Err_0.step_name@ == g.spec_name(
            ev.node_idx as int,
        ),
    ensures
        log_err_ok(g, set, events.push(ev)),
{
    lemma_short_push(g, set, events, ev);
    if !ev.attempted {
        let j2 = choose|j2: int|
            0 <= j2 < events.len() && g.dep_edge(
                ev.node_idx as int,
                (#[trigger] events[j2]).node_idx as int,
            ) && set[events[j2].node_idx as int] && events[j2].result == ev.result;
        assert(0 <= j2 < events.len() && (#[trigger] events[j2]).result == ev.result);
    }
    lemma_prov_push(g, set, events, ev);
    lemma_name_push(g, set, events, ev);
}

/// The log only visits members of the active set.
pub proof fn lemma_log_members<S>(g: &StepGraph<S>, set: Seq<bool>, events: Seq<VisitResult>)
    requires
        log_order_ok(g, set, events),
    ensures
        forall|j: int|
            0 <= j < events.len() ==> (#[trigger] events[j]).node_idx < g.node_count()
                && set[events[j].node_idx as int],
{
}

/// The log visits each node at most once.
pub proof fn lemma_log_unique<S>(g: &StepGraph<S>, set: Seq<bool>, events: Seq<VisitResult>)
    requires
        log_order_ok(g, set, events),
    ensures
        unique_nodes(events),
{
}

/// The terminal's outcome, when a failure, is the verbatim error of some
/// attempted visit that failed, stamped with that step's name; the failing
/// step lies in the active set.
pub proof fn lemma_terminal_failure<S>(
    g: &StepGraph<S>,
    set: Seq<bool>,
    events: Seq<VisitResult>,
    until: int,
)
    requires
        log_order_ok(g, set, events),
        log_err_ok(g, set, events),
        has_event(events, until),
        event_for(events, until).result is Err,
    ensures
        exists|j: int|
            0 <= j < events.len() && (#[trigger] events[j]).attempted && events[j].result
                == event_for(events, until).result && (events[j].node_idx as int)
                < g.node_count() && set[events[j].node_idx as int]
                && event_for(events, until).result->Err_0.step_name@ == g.spec_name(
                events[j].node_idx as int,
            ),
{
    let ju = event_index(events, until);
    assert(0 <= ju < events.len() && events[ju].node_idx as int == until);
    assert(events[ju].result is Err);
    let j2 = choose|j2: int|
        0 <= j2 <= ju && (#[trigger] events[j2]).attempted && events[j2].result
            == events[ju].result;
    assert(events[j2].result->Err_0.step_name@ == g.spec_name(events[j2].node_idx as int));
    assert((events[j2].node_idx as int) < g.node_count() && set[events[j2].node_idx as int]);
    assert(events[j2].attempted && events[j2].result == event_for(events, until).result);
}

/// The ordering half of the log model, clause by clause, for callers outside
/// this module.
pub proof fn lemma_order_clauses<S>(g: &StepGraph<S>, set: Seq<bool>, events: Seq<VisitResult>)
    requires
        log_order_ok(g, set, events),
    ensures
        unique_nodes(events),
        forall|j: int|
            0 <= j < events.len() ==> (#[trigger] events[j]).node_idx < g.node_count()
                && set[events[j].node_idx as int],
        forall|j: int, d: int|
            0 <= j < events.len() && #[trigger] g.dep_edge(events[j].node_idx as int, d)
                && set[d] ==> exists|j2: int|
                0 <= j2 < j && (#[trigger] events[j2]).node_idx as int == d,
        forall|j: int, j2: int|
            0 <= j < events.len() && 0 <= j2 < events.len() && events[j].attempted
                && #[trigger] g.dep_edge(
                events[j].node_idx as int,
                events[j2].node_idx as int,
            ) && set[events[j2].node_idx as int] ==> events[j2].result is Ok,
{
}

/// The error half of the log model, clause by clause, for callers outside
/// this module.
pub proof fn lemma_err_clauses<S>(g: &StepGraph<S>, set: Seq<bool>, events: Seq<VisitResult>)
    requires
        log_err_ok(g, set, events),
    ensures
        forall|j: int|
            0 <= j < events.len() && !(#[trigger] events[j]).attempted ==> events[j].result is Err
                && (exists|j2: int|
                0 <= j2 < j && g.dep_edge(
                    events[j].node_idx as int,
                    (#[trigger] events[j2]).node_idx as int,
                ) && set[events[j2].node_idx as int] && events[j2].result == events[j].result),
        forall|j: int|
            0 <= j < events.len() && (#[trigger] events[j]).result is Err ==> exists|j2: int|
                0 <= j2 <= j && (#[trigger] events[j2]).attempted && events[j2].result
                    == events[j].result,
        forall|j: int|
            0 <= j < events.len() && (#[trigger] events[j]).attempted && events[j].result is Err
                ==> events[j].result->Err_0.step_name@ == g.spec_name(events[j].node_idx as int),
{
}

/// A failure anywhere in the ancestor set surfaces at the terminal: walking
/// down a dependency chain from `until` to the failing node, every node on
/// the chain was either short-circuited or gated on the failed dependency.
pub proof fn lemma_failure_propagates<S>(
    g: &StepGraph<S>,
    set: Seq<bool>,
    events: Seq<VisitResult>,
    until: int,
    x: int,
    k: nat,
)
    requires
        log_order_ok(g, set, events),
        log_err_ok(g, set, events),
        forall|m: int| 0 <= m < g.node_count() && set[m] ==> has_event(events, m),
        forall|a: int, b: int|
            0 <= a < g.node_count() && set[a] && #[trigger] g.dep_edge(a, b) ==> set[b],
        0 <= until < g.node_count(),
        set[until],
        g.reaches_within(until, x, k),
        has_event(events, x),
        event_for(events, x).result is Err,
    ensures
        event_for(events, until).result is Err,
    decreases k,
{
    if until != x {
        let mid = choose|mid: int|
            #[trigger] g.dep_edge(until, mid) && g.reaches_within(mid, x, (k - 1) as nat);
        g.lemma_dep_edge_range(until, mid);
        assert(set[mid]);
        assert(has_event(events, mid));
        lemma_failure_propagates(g, set, events, mid, x, (k - 1) as nat);

        let ju = event_index(events, until);
        let jm = event_index(events, mid);
        assert(0 <= ju < events.len() && events[ju].node_idx as int == until);
        assert(0 <= jm < events.len() && events[jm].node_idx as int == mid);
        if events[ju].attempted {
            // a run is attempted only when its in-set dependencies all
            // succeeded, yet mid's visit failed
            assert(g.dep_edge(events[ju].node_idx as int, events[jm].node_idx as int));
            assert(events[jm].result is Ok);
        }
        assert(events[ju].result is Err);
    }
}

} // verus!
