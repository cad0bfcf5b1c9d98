use vstd::prelude::*;

use crate::graph::StepGraph;
use crate::graph::VisitResult;
use crate::graph::has_event;

verus! {

/// `order` is a valid run order for executing the graph up to `until`: it
/// lists exactly the ancestors of `until`, each once, and a node only after
/// every node it depends on.
pub open spec fn valid_run_order<S>(g: &StepGraph<S>, until: int, order: Seq<int>) -> bool {
    &&& (forall|j1: int, j2: int|
        0 <= j1 < j2 < order.len() ==> (#[trigger] order[j1]) != (#[trigger] order[j2]))
    &&& (forall|m: int|
        #[trigger] order.contains(m) <==> (0 <= m < g.node_count() && g.is_ancestor(until, m)))
    &&& (forall|j: int, d: int|
        0 <= j < order.len() && #[trigger] g.dep_edge(order[j], d) ==> exists|j2: int|
            0 <= j2 < j && (#[trigger] order[j2]) == d)
}

/// Reachability only depends on the dependency relation, not on how the
/// graph stores it.
proof fn lemma_reaches_congruent<S1, S2>(
    g1: &StepGraph<S1>,
    g2: &StepGraph<S2>,
    src: int,
    dst: int,
    k: nat,
)
    requires
        forall|a: int, b: int|
            #![trigger g1.dep_edge(a, b)]
            #![trigger g2.dep_edge(a, b)]
            g1.dep_edge(a, b) <==> g2.dep_edge(a, b),
        g1.reaches_within(src, dst, k),
    ensures
        g2.reaches_within(src, dst, k),
    decreases k,
{
    if src != dst {
        let m = choose|m: int|
            #[trigger] g1.dep_edge(src, m) && g1.reaches_within(m, dst, (k - 1) as nat);
        lemma_reaches_congruent(g1, g2, m, dst, (k - 1) as nat);
        assert(g2.dep_edge(src, m) && g2.reaches_within(m, dst, (k - 1) as nat));
    }
}

/// Topological faithfulness: any two graphs with the same node count and the
/// same dependency relation — however their `add_edge` calls were ordered —
/// admit exactly the same valid run orders, for every terminal.
pub proof fn lemma_topological_faithfulness<S1, S2>(
    g1: &StepGraph<S1>,
    g2: &StepGraph<S2>,
    until: int,
    order: Seq<int>,
)
    requires
        g1.node_count() == g2.node_count(),
        forall|a: int, b: int|
            #![trigger g1.dep_edge(a, b)]
            #![trigger g2.dep_edge(a, b)]
            g1.dep_edge(a, b) <==> g2.dep_edge(a, b),
        valid_run_order(g1, until, order),
    ensures
        valid_run_order(g2, until, order),
{
    assert forall|m: int|
        #[trigger] order.contains(m) implies (0 <= m < g2.node_count() && g2.is_ancestor(
        until,
        m,
    )) by {
        let k = choose|k: nat| g1.reaches_within(until, m, k);
        lemma_reaches_congruent(g1, g2, until, m, k);
    };
    assert forall|m: int|
        0 <= m < g2.node_count() && g2.is_ancestor(until, m) implies #[trigger] order.contains(
        m,
    ) by {
        let k = choose|k: nat| g2.reaches_within(until, m, k);
        lemma_reaches_congruent(g2, g1, until, m, k);
    };
    assert forall|j: int, d: int|
        0 <= j < order.len() && #[trigger] g2.dep_edge(order[j], d) implies exists|j2: int|
        0 <= j2 < j && (#[trigger] order[j2]) == d by {
        assert(g1.dep_edge(order[j], d));
        let j2 = choose|j2: int| 0 <= j2 < j && (#[trigger] order[j2]) == d;
        assert(0 <= j2 < j && order[j2] == d);
    };
}

/// The run phase's visit order is itself a valid run order: the executor
/// realises one of the schedules the dependency relation allows.
pub proof fn lemma_trace_is_valid_order<S>(
    g: &StepGraph<S>,
    until: int,
    events: Seq<VisitResult>,
)
    requires
        g.run_log_ok(g.ancestors_of(until), events),
        forall|m: int|
            0 <= m < g.node_count() ==> ((#[trigger] has_event(events, m)) <==> g.is_ancestor(
                until,
                m,
            )),
    ensures
        valid_run_order(g, until, events.map_values(|ev: VisitResult| ev.node_idx as int)),
{
    let order = events.map_values(|ev: VisitResult| ev.node_idx as int);
    let set = g.ancestors_of(until);
    crate::walkspec::lemma_log_unique(g, set, events);
    crate::walkspec::lemma_order_clauses(g, set, events);
    assert(order.len() == events.len());

    assert forall|j1: int, j2: int| 0 <= j1 < j2 < order.len() implies (#[trigger] order[j1]) != (
    #[trigger] order[j2]) by {
        assert(events[j1].node_idx != events[j2].node_idx);
    };

    assert forall|m: int| #[trigger] order.contains(m) implies (0 <= m < g.node_count()
        && g.is_ancestor(until, m)) by {
        let j = choose|j: int| 0 <= j < order.len() && order[j] == m;
        assert(events[j].node_idx as int == m);
        assert(has_event(events, m));
    };
    assert forall|m: int|
        0 <= m < g.node_count() && g.is_ancestor(until, m) implies #[trigger] order.contains(
        m,
    ) by {
        assert(has_event(events, m));
        let j = choose|j: int| 0 <= j < events.len() && events[j].node_idx as int == m;
        assert(order[j] == m);
    };

    assert forall|j: int, d: int|
        0 <= j < order.len() && #[trigger] g.dep_edge(order[j], d) implies exists|j2: int|
        0 <= j2 < j && (#[trigger] order[j2]) == d by {
        assert(g.dep_edge(events[j].node_idx as int, d));
        g.lemma_ancestor_step(until, events[j].node_idx as int, d);
        g.lemma_dep_edge_range(events[j].node_idx as int, d);
        assert(g.is_ancestor(until, d));
        assert(set[d]);
        let j2 = choose|j2: int| 0 <= j2 < j && (#[trigger] events[j2]).node_idx as int == d;
        assert(order[j2] == d);
    };
}

} // verus!
