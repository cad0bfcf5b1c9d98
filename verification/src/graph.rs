use vstd::prelude::*;
use vstd::string::StringExecFns;

use crate::config;
use crate::steps;

verus! {

/// StepError represents an error executing a step in a graph.
pub struct StepError {
    /// The name of the step whose run failed.
    pub step_name: String,
    /// The cause reported by the step.
    pub msg: String,
}

impl StepError {
    /// Renders the error as `error running {step_name}: {msg}`.
    pub fn to_message(&self) -> (r: String)
        ensures
            r@ == "error running "@ + self.step_name@ + ": "@ + self.msg@,
    {
        let mut r = String::from_str("error running ");
        r.append(self.step_name.as_str());
        r.append(": ");
        r.append(self.msg.as_str());
        proof {
            assert(r@ =~= "error running "@ + self.step_name@ + ": "@ + self.msg@);
        }
        r
    }

    /// An exact copy of the error, as handed to each dependent of a failed
    /// step.
    pub fn duplicate(&self) -> (r: StepError)
        ensures
            r == *self,
    {
        StepError { step_name: self.step_name.clone(), msg: self.msg.clone() }
    }
}

/// The outcome of visiting one node during a walk.
pub struct VisitResult {
    /// The node the outcome belongs to.
    pub node_idx: usize,
    /// Whether the step's own work was invoked, as opposed to a dependency
    /// failure being republished without attempting the step.
    pub attempted: bool,
    /// Success, or the error that the visit published.
    pub result: Result<(), StepError>,
}

/// The full trace of one execution: the run phase's visit log, the cleanup
/// phase's order, and the run-phase outcome of the terminal node.
pub struct RunTrace {
    /// One visit per ancestor of the terminal, in the order they resolved.
    pub run_events: Vec<VisitResult>,
    /// The node ids in the order their cleanups ran.
    pub cleanup_order: Vec<usize>,
    /// The run-phase outcome of the terminal node.
    pub result: Result<(), StepError>,
}

/// Copies a visit outcome so it can be both recorded and republished.
fn duplicate_result(r: &Result<(), StepError>) -> (r2: Result<(), StepError>)
    ensures
        r2 == *r,
{
    match r {
        Ok(u) => Ok(*u),
        Err(e) => Err(e.duplicate()),
    }
}

/// The adjacency list `s` holds the node id `x`.
pub open spec fn adj_has(s: Seq<usize>, x: int) -> bool {
    exists|j: int| 0 <= j < s.len() && s[j] as int == x
}

/// The order `s` (a cleanup order, say) holds the node id `x`.
pub open spec fn order_has(s: Seq<usize>, x: int) -> bool {
    exists|j: int| 0 <= j < s.len() && s[j] as int == x
}

/// Some visit in `events` is for node `m`.
pub open spec fn has_event(events: Seq<VisitResult>, m: int) -> bool {
    exists|j: int| 0 <= j < events.len() && events[j].node_idx as int == m
}

/// The position of node `m`'s visit in `events` (unique when the walk visited
/// each node once).
pub open spec fn event_index(events: Seq<VisitResult>, m: int) -> int {
    choose|j: int| 0 <= j < events.len() && events[j].node_idx as int == m
}

/// Node `m`'s visit in `events`.
pub open spec fn event_for(events: Seq<VisitResult>, m: int) -> VisitResult {
    events[event_index(events, m)]
}

/// No two visits in `events` are for the same node.
pub open spec fn unique_nodes(events: Seq<VisitResult>) -> bool {
    forall|j1: int, j2: int| 0 <= j1 < j2 < events.len()
        ==> (#[trigger] events[j1].node_idx) != (#[trigger] events[j2].node_idx)
}

/// Appending a visit leaves every earlier node's presence alone and adds the
/// new node's.
pub proof fn lemma_has_event_push(events: Seq<VisitResult>, ev: VisitResult, m: int)
    ensures
        has_event(events.push(ev), m) <==> (has_event(events, m) || ev.node_idx as int == m),
{
    let s2 = events.push(ev);
    if has_event(events, m) {
        let j = choose|j: int| 0 <= j < events.len() && events[j].node_idx as int == m;
        assert(s2[j].node_idx as int == m);
    }
    if ev.node_idx as int == m {
        assert(s2[events.len() as int].node_idx as int == m);
    }
    if has_event(s2, m) {
        let j = choose|j: int| 0 <= j < s2.len() && s2[j].node_idx as int == m;
        if j < events.len() {
            assert(events[j].node_idx as int == m);
        }
    }
}

/// With unique nodes, any position holding node `m` is the position
/// `event_for` speaks of.
pub proof fn lemma_event_for_index(events: Seq<VisitResult>, j: int)
    requires
        unique_nodes(events),
        0 <= j < events.len(),
    ensures
        has_event(events, events[j].node_idx as int),
        event_for(events, events[j].node_idx as int) == events[j],
        event_index(events, events[j].node_idx as int) == j,
{
    let m = events[j].node_idx as int;
    assert(has_event(events, m));
    let j2 = event_index(events, m);
    if j2 != j {
        if j2 < j {
            assert(events[j2].node_idx != events[j].node_idx);
        } else {
            assert(events[j].node_idx != events[j2].node_idx);
        }
    }
}

/// How many entries of `s` are true.
pub closed spec fn count_true(s: Seq<bool>) -> nat
    decreases s.len(),
{
    if s.len() == 0 {
        0
    } else {
        count_true(s.drop_last()) + if s[s.len() - 1] {
            1nat
        } else {
            0nat
        }
    }
}

pub proof fn lemma_count_true_le(s: Seq<bool>)
    ensures
        count_true(s) <= s.len(),
    decreases s.len(),
{
    if s.len() > 0 {
        lemma_count_true_le(s.drop_last());
    }
}

pub proof fn lemma_count_true_update(s: Seq<bool>, i: int)
    requires
        0 <= i < s.len(),
        !s[i],
    ensures
        count_true(s.update(i, true)) == count_true(s) + 1,
    decreases s.len(),
{
    let t = s.update(i, true);
    if i == s.len() - 1 {
        assert(t.drop_last() =~= s.drop_last());
    } else {
        assert(t.drop_last() =~= s.drop_last().update(i, true));
        lemma_count_true_update(s.drop_last(), i);
    }
}

/// A set of node ids in which every member has a member of strictly smaller
/// rank is empty: ranks are natural numbers, so there is no infinite descent.
proof fn lemma_descent_bound(u: spec_fn(int) -> bool, rho: Seq<nat>, r: nat)
    requires
        forall|x: int| #[trigger] u(x) ==> 0 <= x < rho.len(),
        forall|x: int| #[trigger] u(x) ==> exists|y: int| #[trigger] u(y) && rho[y] < rho[x],
    ensures
        forall|x: int| #[trigger] u(x) ==> rho[x] >= r,
    decreases r,
{
    if r > 0 {
        lemma_descent_bound(u, rho, (r - 1) as nat);
        assert forall|x: int| #[trigger] u(x) implies rho[x] >= r by {
            let y = choose|y: int| #[trigger] u(y) && rho[y] < rho[x];
            assert(rho[y] >= r - 1);
        };
    }
}

proof fn lemma_descent_empty(u: spec_fn(int) -> bool, rho: Seq<nat>)
    requires
        forall|x: int| #[trigger] u(x) ==> 0 <= x < rho.len(),
        forall|x: int| #[trigger] u(x) ==> exists|y: int| #[trigger] u(y) && rho[y] < rho[x],
    ensures
        forall|x: int| !(#[trigger] u(x)),
{
    assert forall|x: int| !(#[trigger] u(x)) by {
        if u(x) {
            lemma_descent_bound(u, rho, (rho[x] + 1) as nat);
        }
    };
}

/// A graph of instance provisioning steps.
#[verifier::reject_recursive_types(S)]
pub struct StepGraph<S> {
    steps: Vec<S>,
    names: Vec<String>,
    edges_fwd: Vec<Vec<usize>>,
    edges_rev: Vec<Vec<usize>>,
}

impl<S> StepGraph<S> {
    /// The number of nodes inserted so far. Node ids densely cover
    /// `[0, node_count)`.
    pub closed spec fn node_count(&self) -> nat {
        self.steps@.len()
    }

    /// The name recorded for node `n` when it was inserted.
    pub closed spec fn spec_name(&self, n: int) -> Seq<char> {
        self.names@[n]@
    }

    /// The step inserted as node `n`.
    pub closed spec fn step_at(&self, n: int) -> S {
        self.steps@[n]
    }

    /// Node `a` depends on node `b`: `b` must complete its run before `a` may
    /// start, and `a` must complete its cleanup before `b` may start its own.
    pub closed spec fn dep_edge(&self, a: int, b: int) -> bool {
        &&& 0 <= a < self.node_count()
        &&& 0 <= b < self.node_count()
        &&& adj_has(self.edges_fwd@[a]@, b)
    }

    /// The parallel arrays have one entry per node and every edge target is
    /// a valid node id.
    pub closed spec fn arrays_ok(&self) -> bool {
        &&& self.names@.len() == self.node_count()
        &&& self.edges_fwd@.len() == self.node_count()
        &&& self.edges_rev@.len() == self.node_count()
        &&& forall|a: int, j: int|
            0 <= a < self.node_count() && 0 <= j < self.edges_fwd@[a]@.len()
                ==> (#[trigger] self.edges_fwd@[a]@[j]) < self.node_count()
        &&& forall|a: int, j: int|
            0 <= a < self.node_count() && 0 <= j < self.edges_rev@[a]@.len()
                ==> (#[trigger] self.edges_rev@[a]@[j]) < self.node_count()
    }

    /// The reverse adjacency lists are the exact inverse of the forward ones.
    pub closed spec fn inverse_ok(&self) -> bool {
        forall|a: int, b: int|
            #![trigger adj_has(self.edges_fwd@[a]@, b)]
            #![trigger adj_has(self.edges_rev@[b]@, a)]
            0 <= a < self.node_count() && 0 <= b < self.node_count()
                ==> (adj_has(self.edges_fwd@[a]@, b) <==> adj_has(self.edges_rev@[b]@, a))
    }

    /// Internal consistency of the whole structure.
    pub closed spec fn wf(&self) -> bool {
        self.arrays_ok() && self.inverse_ok()
    }

    /// Node `dst` is reachable from `src` over at most `k` dependency edges.
    pub open spec fn reaches_within(&self, src: int, dst: int, k: nat) -> bool
        decreases k,
    {
        src == dst || (k > 0 && exists|m: int|
            #[trigger] self.dep_edge(src, m) && self.reaches_within(m, dst, (k - 1) as nat))
    }

    /// `n` is an ancestor of `until`: `until` depends on it directly or
    /// transitively. Every node is an ancestor of itself.
    pub open spec fn is_ancestor(&self, until: int, n: int) -> bool {
        exists|k: nat| self.reaches_within(until, n, k)
    }

    /// A dependency edge joins two valid node ids.
    pub proof fn lemma_dep_edge_range(&self, a: int, b: int)
        requires
            self.dep_edge(a, b),
        ensures
            0 <= a < self.node_count(),
            0 <= b < self.node_count(),
    {
    }

    /// The ancestor set of `until` as a membership sequence over all node
    /// ids: entry `m` holds exactly when `m` is an ancestor of `until`.
    pub open spec fn ancestors_of(&self, until: int) -> Seq<bool> {
        Seq::new(self.node_count(), |m: int| self.is_ancestor(until, m))
    }

    /// `rank` witnesses that the graph is acyclic: every dependency edge
    /// strictly decreases the rank, and ranks stay below the node count.
    pub open spec fn rank_ok(&self, rank: Seq<nat>) -> bool {
        &&& rank.len() == self.node_count()
        &&& forall|i: int| 0 <= i < rank.len() ==> (#[trigger] rank[i]) < self.node_count()
        &&& forall|a: int, b: int| #[trigger] self.dep_edge(a, b) ==> rank[b] < rank[a]
    }

    /// The graph has no dependency cycle. Construction does not enforce this;
    /// callers build graphs statically and are responsible for it, and
    /// execution demands it (a cycle would deadlock the walk).
    pub open spec fn acyclic(&self) -> bool {
        exists|rank: Seq<nat>| self.rank_ok(rank)
    }

    /// Reachability extends across one more dependency edge.
    pub proof fn lemma_reaches_extend(&self, u: int, a: int, b: int, k: nat)
        requires
            self.reaches_within(u, a, k),
            self.dep_edge(a, b),
        ensures
            self.reaches_within(u, b, (k + 1) as nat),
        decreases k,
    {
        if u == a {
            assert(self.reaches_within(b, b, k));
            assert(self.dep_edge(u, b) && self.reaches_within(b, b, k));
        } else {
            let m = choose|m: int|
                #[trigger] self.dep_edge(u, m) && self.reaches_within(m, a, (k - 1) as nat);
            self.lemma_reaches_extend(m, a, b, (k - 1) as nat);
            assert(self.dep_edge(u, m) && self.reaches_within(m, b, k));
        }
    }

    /// An ancestor's dependency is itself an ancestor.
    pub proof fn lemma_ancestor_step(&self, u: int, a: int, b: int)
        requires
            self.is_ancestor(u, a),
            self.dep_edge(a, b),
        ensures
            self.is_ancestor(u, b),
    {
        let k = choose|k: nat| self.reaches_within(u, a, k);
        self.lemma_reaches_extend(u, a, b, k);
    }

    /// A set that holds `u` and is closed under dependency edges holds every
    /// node reachable from `u`.
    pub proof fn lemma_reaches_in_closed(&self, u: int, m: int, k: nat, f: spec_fn(int) -> bool)
        requires
            f(u),
            forall|a: int, b: int| f(a) && #[trigger] self.dep_edge(a, b) ==> f(b),
            self.reaches_within(u, m, k),
        ensures
            f(m),
        decreases k,
    {
        if u == m {
        } else {
            let mid = choose|mid: int|
                #[trigger] self.dep_edge(u, mid) && self.reaches_within(mid, m, (k - 1) as nat);
            assert(f(mid));
            self.lemma_reaches_in_closed(mid, m, (k - 1) as nat, f);
        }
    }

    /// What the run phase guarantees of its visit log over the active `set`:
    /// the ordering half and the error half of the log model.
    pub open spec fn run_log_ok(&self, set: Seq<bool>, events: Seq<VisitResult>) -> bool {
        &&& set.len() == self.node_count()
        &&& crate::walkspec::log_order_ok(self, set, events)
        &&& crate::walkspec::log_err_ok(self, set, events)
    }

    /// The ordering half of the run log's guarantees, spelled out for
    /// callers: at most one visit per node, only set members, every visit
    /// after all of its in-set dependencies, and a run attempted only when
    /// those dependencies all succeeded.
    pub proof fn lemma_run_log_order(&self, set: Seq<bool>, events: Seq<VisitResult>)
        requires
            self.run_log_ok(set, events),
        ensures
            unique_nodes(events),
            forall|j: int|
                0 <= j < events.len() ==> (#[trigger] events[j]).node_idx < self.node_count()
                    && set[events[j].node_idx as int],
            forall|j: int, d: int|
                0 <= j < events.len() && #[trigger] self.dep_edge(events[j].node_idx as int, d)
                    && set[d] ==> exists|j2: int|
                    0 <= j2 < j && (#[trigger] events[j2]).node_idx as int == d,
            forall|j: int, j2: int|
                0 <= j < events.len() && 0 <= j2 < events.len() && events[j].attempted
                    && #[trigger] self.dep_edge(
                    events[j].node_idx as int,
                    events[j2].node_idx as int,
                ) && set[events[j2].node_idx as int] ==> events[j2].result is Ok,
    {
        crate::walkspec::lemma_order_clauses(self, set, events);
    }

    /// The error half of the run log's guarantees, spelled out for callers:
    /// a short-circuited visit republishes some failed dependency's error
    /// verbatim, every error originates in an attempted run that failed, and
    /// such an error carries the failing step's recorded name.
    pub proof fn lemma_run_log_errs(&self, set: Seq<bool>, events: Seq<VisitResult>)
        requires
            self.run_log_ok(set, events),
        ensures
            forall|j: int|
                0 <= j < events.len() && !(#[trigger] events[j]).attempted ==> events[j].result
                    is Err && (exists|j2: int|
                    0 <= j2 < j && self.dep_edge(
                        events[j].node_idx as int,
                        (#[trigger] events[j2]).node_idx as int,
                    ) && set[events[j2].node_idx as int] && events[j2].result
                        == events[j].result),
            forall|j: int|
                0 <= j < events.len() && (#[trigger] events[j]).result is Err ==> exists|j2: int|
                    0 <= j2 <= j && (#[trigger] events[j2]).attempted && events[j2].result
                        == events[j].result,
            forall|j: int|
                0 <= j < events.len() && (#[trigger] events[j]).attempted && events[j].result
                    is Err ==> events[j].result->Err_0.step_name@ == self.spec_name(
                    events[j].node_idx as int,
                ),
    {
        crate::walkspec::lemma_err_clauses(self, set, events);
    }

    /// The bookkeeping the walk keeps beside the log: `done` marks exactly
    /// the visited nodes, and `outcomes` records each visited node's
    /// published result.
    pub open spec fn run_link_ok(
        &self,
        events: Seq<VisitResult>,
        done: Seq<bool>,
        outcomes: Seq<Option<Result<(), StepError>>>,
    ) -> bool {
        &&& done.len() == self.node_count()
        &&& outcomes.len() == self.node_count()
        &&& (forall|m: int| 0 <= m < done.len() ==> ((#[trigger] done[m]) <==> has_event(events, m)))
        &&& (forall|m: int| 0 <= m < done.len() && !(#[trigger] done[m]) ==> outcomes[m] is None)
        &&& (forall|j: int|
            0 <= j < events.len() ==> outcomes[(#[trigger] events[j]).node_idx as int] == Some(
                events[j].result,
            ))
    }

    /// Converts a ready node's edge-list facts into dependency-relation
    /// form: its in-set dependencies are resolved, and when the scan saw no
    /// failure their recorded visits all succeeded.
    #[verifier::rlimit(100)]
    #[verifier::spinoff_prover]
    proof fn lemma_ready_form(
        &self,
        set: Seq<bool>,
        done: Seq<bool>,
        outcomes: Seq<Option<Result<(), StepError>>>,
        events: Seq<VisitResult>,
        nd: int,
        scan_ok: bool,
    )
        requires
            self.arrays_ok(),
            set.len() == self.node_count(),
            self.run_link_ok(events, done, outcomes),
            0 <= nd < self.node_count(),
            forall|jj: int|
                0 <= jj < self.edges_fwd@[nd]@.len()
                    && ((#[trigger] self.edges_fwd@[nd]@[jj]) as int) < set.len()
                    && set[self.edges_fwd@[nd]@[jj] as int]
                    ==> done[self.edges_fwd@[nd]@[jj] as int],
            scan_ok ==> (forall|j2: int|
                0 <= j2 < self.edges_fwd@[nd]@.len()
                    && set[(#[trigger] self.edges_fwd@[nd]@[j2]) as int]
                    ==> (outcomes[self.edges_fwd@[nd]@[j2] as int] matches Some(r) && r is Ok)),
        ensures
            forall|d: int| #[trigger] self.dep_edge(nd, d) && set[d] ==> done[d],
            scan_ok ==> (forall|j2: int|
                0 <= j2 < events.len() && #[trigger] self.dep_edge(
                    nd,
                    events[j2].node_idx as int,
                ) && set[events[j2].node_idx as int] ==> events[j2].result is Ok),
    {
        assert forall|d: int| #[trigger] self.dep_edge(nd, d) && set[d] implies done[d] by {
            let jd = choose|jd: int|
                0 <= jd < self.edges_fwd@[nd]@.len() && self.edges_fwd@[nd]@[jd] as int == d;
            assert(((#[trigger] self.edges_fwd@[nd]@[jd]) as int) < set.len());
        };
        if scan_ok {
            assert forall|j2: int|
                0 <= j2 < events.len() && #[trigger] self.dep_edge(
                    nd,
                    events[j2].node_idx as int,
                ) && set[events[j2].node_idx as int] implies events[j2].result is Ok by {
                let d = events[j2].node_idx as int;
                let jd = choose|jd: int|
                    0 <= jd < self.edges_fwd@[nd]@.len() && self.edges_fwd@[nd]@[jd] as int == d;
                assert(set[(#[trigger] self.edges_fwd@[nd]@[jd]) as int]);
                assert(outcomes[d] matches Some(r) && r is Ok);
                assert(outcomes[d] == Some(events[j2].result));
            };
        }
    }

    /// The bookkeeping stays linked to the log across one visit.
    #[verifier::rlimit(50)]
    #[verifier::spinoff_prover]
    proof fn lemma_link_push(
        &self,
        events: Seq<VisitResult>,
        done: Seq<bool>,
        outcomes: Seq<Option<Result<(), StepError>>>,
        ev: VisitResult,
    )
        requires
            self.run_link_ok(events, done, outcomes),
            forall|j: int|
                0 <= j < events.len() ==> (#[trigger] events[j]).node_idx < self.node_count(),
            (ev.node_idx as int) < self.node_count(),
            !has_event(events, ev.node_idx as int),
        ensures
            self.run_link_ok(
                events.push(ev),
                done.update(ev.node_idx as int, true),
                outcomes.update(ev.node_idx as int, Some(ev.result)),
            ),
    {
        let nd = ev.node_idx as int;
        let evs = events.push(ev);
        let li = events.len() as int;
        let done2 = done.update(nd, true);
        let outcomes2 = outcomes.update(nd, Some(ev.result));

        assert forall|m: int| 0 <= m < done2.len() implies ((#[trigger] done2[m]) <==> has_event(
            evs,
            m,
        )) by {
            lemma_has_event_push(events, ev, m);
        };

        assert forall|j: int| 0 <= j < evs.len() implies outcomes2[(
        #[trigger] evs[j]).node_idx as int] == Some(evs[j].result) by {
            if j < li {
                assert(evs[j] == events[j]);
                if evs[j].node_idx as int == nd {
                    assert(has_event(events, nd));
                }
            }
        };
    }
}

impl<S: steps::Step> StepGraph<S> {
    /// Every node's recorded name is its step's own name.
    pub open spec fn names_ok(&self) -> bool {
        forall|m: int|
            0 <= m < self.node_count() ==> #[trigger] self.spec_name(m)
                == self.step_at(m).spec_name()
    }

    /// Every attempted visit's outcome is the step's own doing: some run
    /// result the step's contract permits produced it, a success staying a
    /// success and a failure keeping the run's message.
    pub open spec fn run_results_ok(
        &self,
        workspace_spec: &config::WorkspaceConfig,
        instance_spec: &config::InstanceConfig,
        events: Seq<VisitResult>,
    ) -> bool {
        forall|j: int|
            0 <= j < events.len() && (#[trigger] events[j]).attempted ==> exists|
                rr: Result<(), String>,
            |
                {
                    &&& #[trigger] self.step_at(events[j].node_idx as int).run_post(
                        workspace_spec,
                        instance_spec,
                        rr,
                    )
                    &&& (rr is Ok <==> events[j].result is Ok)
                    &&& (rr is Err ==> events[j].result is Err && events[j].result->Err_0.msg
                        == rr->Err_0)
                }
    }

    /// Creates a new StepGraph.
    pub fn new() -> (g: StepGraph<S>)
        ensures
            g.wf(),
            g.node_count() == 0,
            g.names_ok(),
            forall|a: int, b: int| !(#[trigger] g.dep_edge(a, b)),
    {
        let steps = Vec::new();
        let names = Vec::new();
        let edges_fwd = Vec::new();
        let edges_rev = Vec::new();

        StepGraph { steps, names, edges_fwd, edges_rev }
    }

    /// Adds a new step as a node in the graph. Returns the ID of the node.
    /// Ids are assigned densely in insertion order; existing nodes, edges and
    /// names are untouched.
    pub fn add_node(&mut self, step: S) -> (id: usize)
        requires
            old(self).wf(),
        ensures
            final(self).wf(),
            id == old(self).node_count(),
            final(self).node_count() == old(self).node_count() + 1,
            forall|a: int, b: int|
                #[trigger] final(self).dep_edge(a, b) <==> old(self).dep_edge(a, b),
            forall|n: int|
                0 <= n < old(self).node_count()
                    ==> #[trigger] final(self).spec_name(n) == old(self).spec_name(n),
            forall|n: int|
                0 <= n < old(self).node_count()
                    ==> #[trigger] final(self).step_at(n) == old(self).step_at(n),
            final(self).step_at(id as int) == step,
            final(self).spec_name(id as int) == step.spec_name(),
            old(self).names_ok() ==> final(self).names_ok(),
    {
        let id = self.steps.len();
        let name = step.name();

        self.steps.push(step);
        self.names.push(name);
        self.edges_fwd.push(Vec::new());
        self.edges_rev.push(Vec::new());

        proof {
            assert forall|a: int, j: int|
                0 <= a < self.node_count() && 0 <= j < self.edges_fwd@[a]@.len() implies (
            #[trigger] self.edges_fwd@[a]@[j]) < self.node_count() by {
                if a < id {
                    assert(self.edges_fwd@[a] == old(self).edges_fwd@[a]);
                    assert(old(self).edges_fwd@[a]@[j] < old(self).node_count());
                } else {
                    assert(self.edges_fwd@[a]@.len() == 0);
                }
            };
            assert forall|a: int, j: int|
                0 <= a < self.node_count() && 0 <= j < self.edges_rev@[a]@.len() implies (
            #[trigger] self.edges_rev@[a]@[j]) < self.node_count() by {
                if a < id {
                    assert(self.edges_rev@[a] == old(self).edges_rev@[a]);
                    assert(old(self).edges_rev@[a]@[j] < old(self).node_count());
                } else {
                    assert(self.edges_rev@[a]@.len() == 0);
                }
            };
            assert forall|a: int, b: int|
                #[trigger] self.dep_edge(a, b) implies old(self).dep_edge(a, b) by {
                if self.dep_edge(a, b) {
                    if a < id {
                        assert(self.edges_fwd@[a] == old(self).edges_fwd@[a]);
                    } else {
                        assert(self.edges_fwd@[a]@.len() == 0);
                    }
                }
            };
            assert forall|a: int, b: int|
                old(self).dep_edge(a, b) implies #[trigger] self.dep_edge(a, b) by {
                assert(self.edges_fwd@[a] == old(self).edges_fwd@[a]);
            };
            assert forall|a: int, b: int|
                #![trigger adj_has(self.edges_fwd@[a]@, b)]
                #![trigger adj_has(self.edges_rev@[b]@, a)]
                0 <= a < self.node_count() && 0 <= b < self.node_count() implies (adj_has(
                self.edges_fwd@[a]@,
                b,
            ) <==> adj_has(self.edges_rev@[b]@, a)) by {
                if a < id && b < id {
                    assert(self.edges_fwd@[a] == old(self).edges_fwd@[a]);
                    assert(self.edges_rev@[b] == old(self).edges_rev@[b]);
                } else {
                    if a >= id {
                        assert(self.edges_fwd@[a]@.len() == 0);
                    }
                    if b >= id {
                        assert(self.edges_rev@[b]@.len() == 0);
                    }
                    if a < id {
                        assert(self.edges_fwd@[a] == old(self).edges_fwd@[a]);
                        assert(!adj_has(old(self).edges_fwd@[a]@, b));
                    }
                    if b < id {
                        assert(self.edges_rev@[b] == old(self).edges_rev@[b]);
                        assert(!adj_has(old(self).edges_rev@[b]@, a));
                    }
                }
            };

            if old(self).names_ok() {
                assert forall|m: int| 0 <= m < self.node_count() implies #[trigger] self.spec_name(
                    m,
                ) == self.step_at(m).spec_name() by {
                    if m < id {
                        assert(old(self).spec_name(m) == old(self).step_at(m).spec_name());
                        assert(self.names@[m] == old(self).names@[m]);
                        assert(self.steps@[m] == old(self).steps@[m]);
                    }
                };
            }
        }

        id
    }

    /// Adds an edge from one node to another node: `from` depends on `to`.
    /// Both adjacency lists are updated together. Passing an unknown node id
    /// is a programming error that would corrupt the graph's invariants, so
    /// the precondition rules it out.
    pub fn add_edge(&mut self, from: usize, to: usize)
        requires
            old(self).wf(),
            from < old(self).node_count(),
            to < old(self).node_count(),
        ensures
            final(self).wf(),
            final(self).node_count() == old(self).node_count(),
            forall|n: int|
                0 <= n < old(self).node_count()
                    ==> #[trigger] final(self).spec_name(n) == old(self).spec_name(n),
            forall|n: int|
                0 <= n < old(self).node_count()
                    ==> #[trigger] final(self).step_at(n) == old(self).step_at(n),
            old(self).names_ok() ==> final(self).names_ok(),
            forall|a: int, b: int|
                #[trigger] final(self).dep_edge(a, b)
                    <==> (old(self).dep_edge(a, b) || (a == from && b == to)),
    {
        self.edges_fwd[from].push(to);
        self.edges_rev[to].push(from);

        proof {
            let ghost ofwd = old(self).edges_fwd@[from as int]@;
            let ghost orev = old(self).edges_rev@[to as int]@;
            assert(self.edges_fwd@[from as int]@ =~= ofwd.push(to));
            assert(self.edges_rev@[to as int]@ =~= orev.push(from));

            assert forall|a: int, j: int|
                0 <= a < self.node_count() && 0 <= j < self.edges_fwd@[a]@.len() implies (
            #[trigger] self.edges_fwd@[a]@[j]) < self.node_count() by {
                if a == from {
                    if j < ofwd.len() {
                        assert(self.edges_fwd@[a]@[j] == ofwd[j]);
                        assert(old(self).edges_fwd@[a]@[j] < old(self).node_count());
                    } else {
                        assert(self.edges_fwd@[a]@[j] == to);
                    }
                } else {
                    assert(self.edges_fwd@[a] == old(self).edges_fwd@[a]);
                    assert(old(self).edges_fwd@[a]@[j] < old(self).node_count());
                }
            };
            assert forall|a: int, j: int|
                0 <= a < self.node_count() && 0 <= j < self.edges_rev@[a]@.len() implies (
            #[trigger] self.edges_rev@[a]@[j]) < self.node_count() by {
                if a == to {
                    if j < orev.len() {
                        assert(self.edges_rev@[a]@[j] == orev[j]);
                        assert(old(self).edges_rev@[a]@[j] < old(self).node_count());
                    } else {
                        assert(self.edges_rev@[a]@[j] == from);
                    }
                } else {
                    assert(self.edges_rev@[a] == old(self).edges_rev@[a]);
                    assert(old(self).edges_rev@[a]@[j] < old(self).node_count());
                }
            };

            assert forall|a: int, b: int|
                #![trigger adj_has(self.edges_fwd@[a]@, b)]
                0 <= a < self.node_count() && 0 <= b < self.node_count() implies (adj_has(
                self.edges_fwd@[a]@,
                b,
            ) <==> (adj_has(old(self).edges_fwd@[a]@, b) || (a == from && b == to))) by {
                if a == from {
                    if adj_has(self.edges_fwd@[a]@, b) {
                        let j = choose|j: int|
                            0 <= j < self.edges_fwd@[a]@.len() && self.edges_fwd@[a]@[j] as int
                                == b;
                        if j < ofwd.len() {
                            assert(ofwd[j] as int == b);
                        }
                    }
                    if adj_has(old(self).edges_fwd@[a]@, b) {
                        let j = choose|j: int| 0 <= j < ofwd.len() && ofwd[j] as int == b;
                        assert(self.edges_fwd@[a]@[j] as int == b);
                    }
                    if a == from && b == to {
                        assert(self.edges_fwd@[a]@[ofwd.len() as int] as int == b);
                    }
                } else {
                    assert(self.edges_fwd@[a] == old(self).edges_fwd@[a]);
                }
            };

            assert forall|a: int, b: int|
                #![trigger adj_has(self.edges_rev@[b]@, a)]
                0 <= a < self.node_count() && 0 <= b < self.node_count() implies (adj_has(
                self.edges_rev@[b]@,
                a,
            ) <==> (adj_has(old(self).edges_rev@[b]@, a) || (a == from && b == to))) by {
                if b == to {
                    if adj_has(self.edges_rev@[b]@, a) {
                        let j = choose|j: int|
                            0 <= j < self.edges_rev@[b]@.len() && self.edges_rev@[b]@[j] as int
                                == a;
                        if j < orev.len() {
                            assert(orev[j] as int == a);
                        }
                    }
                    if adj_has(old(self).edges_rev@[b]@, a) {
                        let j = choose|j: int| 0 <= j < orev.len() && orev[j] as int == a;
                        assert(self.edges_rev@[b]@[j] as int == a);
                    }
                    if a == from && b == to {
                        assert(self.edges_rev@[b]@[orev.len() as int] as int == a);
                    }
                } else {
                    assert(self.edges_rev@[b] == old(self).edges_rev@[b]);
                }
            };

            if old(self).names_ok() {
                assert forall|m: int| 0 <= m < self.node_count() implies #[trigger] self.spec_name(
                    m,
                ) == self.step_at(m).spec_name() by {
                    assert(old(self).spec_name(m) == old(self).step_at(m).spec_name());
                };
            }
        }
    }

    /// Scans a ready node's dependency list and returns the first failure
    /// received from an in-set dependency, if any.
    #[verifier::loop_isolation(false)]
    #[verifier::rlimit(100)]
    #[verifier::spinoff_prover]
    fn scan_deps(
        &self,
        set: &Vec<bool>,
        node_idx: usize,
        done: &Vec<bool>,
        outcomes: &Vec<Option<Result<(), StepError>>>,
        events: &Vec<VisitResult>,
    ) -> (failure: Option<StepError>)
        requires
            self.arrays_ok(),
            set@.len() == self.node_count(),
            self.run_link_ok(events@, done@, outcomes@),
            (node_idx as int) < self.node_count(),
            forall|jj: int|
                0 <= jj < self.edges_fwd@[node_idx as int]@.len()
                    && ((#[trigger] self.edges_fwd@[node_idx as int]@[jj]) as int) < set@.len()
                    && set@[self.edges_fwd@[node_idx as int]@[jj] as int]
                    ==> done@[self.edges_fwd@[node_idx as int]@[jj] as int],
        ensures
            failure is None ==> (forall|j2: int|
                0 <= j2 < self.edges_fwd@[node_idx as int]@.len()
                    && set@[(#[trigger] self.edges_fwd@[node_idx as int]@[j2]) as int]
                    ==> (outcomes@[self.edges_fwd@[node_idx as int]@[j2] as int] matches Some(r)
                    && r is Ok)),
            failure matches Some(e) ==> (exists|j2: int|
                0 <= j2 < events@.len() && self.dep_edge(
                    node_idx as int,
                    (#[trigger] events@[j2]).node_idx as int,
                ) && set@[events@[j2].node_idx as int] && events@[j2].result == Err::<
                    (),
                    StepError,
                >(e)),
    {
        let nd = node_idx;
        let n = set.len();
        let deg = self.edges_fwd[nd].len();
        let mut j: usize = 0;
        let mut failure: Option<StepError> = None;
        while j < deg
            invariant
                j <= deg,
                deg == self.edges_fwd@[nd as int]@.len(),
                failure is None ==> (forall|j2: int|
                    0 <= j2 < j && set@[(#[trigger] self.edges_fwd@[nd as int]@[j2]) as int]
                        ==> (outcomes@[self.edges_fwd@[nd as int]@[j2] as int] matches Some(r)
                        && r is Ok)),
                failure matches Some(e) ==> (exists|j2: int|
                    0 <= j2 < events@.len() && self.dep_edge(
                        nd as int,
                        (#[trigger] events@[j2]).node_idx as int,
                    ) && set@[events@[j2].node_idx as int] && events@[j2].result == Err::<
                        (),
                        StepError,
                    >(e)),
            decreases deg - j,
        {
            let t = self.edges_fwd[nd][j];
            proof {
                assert(self.edges_fwd@[nd as int]@[j as int] == t);
                assert((t as int) < n);
            }
            if set[t] {
                proof {
                    assert(done@[t as int]);
                }
                if failure.is_none() {
                    match &outcomes[t] {
                        Some(r) => {
                            match r {
                                Ok(_) => {},
                                Err(e) => {
                                    proof {
                                        let jt = choose|jt: int|
                                            0 <= jt < events@.len() && events@[jt].node_idx as int
                                                == t as int;
                                        assert(outcomes@[t as int] == Some(events@[jt].result));
                                        assert(adj_has(self.edges_fwd@[nd as int]@, t as int));
                                        assert(self.dep_edge(nd as int, t as int));
                                        assert(events@[jt].result == Err::<(), StepError>(*e));
                                    }
                                    failure = Some(e.duplicate());
                                },
                            }
                        },
                        None => {
                            proof {
                                assert(false);
                            }
                        },
                    }
                }
            }
            j += 1;
        }
        failure
    }

    /// Records one visit: appends its event, stores its outcome and marks the
    /// node resolved, preserving all of the walk's guarantees.
    #[verifier::rlimit(100)]
    #[verifier::spinoff_prover]
    fn publish(
        &self,
        set: &Vec<bool>,
        node_idx: usize,
        attempted: bool,
        result: Result<(), StepError>,
        done: &mut Vec<bool>,
        outcomes: &mut Vec<Option<Result<(), StepError>>>,
        events: &mut Vec<VisitResult>,
    )
        requires
            set@.len() == self.node_count(),
            self.run_log_ok(set@, old(events)@),
            self.run_link_ok(old(events)@, old(done)@, old(outcomes)@),
            (node_idx as int) < self.node_count(),
            set@[node_idx as int],
            !old(done)@[node_idx as int],
            forall|d: int|
                #[trigger] self.dep_edge(node_idx as int, d) && set@[d] ==> old(done)@[d],
            attempted ==> (forall|j2: int|
                0 <= j2 < old(events)@.len() && #[trigger] self.dep_edge(
                    node_idx as int,
                    old(events)@[j2].node_idx as int,
                ) && set@[old(events)@[j2].node_idx as int] ==> old(events)@[j2].result is Ok),
            !attempted ==> result is Err && (exists|j2: int|
                0 <= j2 < old(events)@.len() && self.dep_edge(
                    node_idx as int,
                    (#[trigger] old(events)@[j2]).node_idx as int,
                ) && set@[old(events)@[j2].node_idx as int] && old(events)@[j2].result == result),
            attempted && result is Err ==> result->Err_0.step_name@ == self.spec_name(
                node_idx as int,
            ),
        ensures
            self.run_log_ok(set@, final(events)@),
            self.run_link_ok(final(events)@, final(done)@, final(outcomes)@),
            final(done)@ == old(done)@.update(node_idx as int, true),
            final(events)@ == old(events)@.push(
                (VisitResult { node_idx, attempted, result }),
            ),
            final(events)@.len() == old(events)@.len() + 1,
    {
        let nd = node_idx;
        let ghost events_old = events@;
        let ghost done_old = done@;
        let ghost outcomes_old = outcomes@;
        let ghost result_g = result;
        let ghost attempted_g = attempted;

        let stored = duplicate_result(&result);

        proof {
            let ev = VisitResult { node_idx: nd, attempted: attempted_g, result: result_g };
            assert(!has_event(events_old, nd as int));
            assert forall|d: int| #[trigger] self.dep_edge(nd as int, d) && set@[d] implies
                has_event(events_old, d) by {
                assert(done_old[d]);
            };
            crate::walkspec::lemma_push_order_bundle(self, set@, events_old, ev);
            crate::walkspec::lemma_push_err_bundle(self, set@, events_old, ev);
            crate::walkspec::lemma_log_members(self, set@, events_old);
            self.lemma_link_push(events_old, done_old, outcomes_old, ev);
        }

        events.push(VisitResult { node_idx: nd, attempted, result });
        outcomes[nd] = Some(stored);
        done[nd] = true;

        proof {
            let ev = VisitResult { node_idx: nd, attempted: attempted_g, result: result_g };
            assert(events@ == events_old.push(ev));
            assert(done@ == done_old.update(nd as int, true));
            assert(outcomes@ == outcomes_old.update(nd as int, Some(ev.result)));
        }
    }

    /// Visits one ready node of the active set during the run phase: waits
    /// on nothing (its in-set dependencies are already resolved), publishes a
    /// first-received dependency failure without running the step, and
    /// otherwise invokes the step's run and publishes its outcome.
    #[verifier::rlimit(100)]
    #[verifier::spinoff_prover]
    fn visit(
        &self,
        workspace_spec: &config::WorkspaceConfig,
        instance_spec: &config::InstanceConfig,
        set: &Vec<bool>,
        node_idx: usize,
        done: &mut Vec<bool>,
        outcomes: &mut Vec<Option<Result<(), StepError>>>,
        events: &mut Vec<VisitResult>,
    )
        requires
            self.arrays_ok(),
            set@.len() == self.node_count(),
            self.run_log_ok(set@, old(events)@),
            self.run_link_ok(old(events)@, old(done)@, old(outcomes)@),
            (node_idx as int) < self.node_count(),
            set@[node_idx as int],
            !old(done)@[node_idx as int],
            self.run_results_ok(workspace_spec, instance_spec, old(events)@),
            forall|jj: int|
                0 <= jj < self.edges_fwd@[node_idx as int]@.len()
                    && ((#[trigger] self.edges_fwd@[node_idx as int]@[jj]) as int) < set@.len()
                    && set@[self.edges_fwd@[node_idx as int]@[jj] as int]
                    ==> old(done)@[self.edges_fwd@[node_idx as int]@[jj] as int],
        ensures
            self.run_log_ok(set@, final(events)@),
            self.run_link_ok(final(events)@, final(done)@, final(outcomes)@),
            self.run_results_ok(workspace_spec, instance_spec, final(events)@),
            final(done)@ == old(done)@.update(node_idx as int, true),
            final(events)@.len() == old(events)@.len() + 1,
    {
        let nd = node_idx;

        let failure = self.scan_deps(set, nd, done, outcomes, events);

        let result: Result<(), StepError>;
        let attempted: bool;
        match failure {
            Some(e) => {
                attempted = false;
                result = Err(e);
            },
            None => {
                attempted = true;
                let step = &self.steps[nd];
                let run_result = step.run(workspace_spec, instance_spec);
                let ghost run_result_g = run_result;
                proof {
                    assert(self.step_at(nd as int).run_post(
                        workspace_spec,
                        instance_spec,
                        run_result_g,
                    ));
                }
                match run_result {
                    Ok(_) => {
                        result = Ok(());
                    },
                    Err(msg) => {
                        result = Err(StepError { step_name: self.names[nd].clone(), msg });
                        proof {
                            assert(result->Err_0.step_name@ == self.names@[nd as int]@);
                        }
                    },
                }
                proof {
                    // the published outcome is the run's own: equal success,
                    // and a failure keeps the run's message
                    assert(exists|rr: Result<(), String>|
                        #[trigger] self.step_at(nd as int).run_post(
                            workspace_spec,
                            instance_spec,
                            rr,
                        ) && (rr is Ok <==> result is Ok) && (rr is Err ==> result is Err
                            && result->Err_0.msg == rr->Err_0));
                }
            },
        }

        let ghost result_g = result;
        let ghost attempted_g = attempted;

        proof {
            self.lemma_ready_form(set@, done@, outcomes@, events@, nd as int, attempted);
        }

        self.publish(set, nd, attempted, result, done, outcomes, events);

        proof {
            let evs = events@;
            let li = evs.len() - 1;
            assert forall|j: int|
                0 <= j < evs.len() && (#[trigger] evs[j]).attempted implies exists|
                rr: Result<(), String>,
            |
                {
                    &&& #[trigger] self.step_at(evs[j].node_idx as int).run_post(
                        workspace_spec,
                        instance_spec,
                        rr,
                    )
                    &&& (rr is Ok <==> evs[j].result is Ok)
                    &&& (rr is Err ==> evs[j].result is Err && evs[j].result->Err_0.msg
                        == rr->Err_0)
                } by {
                if j < li {
                    assert(evs[j] == old(events)@[j]);
                    let rr = choose|rr: Result<(), String>|
                        {
                            &&& #[trigger] self.step_at(old(events)@[j].node_idx as int).run_post(
                                workspace_spec,
                                instance_spec,
                                rr,
                            )
                            &&& (rr is Ok <==> old(events)@[j].result is Ok)
                            &&& (rr is Err ==> old(events)@[j].result is Err
                                && old(events)@[j].result->Err_0.msg == rr->Err_0)
                        };
                    assert(self.step_at(evs[j].node_idx as int).run_post(
                        workspace_spec,
                        instance_spec,
                        rr,
                    ));
                } else {
                    assert(evs[j] == (VisitResult {
                        node_idx: nd,
                        attempted: attempted_g,
                        result: result_g,
                    }));
                    let rr = choose|rr: Result<(), String>|
                        #[trigger] self.step_at(nd as int).run_post(
                            workspace_spec,
                            instance_spec,
                            rr,
                        ) && (rr is Ok <==> result_g is Ok) && (rr is Err ==> result_g is Err
                            && result_g->Err_0.msg == rr->Err_0);
                    assert(self.step_at(evs[j].node_idx as int).run_post(
                        workspace_spec,
                        instance_spec,
                        rr,
                    ));
                }
            };
        }
    }

    /// One sweep of the run phase over the active set. Every set member is
    /// visited exactly once, a node only after every set member it depends
    /// on; the step's run is invoked only when all those dependencies
    /// succeeded, and a dependency failure is otherwise republished verbatim
    /// without running the step.
    #[verifier::loop_isolation(false)]
    #[verifier::rlimit(100)]
    #[verifier::spinoff_prover]
    fn walk_run(
        &self,
        workspace_spec: &config::WorkspaceConfig,
        instance_spec: &config::InstanceConfig,
        set: &Vec<bool>,
    ) -> (events: Vec<VisitResult>)
        requires
            self.wf(),
            set@.len() == self.node_count(),
            self.acyclic(),
        ensures
            self.run_log_ok(set@, events@),
            self.run_results_ok(workspace_spec, instance_spec, events@),
            forall|m: int| 0 <= m < self.node_count() && set@[m] ==> has_event(events@, m),
    {
        let n = self.steps.len();
        let mut done = vec_false(n);
        let mut outcomes: Vec<Option<Result<(), StepError>>> = vec_none(n);
        let mut events: Vec<VisitResult> = Vec::new();

        proof {
            lemma_count_true_le(done@);
            crate::walkspec::lemma_log_empty(self, set@);
        }

        let mut ready = find_ready(&self.edges_fwd, set, &done);

        while ready.is_some()
            invariant
                count_true(done@) <= n,
                done@.len() == n,
                self.run_log_ok(set@, events@),
                self.run_link_ok(events@, done@, outcomes@),
                self.run_results_ok(workspace_spec, instance_spec, events@),
                ready matches Some(nd) ==> (nd as int) < n && set@[nd as int] && !done@[nd as int]
                    && (forall|jj: int|
                    0 <= jj < self.edges_fwd@[nd as int]@.len()
                        && ((#[trigger] self.edges_fwd@[nd as int]@[jj]) as int) < n
                        && set@[self.edges_fwd@[nd as int]@[jj] as int]
                        ==> done@[self.edges_fwd@[nd as int]@[jj] as int]),
                ready is None ==> (forall|m: int|
                    0 <= m < n && set@[m] && !(#[trigger] done@[m]) ==> exists|jj: int|
                        0 <= jj < self.edges_fwd@[m]@.len()
                            && ((#[trigger] self.edges_fwd@[m]@[jj]) as int) < n
                            && set@[self.edges_fwd@[m]@[jj] as int]
                            && !done@[self.edges_fwd@[m]@[jj] as int]),
            decreases n - count_true(done@),
        {
            let nd = ready.unwrap();
            let ghost done_old = done@;

            self.visit(workspace_spec, instance_spec, set, nd, &mut done, &mut outcomes, &mut events);

            proof {
                lemma_count_true_update(done_old, nd as int);
                lemma_count_true_le(done@);
            }

            ready = find_ready(&self.edges_fwd, set, &done);
        }

        proof {
            let rank = choose|rank: Seq<nat>| self.rank_ok(rank);
            let u = |x: int| 0 <= x < n && set@[x] && !done@[x];
            assert forall|x: int| #[trigger] u(x) implies exists|y: int|
                #[trigger] u(y) && rank[y] < rank[x] by {
                let jj = choose|jj: int|
                    0 <= jj < self.edges_fwd@[x]@.len()
                        && ((#[trigger] self.edges_fwd@[x]@[jj]) as int) < n
                        && set@[self.edges_fwd@[x]@[jj] as int]
                        && !done@[self.edges_fwd@[x]@[jj] as int];
                let y = self.edges_fwd@[x]@[jj] as int;
                assert(adj_has(self.edges_fwd@[x]@, y));
                assert(self.dep_edge(x, y));
                assert(u(y));
            };
            lemma_descent_empty(u, rank);
            assert forall|m: int| 0 <= m < self.node_count() && set@[m] implies has_event(
                events@,
                m,
            ) by {
                assert(!u(m));
            };
        }

        events
    }

    /// One sweep of the cleanup phase over the visited set. Every member's
    /// cleanup is invoked exactly once, a node only after every member that
    /// depends on it, so teardown runs in the reverse of dependency order.
    /// Cleanup outcomes are discarded: the steps' cleanups return nothing.
    #[verifier::loop_isolation(false)]
    #[verifier::rlimit(100)]
    #[verifier::spinoff_prover]
    fn walk_cleanup(
        &self,
        workspace_spec: &config::WorkspaceConfig,
        instance_spec: &config::InstanceConfig,
        set: &Vec<bool>,
    ) -> (order: Vec<usize>)
        requires
            self.wf(),
            set@.len() == self.node_count(),
            self.acyclic(),
        ensures
            forall|j: int|
                0 <= j < order@.len() ==> (#[trigger] order@[j]) < self.node_count()
                    && set@[order@[j] as int],
            forall|j1: int, j2: int|
                0 <= j1 < j2 < order@.len() ==> (#[trigger] order@[j1]) != (#[trigger] order@[j2]),
            forall|m: int| 0 <= m < self.node_count() && set@[m] ==> order_has(order@, m),
            forall|j: int, a: int|
                0 <= j < order@.len() && #[trigger] self.dep_edge(a, order@[j] as int) && set@[a]
                    ==> exists|j2: int| 0 <= j2 < j && (#[trigger] order@[j2]) as int == a,
    {
        let n = self.steps.len();
        let mut done = vec_false(n);
        let mut order: Vec<usize> = Vec::new();

        proof {
            lemma_count_true_le(done@);
        }

        let mut ready = find_ready(&self.edges_rev, set, &done);

        while ready.is_some()
            invariant
                count_true(done@) <= n,
                done@.len() == n,
                forall|j: int|
                    0 <= j < order@.len() ==> (#[trigger] order@[j]) < n && set@[order@[j] as int],
                forall|j1: int, j2: int|
                    0 <= j1 < j2 < order@.len() ==> (#[trigger] order@[j1]) != (
                    #[trigger] order@[j2]),
                forall|m: int| 0 <= m < n ==> ((#[trigger] done@[m]) <==> order_has(order@, m)),
                forall|j: int, a: int|
                    0 <= j < order@.len() && #[trigger] self.dep_edge(a, order@[j] as int)
                        && set@[a] ==> exists|j2: int|
                        0 <= j2 < j && (#[trigger] order@[j2]) as int == a,
                ready matches Some(nd) ==> (nd as int) < n && set@[nd as int] && !done@[nd as int]
                    && (forall|jj: int|
                    0 <= jj < self.edges_rev@[nd as int]@.len()
                        && ((#[trigger] self.edges_rev@[nd as int]@[jj]) as int) < n
                        && set@[self.edges_rev@[nd as int]@[jj] as int]
                        ==> done@[self.edges_rev@[nd as int]@[jj] as int]),
                ready is None ==> (forall|m: int|
                    0 <= m < n && set@[m] && !(#[trigger] done@[m]) ==> exists|jj: int|
                        0 <= jj < self.edges_rev@[m]@.len()
                            && ((#[trigger] self.edges_rev@[m]@[jj]) as int) < n
                            && set@[self.edges_rev@[m]@[jj] as int]
                            && !done@[self.edges_rev@[m]@[jj] as int]),
            decreases n - count_true(done@),
        {
            let nd = ready.unwrap();

            let step = &self.steps[nd];
            step.cleanup(workspace_spec, instance_spec);

            let ghost order_old = order@;
            let ghost done_old = done@;

            order.push(nd);
            done[nd] = true;

            proof {
                lemma_count_true_update(done_old, nd as int);
                lemma_count_true_le(done@);

                assert(order@[order_old.len() as int] == nd);
                assert(order_has(order@, nd as int));
                assert forall|m: int| order_has(order_old, m) implies order_has(order@, m) by {
                    let j2 = choose|j2: int|
                        0 <= j2 < order_old.len() && order_old[j2] as int == m;
                    assert(order@[j2] as int == m);
                };
                assert forall|m: int| 0 <= m < n implies ((#[trigger] done@[m]) <==> order_has(
                    order@,
                    m,
                )) by {
                    if order_has(order@, m) {
                        let j2 = choose|j2: int| 0 <= j2 < order@.len() && order@[j2] as int == m;
                        if j2 < order_old.len() {
                            assert(order_has(order_old, m));
                        }
                    }
                };
                assert forall|j1: int, j2: int| 0 <= j1 < j2 < order@.len() implies (
                #[trigger] order@[j1]) != (#[trigger] order@[j2]) by {
                    if j2 == order_old.len() {
                        if order@[j1] == nd {
                            assert(order_old[j1] as int == nd as int);
                            assert(order_has(order_old, nd as int));
                        }
                    }
                };
                // the new entry's in-set dependents were all cleaned earlier:
                // a dependent appears in nd's reverse adjacency list
                assert forall|a: int| #[trigger] self.dep_edge(a, nd as int) && set@[a] implies (
                exists|j2: int|
                    0 <= j2 < order_old.len() && (#[trigger] order_old[j2]) as int == a) by {
                    assert(adj_has(self.edges_fwd@[a]@, nd as int));
                    assert(adj_has(self.edges_rev@[nd as int]@, a));
                    let jr = choose|jr: int|
                        0 <= jr < self.edges_rev@[nd as int]@.len()
                            && self.edges_rev@[nd as int]@[jr] as int == a;
                    assert(((#[trigger] self.edges_rev@[nd as int]@[jr]) as int) < n);
                    assert(done_old[a]);
                    assert(order_has(order_old, a));
                    let j2 = choose|j2: int|
                        0 <= j2 < order_old.len() && order_old[j2] as int == a;
                    assert((#[trigger] order_old[j2]) as int == a);
                };
                assert forall|j: int, a: int|
                    0 <= j < order@.len() && #[trigger] self.dep_edge(a, order@[j] as int)
                        && set@[a] implies exists|j2: int|
                    0 <= j2 < j && (#[trigger] order@[j2]) as int == a by {
                    if j < order_old.len() {
                        assert(order@[j] == order_old[j]);
                        let j2 = choose|j2: int|
                            0 <= j2 < j && (#[trigger] order_old[j2]) as int == a;
                        assert(order@[j2] as int == a);
                    } else {
                        let j2 = choose|j2: int|
                            0 <= j2 < order_old.len() && (#[trigger] order_old[j2]) as int == a;
                        assert(order@[j2] as int == a);
                    }
                };
            }

            ready = find_ready(&self.edges_rev, set, &done);
        }

        proof {
            let rank = choose|rank: Seq<nat>| self.rank_ok(rank);
            let rev_rank = Seq::<nat>::new(rank.len(), |i: int| (n - rank[i]) as nat);
            let u = |x: int| 0 <= x < n && set@[x] && !done@[x];
            assert forall|x: int| #[trigger] u(x) implies exists|y: int|
                #[trigger] u(y) && rev_rank[y] < rev_rank[x] by {
                let jj = choose|jj: int|
                    0 <= jj < self.edges_rev@[x]@.len()
                        && ((#[trigger] self.edges_rev@[x]@[jj]) as int) < n
                        && set@[self.edges_rev@[x]@[jj] as int]
                        && !done@[self.edges_rev@[x]@[jj] as int];
                let y = self.edges_rev@[x]@[jj] as int;
                assert(adj_has(self.edges_rev@[x]@, y));
                assert(adj_has(self.edges_fwd@[y]@, x));
                assert(self.dep_edge(y, x));
                assert(rank[x] < rank[y]);
                assert(u(y));
            };
            lemma_descent_empty(u, rev_rank);
            assert forall|m: int| 0 <= m < self.node_count() && set@[m] implies order_has(
                order@,
                m,
            ) by {
                assert(!u(m));
            };
        }

        order
    }

    /// Executes a walk through the graph over all points that can reach
    /// `until`. The run phase visits exactly the ancestors of `until` in
    /// dependency order, short-circuiting on dependency failures; the
    /// cleanup phase then visits the same nodes in reverse dependency order
    /// whatever the run phase's outcome; and the returned trace carries the
    /// run-phase outcome of `until` itself, untouched by cleanup.
    #[verifier::rlimit(100)]
    #[verifier::spinoff_prover]
    pub fn run_trace(
        &self,
        workspace_spec: &config::WorkspaceConfig,
        instance_spec: &config::InstanceConfig,
        until: usize,
    ) -> (t: RunTrace)
        requires
            self.wf(),
            (until as int) < self.node_count(),
            self.acyclic(),
        ensures
            self.run_log_ok(self.ancestors_of(until as int), t.run_events@),
            forall|m: int|
                0 <= m < self.node_count() ==> ((#[trigger] has_event(t.run_events@, m))
                    <==> self.is_ancestor(until as int, m)),
            forall|j: int|
                0 <= j < t.cleanup_order@.len() ==> (#[trigger] t.cleanup_order@[j])
                    < self.node_count(),
            forall|j1: int, j2: int|
                0 <= j1 < j2 < t.cleanup_order@.len() ==> (#[trigger] t.cleanup_order@[j1]) != (
                #[trigger] t.cleanup_order@[j2]),
            forall|m: int|
                0 <= m < self.node_count() ==> ((#[trigger] order_has(t.cleanup_order@, m))
                    <==> self.is_ancestor(until as int, m)),
            forall|j: int, a: int|
                0 <= j < t.cleanup_order@.len() && #[trigger] self.dep_edge(
                    a,
                    t.cleanup_order@[j] as int,
                ) && self.is_ancestor(until as int, a) ==> exists|j2: int|
                    0 <= j2 < j && (#[trigger] t.cleanup_order@[j2]) as int == a,
            has_event(t.run_events@, until as int),
            t.result == event_for(t.run_events@, until as int).result,
            t.result matches Err(e) ==> (exists|j: int|
                0 <= j < t.run_events@.len() && (#[trigger] t.run_events@[j]).attempted
                    && t.run_events@[j].result == t.result && (t.run_events@[j].node_idx as int)
                    < self.node_count() && self.is_ancestor(
                    until as int,
                    t.run_events@[j].node_idx as int,
                ) && e.step_name@ == self.spec_name(t.run_events@[j].node_idx as int)),
            (forall|j: int|
                0 <= j < t.run_events@.len() && (#[trigger] t.run_events@[j]).attempted
                    ==> t.run_events@[j].result is Ok) ==> t.result is Ok,
            self.run_results_ok(workspace_spec, instance_spec, t.run_events@),
            (forall|m: int, rr: Result<(), String>|
                0 <= m < self.node_count() && self.is_ancestor(until as int, m)
                    && #[trigger] self.step_at(m).run_post(workspace_spec, instance_spec, rr)
                    ==> rr is Ok) ==> t.result is Ok,
            forall|j: int|
                0 <= j < t.run_events@.len() && (#[trigger] t.run_events@[j]).result is Err
                    ==> t.result is Err,
    {
        let set = self.build_node_set(until);
        proof {
            assert(set@ =~= self.ancestors_of(until as int));
        }

        let run_events = self.walk_run(workspace_spec, instance_spec, &set);

        proof {
            crate::walkspec::lemma_log_members(self, set@, run_events@);
            crate::walkspec::lemma_log_unique(self, set@, run_events@);
            assert forall|m: int| 0 <= m < self.node_count() implies ((#[trigger] has_event(
                run_events@,
                m,
            )) <==> self.is_ancestor(until as int, m)) by {
                if has_event(run_events@, m) {
                    let j = choose|j: int|
                        0 <= j < run_events@.len() && run_events@[j].node_idx as int == m;
                    assert(set@[m]);
                }
            };
        }

        // cleanup is driven by the nodes the run phase actually visited
        let visited = visited_mask(&run_events, self.steps.len());
        proof {
            assert(visited@ =~= set@);
        }

        let cleanup_order = self.walk_cleanup(workspace_spec, instance_spec, &visited);

        proof {
            assert(self.reaches_within(until as int, until as int, 0));
            assert(set@[until as int]);
        }

        let result = result_for(&run_events, until);

        proof {
            if result is Err {
                crate::walkspec::lemma_terminal_failure(self, set@, run_events@, until as int);
                // a failing outcome refutes the hypothesis that every
                // ancestor's run contract forces success: the failure's
                // origin is an attempted ancestor whose own run failed
                let j = choose|j: int|
                    0 <= j < run_events@.len() && (#[trigger] run_events@[j]).attempted
                        && run_events@[j].result == event_for(run_events@, until as int).result
                        && (run_events@[j].node_idx as int) < self.node_count()
                        && set@[run_events@[j].node_idx as int] && event_for(
                        run_events@,
                        until as int,
                    ).result->Err_0.step_name@ == self.spec_name(run_events@[j].node_idx as int);
                let rr = choose|rr: Result<(), String>|
                    {
                        &&& #[trigger] self.step_at(run_events@[j].node_idx as int).run_post(
                            workspace_spec,
                            instance_spec,
                            rr,
                        )
                        &&& (rr is Ok <==> run_events@[j].result is Ok)
                        &&& (rr is Err ==> run_events@[j].result is Err
                            && run_events@[j].result->Err_0.msg == rr->Err_0)
                    };
                assert(rr is Err);
                assert(self.is_ancestor(until as int, run_events@[j].node_idx as int));
                if (forall|m: int, rr2: Result<(), String>|
                    0 <= m < self.node_count() && self.is_ancestor(until as int, m)
                        && #[trigger] self.step_at(m).run_post(workspace_spec, instance_spec, rr2)
                        ==> rr2 is Ok) {
                    assert(rr is Ok);
                }
            }

            // the ancestor set is closed under dependencies, so any failed
            // visit's error climbs every chain back to the terminal
            assert forall|a: int, b: int|
                0 <= a < self.node_count() && set@[a] && #[trigger] self.dep_edge(a, b) implies
                set@[b] by {
                self.lemma_ancestor_step(until as int, a, b);
                self.lemma_dep_edge_range(a, b);
            };
            assert forall|j: int|
                0 <= j < run_events@.len() && (#[trigger] run_events@[j]).result is Err implies
                result is Err by {
                let x = run_events@[j].node_idx as int;
                lemma_event_for_index(run_events@, j);
                assert(set@[x]);
                let k = choose|k: nat| self.reaches_within(until as int, x, k);
                crate::walkspec::lemma_failure_propagates(
                    self,
                    set@,
                    run_events@,
                    until as int,
                    x,
                    k,
                );
            };
        }

        RunTrace { run_events, cleanup_order, result }
    }

    /// Executes a walk through the graph over all points that can reach
    /// `until`: runs every ancestor of `until` in dependency order, cleans
    /// all of them up in reverse order, and returns `until`'s own run-phase
    /// outcome. A failure is the verbatim error of some ancestor whose own
    /// run failed, stamped with that step's recorded name and carrying the
    /// run's message; when every ancestor's run contract forces success the
    /// walk succeeds, and when any ancestor's forces failure it fails.
    pub fn run(
        &self,
        workspace_spec: &config::WorkspaceConfig,
        instance_spec: &config::InstanceConfig,
        until: usize,
    ) -> (r: Result<(), StepError>)
        requires
            self.wf(),
            (until as int) < self.node_count(),
            self.acyclic(),
        ensures
            r matches Err(e) ==> (exists|m: int|
                0 <= m < self.node_count() && self.is_ancestor(until as int, m) && e.step_name@
                    == #[trigger] self.spec_name(m) && (exists|rr: Result<(), String>|
                    #[trigger] self.step_at(m).run_post(workspace_spec, instance_spec, rr) && rr
                        is Err && e.msg == rr->Err_0)),
            (forall|m: int, rr: Result<(), String>|
                0 <= m < self.node_count() && self.is_ancestor(until as int, m)
                    && #[trigger] self.step_at(m).run_post(workspace_spec, instance_spec, rr)
                    ==> rr is Ok) ==> r is Ok,
            (exists|m: int|
                0 <= m < self.node_count() && #[trigger] self.is_ancestor(until as int, m) && (
                forall|rr: Result<(), String>|
                    #[trigger] self.step_at(m).run_post(workspace_spec, instance_spec, rr)
                        ==> rr is Err)) ==> r is Err,
    {
        let t = self.run_trace(workspace_spec, instance_spec, until);
        proof {
            if (exists|m: int|
                0 <= m < self.node_count() && #[trigger] self.is_ancestor(until as int, m) && (
                forall|rr: Result<(), String>|
                    #[trigger] self.step_at(m).run_post(workspace_spec, instance_spec, rr)
                        ==> rr is Err)) {
                // a step whose run contract forces failure makes the whole
                // execution fail: its visit either ran and failed, or was
                // itself short-circuited by another failure
                let m = choose|m: int|
                    0 <= m < self.node_count() && #[trigger] self.is_ancestor(until as int, m)
                        && (forall|rr: Result<(), String>|
                        #[trigger] self.step_at(m).run_post(workspace_spec, instance_spec, rr)
                            ==> rr is Err);
                assert(has_event(t.run_events@, m));
                self.lemma_run_log_order(self.ancestors_of(until as int), t.run_events@);
                self.lemma_run_log_errs(self.ancestors_of(until as int), t.run_events@);
                let j = event_index(t.run_events@, m);
                assert(0 <= j < t.run_events@.len() && t.run_events@[j].node_idx as int == m);
                if t.run_events@[j].attempted {
                    let rr = choose|rr: Result<(), String>|
                        {
                            &&& #[trigger] self.step_at(m).run_post(
                                workspace_spec,
                                instance_spec,
                                rr,
                            )
                            &&& (rr is Ok <==> t.run_events@[j].result is Ok)
                            &&& (rr is Err ==> t.run_events@[j].result is Err
                                && t.run_events@[j].result->Err_0.msg == rr->Err_0)
                        };
                    assert(rr is Err);
                }
                assert(t.run_events@[j].result is Err);
            }
            if t.result is Err {
                // the trace names the failing ancestor; its outcome was its
                // own run's, so the run's contract admits that failure
                let j = choose|j: int|
                    0 <= j < t.run_events@.len() && (#[trigger] t.run_events@[j]).attempted
                        && t.run_events@[j].result == t.result
                        && (t.run_events@[j].node_idx as int) < self.node_count()
                        && self.is_ancestor(until as int, t.run_events@[j].node_idx as int)
                        && t.result->Err_0.step_name@ == self.spec_name(
                        t.run_events@[j].node_idx as int,
                    );
                let m = t.run_events@[j].node_idx as int;
                let rr = choose|rr: Result<(), String>|
                    {
                        &&& #[trigger] self.step_at(m).run_post(workspace_spec, instance_spec, rr)
                        &&& (rr is Ok <==> t.run_events@[j].result is Ok)
                        &&& (rr is Err ==> t.run_events@[j].result is Err
                            && t.run_events@[j].result->Err_0.msg == rr->Err_0)
                    };
                assert(rr is Err);
                assert(t.result->Err_0.msg == rr->Err_0);
                assert(0 <= m < self.node_count() && self.is_ancestor(until as int, m)
                    && t.result->Err_0.step_name@ == self.spec_name(m));
            }
        }
        t.result
    }

    /// Collects the ancestor set of `node`: every node reachable from it over
    /// dependency edges, `node` itself included. Entry `m` of the mask holds
    /// exactly when `m` is a member.
    pub fn build_node_set(&self, node: usize) -> (mask: Vec<bool>)
        requires
            self.wf(),
            node < self.node_count(),
        ensures
            mask@.len() == self.node_count(),
            forall|m: int|
                0 <= m < self.node_count()
                    ==> ((#[trigger] mask@[m]) <==> self.is_ancestor(node as int, m)),
    {
        let n = self.steps.len();
        let mut mask = vec_false(n);
        let mut stack: Vec<usize> = Vec::new();

        mask[node] = true;
        stack.push(node);

        proof {
            assert(self.reaches_within(node as int, node as int, 0));
            lemma_count_true_le(mask@);
            assert(stack@[0] == node);
            assert(order_has(stack@, node as int));
        }

        while stack.len() != 0
            invariant
                self.wf(),
                node < self.node_count(),
                mask@.len() == self.node_count(),
                forall|i: int|
                    0 <= i < stack@.len()
                        ==> (#[trigger] stack@[i]) < self.node_count() && mask@[stack@[i] as int],
                forall|m: int| 0 <= m < mask@.len() && #[trigger] mask@[m]
                    ==> self.is_ancestor(node as int, m),
                mask@[node as int],
                // every masked node not waiting on the stack already has all
                // of its dependencies masked
                forall|m: int, b: int|
                    0 <= m < mask@.len() && mask@[m] && !order_has(stack@, m)
                        && #[trigger] self.dep_edge(m, b) ==> mask@[b],
                count_true(mask@) <= mask@.len(),
            decreases mask@.len() - count_true(mask@), stack@.len(),
        {
            let ghost stack0 = stack@;
            let cur = stack.pop().unwrap();

            let ghost mask_before = mask@;
            let ghost stack_before = stack@;

            proof {
                // a node absent from the shrunk stack was, unless it is cur,
                // absent from the stack before the pop as well
                assert forall|m: int| !order_has(stack@, m) && m != cur as int implies !order_has(
                    stack0,
                    m,
                ) by {
                    if order_has(stack0, m) {
                        let j = choose|j: int| 0 <= j < stack0.len() && stack0[j] as int == m;
                        if j < stack0.len() - 1 {
                            assert(stack@[j] as int == m);
                        } else {
                            assert(stack0[j] == cur);
                        }
                    }
                };
            }

            let deg = self.edges_fwd[cur].len();
            let mut j: usize = 0;
            while j < deg
                invariant
                    self.wf(),
                    node < self.node_count(),
                    cur < self.node_count(),
                    deg == self.edges_fwd@[cur as int]@.len(),
                    j <= deg,
                    mask@.len() == self.node_count(),
                    mask@[node as int],
                    mask@[cur as int],
                    forall|i: int|
                        0 <= i < stack@.len()
                            ==> (#[trigger] stack@[i]) < self.node_count()
                                && mask@[stack@[i] as int],
                    forall|m: int| 0 <= m < mask@.len() && #[trigger] mask@[m]
                        ==> self.is_ancestor(node as int, m),
                    // nodes already closed stay closed: anything masked that is
                    // neither on the stack nor `cur` has masked dependencies
                    forall|m: int, b: int|
                        0 <= m < mask@.len() && mask@[m] && !order_has(stack@, m) && m != cur
                            && #[trigger] self.dep_edge(m, b) ==> mask@[b],
                    // cur's dependencies scanned so far are masked
                    forall|jj: int|
                        0 <= jj < j ==> mask@[#[trigger] self.edges_fwd@[cur as int]@[jj] as int],
                    count_true(mask@) <= mask@.len(),
                    // progress: either nothing new was masked and the stack is
                    // as the pop left it, or the masked count grew
                    (mask@ == mask_before && stack@ == stack_before)
                        || count_true(mask@) > count_true(mask_before),
                decreases deg - j,
            {
                let t = self.edges_fwd[cur][j];
                proof {
                    assert(self.edges_fwd@[cur as int]@[j as int] as int == t as int);
                    assert(adj_has(self.edges_fwd@[cur as int]@, t as int));
                    assert(self.dep_edge(cur as int, t as int));
                }
                if !mask[t] {
                    proof {
                        self.lemma_ancestor_step(node as int, cur as int, t as int);
                        lemma_count_true_update(mask@, t as int);
                        lemma_count_true_le(mask@.update(t as int, true));
                    }
                    let ghost stack_pre = stack@;
                    mask[t] = true;
                    stack.push(t);
                    proof {
                        assert(stack@[stack@.len() - 1] == t);
                        assert(order_has(stack@, t as int));
                        assert forall|m: int| order_has(stack_pre, m) implies order_has(
                            stack@,
                            m,
                        ) by {
                            let jj = choose|jj: int|
                                0 <= jj < stack_pre.len() && stack_pre[jj] as int == m;
                            assert(stack@[jj] as int == m);
                        };
                    }
                }
                j += 1;
            }
        }

        proof {
            assert forall|m: int|
                0 <= m < self.node_count() && self.is_ancestor(node as int, m) implies mask@[m] by {
                let k = choose|k: nat| self.reaches_within(node as int, m, k);
                self.lemma_reaches_in_closed(
                    node as int,
                    m,
                    k,
                    |x: int| 0 <= x < mask@.len() && mask@[x],
                );
            };
        }

        mask
    }
}

/// A node of `set` whose in-set neighbors under `edges` are all resolved may
/// proceed; the active set and the neighbor lists are the walk's only inputs,
/// so both phases share this search.
fn find_ready(edges: &Vec<Vec<usize>>, set: &Vec<bool>, done: &Vec<bool>) -> (r: Option<usize>)
    requires
        edges@.len() == set@.len(),
        done@.len() == set@.len(),
    ensures
        r matches Some(node) ==> (node as int) < set@.len() && set@[node as int]
            && !done@[node as int] && (forall|j: int|
            0 <= j < edges@[node as int]@.len()
                && ((#[trigger] edges@[node as int]@[j]) as int) < set@.len()
                && set@[edges@[node as int]@[j] as int]
                ==> done@[edges@[node as int]@[j] as int]),
        r is None ==> (forall|m: int|
            0 <= m < set@.len() && set@[m] && !(#[trigger] done@[m]) ==> exists|j: int|
                0 <= j < edges@[m]@.len() && ((#[trigger] edges@[m]@[j]) as int) < set@.len()
                    && set@[edges@[m]@[j] as int] && !done@[edges@[m]@[j] as int]),
{
    let len = set.len();
    let mut m: usize = 0;
    while m < len
        invariant
            len == set@.len(),
            edges@.len() == len,
            done@.len() == len,
            m <= len,
            forall|m2: int|
                0 <= m2 < m && set@[m2] && !(#[trigger] done@[m2]) ==> exists|j: int|
                    0 <= j < edges@[m2]@.len() && ((#[trigger] edges@[m2]@[j]) as int) < set@.len()
                        && set@[edges@[m2]@[j] as int] && !done@[edges@[m2]@[j] as int],
        decreases len - m,
    {
        if set[m] && !done[m] {
            let deg = edges[m].len();
            let mut j: usize = 0;
            let mut blocked = false;
            while j < deg
                invariant
                    m < len,
                    len == set@.len(),
                    edges@.len() == len,
                    done@.len() == len,
                    deg == edges@[m as int]@.len(),
                    j <= deg,
                    !blocked ==> (forall|j2: int|
                        0 <= j2 < j && ((#[trigger] edges@[m as int]@[j2]) as int) < len
                            && set@[edges@[m as int]@[j2] as int]
                            ==> done@[edges@[m as int]@[j2] as int]),
                    blocked ==> (exists|j2: int|
                        0 <= j2 < deg && ((#[trigger] edges@[m as int]@[j2]) as int) < len
                            && set@[edges@[m as int]@[j2] as int]
                            && !done@[edges@[m as int]@[j2] as int]),
                decreases deg - j,
            {
                if !blocked {
                    let t = edges[m][j];
                    if t < len && set[t] && !done[t] {
                        blocked = true;
                        proof {
                            assert(((edges@[m as int]@[j as int]) as int) < len
                                && set@[edges@[m as int]@[j as int] as int]
                                && !done@[edges@[m as int]@[j as int] as int]);
                        }
                    }
                }
                j += 1;
            }
            if !blocked {
                return Some(m);
            }
        }
        m += 1;
    }
    None
}

/// The all-false sequence of length `n`.
pub open spec fn vec_false_seq(n: nat) -> Seq<bool> {
    Seq::new(n, |i: int| false)
}

/// A vector of `n` entries, all false.
fn vec_false(n: usize) -> (v: Vec<bool>)
    ensures
        v@ =~= vec_false_seq(n as nat),
        v@.len() == n,
        forall|i: int| 0 <= i < n ==> !(#[trigger] v@[i]),
{
    let mut v: Vec<bool> = Vec::new();
    let mut i: usize = 0;
    while i < n
        invariant
            i <= n,
            v@.len() == i,
            forall|k: int| 0 <= k < i ==> !(#[trigger] v@[k]),
        decreases n - i,
    {
        v.push(false);
        i += 1;
    }
    proof {
        assert(v@ =~= vec_false_seq(n as nat));
    }
    v
}

/// The mask of nodes that produced a visit in `events`.
fn visited_mask(events: &Vec<VisitResult>, n: usize) -> (mask: Vec<bool>)
    requires
        forall|j: int| 0 <= j < events@.len() ==> (#[trigger] events@[j]).node_idx < n,
    ensures
        mask@.len() == n,
        forall|m: int| 0 <= m < n ==> ((#[trigger] mask@[m]) <==> has_event(events@, m)),
{
    let mut mask = vec_false(n);
    let mut j: usize = 0;
    while j < events.len()
        invariant
            j <= events@.len(),
            mask@.len() == n,
            forall|jj: int| 0 <= jj < events@.len() ==> (#[trigger] events@[jj]).node_idx < n,
            forall|m: int|
                0 <= m < n ==> ((#[trigger] mask@[m]) <==> exists|j2: int|
                    0 <= j2 < j && (#[trigger] events@[j2]).node_idx as int == m),
        decreases events@.len() - j,
    {
        let idx = events[j].node_idx;
        let ghost mask_old = mask@;
        mask[idx] = true;
        proof {
            assert forall|m: int| 0 <= m < n implies ((#[trigger] mask@[m]) <==> exists|j2: int|
                0 <= j2 < j + 1 && (#[trigger] events@[j2]).node_idx as int == m) by {
                if m == idx as int {
                    assert(events@[j as int].node_idx as int == m);
                } else {
                    assert(mask@[m] == mask_old[m]);
                }
            };
        }
        j += 1;
    }
    mask
}

/// Looks up node `m`'s published outcome in the visit log.
#[verifier::loop_isolation(false)]
fn result_for(events: &Vec<VisitResult>, m: usize) -> (r: Result<(), StepError>)
    requires
        unique_nodes(events@),
        has_event(events@, m as int),
    ensures
        r == event_for(events@, m as int).result,
{
    let mut j: usize = 0;
    while j < events.len()
        invariant
            j <= events@.len(),
            forall|j2: int| 0 <= j2 < j ==> (#[trigger] events@[j2]).node_idx != m,
        decreases events@.len() - j,
    {
        if events[j].node_idx == m {
            proof {
                lemma_event_for_index(events@, j as int);
            }
            return duplicate_result(&events[j].result);
        }
        j += 1;
    }
    proof {
        let jw = choose|jw: int| 0 <= jw < events@.len() && events@[jw].node_idx as int == m as int;
        assert(false);
    }
    Ok(())
}

/// A vector of `n` entries, all `None`.
fn vec_none<T>(n: usize) -> (v: Vec<Option<T>>)
    ensures
        v@.len() == n,
        forall|i: int| 0 <= i < n ==> (#[trigger] v@[i]) is None,
{
    let mut v: Vec<Option<T>> = Vec::new();
    let mut i: usize = 0;
    while i < n
        invariant
            i <= n,
            v@.len() == i,
            forall|k: int| 0 <= k < i ==> (#[trigger] v@[k]) is None,
        decreases n - i,
    {
        v.push(None);
        i += 1;
    }
    v
}

} // verus!
