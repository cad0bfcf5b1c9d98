pub mod config;
pub mod graph;
pub mod laws;
pub mod steps;
mod walkspec;

use vstd::prelude::*;

verus! {

/// The nine steps of the canonical provisioning graph. The caller supplies
/// the implementations; their run and cleanup do the actual system work.
#[verifier::reject_recursive_types(S)]
pub struct ProvisionSteps<S> {
    pub mkdir: S,
    pub mount_boot: S,
    pub login_iscsi: S,
    pub prepare_rootfs: S,
    pub copy_data: S,
    pub update_cmdline: S,
    pub configure_hostname: S,
    pub configure_user_auth: S,
    pub finish: S,
}

/// Builds the canonical provisioning graph and returns it together with the
/// terminal node's id. Nodes are inserted in a fixed order (mkdir 0,
/// mount_boot 1, login_iscsi 2, prepare_rootfs 3, copy_data 4,
/// update_cmdline 5, configure_hostname 6, configure_user_auth 7, finish 8)
/// and the dependency relation is exactly the canonical one, proved acyclic.
#[verifier::rlimit(100)]
#[verifier::spinoff_prover]
pub fn provision_graph<S: steps::Step>(provision_steps: ProvisionSteps<S>) -> (r: (
    graph::StepGraph<S>,
    usize,
))
    ensures
        r.0.wf(),
        r.0.acyclic(),
        r.0.node_count() == 9,
        r.0.names_ok(),
        r.1 == 8usize,
        r.0.step_at(0) == provision_steps.mkdir,
        r.0.step_at(1) == provision_steps.mount_boot,
        r.0.step_at(2) == provision_steps.login_iscsi,
        r.0.step_at(3) == provision_steps.prepare_rootfs,
        r.0.step_at(4) == provision_steps.copy_data,
        r.0.step_at(5) == provision_steps.update_cmdline,
        r.0.step_at(6) == provision_steps.configure_hostname,
        r.0.step_at(7) == provision_steps.configure_user_auth,
        r.0.step_at(8) == provision_steps.finish,
        forall|a: int, b: int|
            #[trigger] r.0.dep_edge(a, b) <==> ((a == 8 && b == 5) || (a == 8 && b == 6) || (a == 8
                && b == 7) || (a == 7 && b == 4) || (a == 6 && b == 4) || (a == 5 && b == 4) || (a
                == 4 && b == 3) || (a == 4 && b == 1) || (a == 1 && b == 0) || (a == 3 && b == 2)
                || (a == 3 && b == 0)),
{
    let ProvisionSteps {
        mkdir,
        mount_boot,
        login_iscsi,
        prepare_rootfs,
        copy_data,
        update_cmdline,
        configure_hostname,
        configure_user_auth,
        finish,
    } = provision_steps;

    let mut g = graph::StepGraph::<S>::new();

    let mkdir_step = g.add_node(mkdir);
    let mount_boot_step = g.add_node(mount_boot);
    let login_iscsi_step = g.add_node(login_iscsi);
    let prepare_rootfs_step = g.add_node(prepare_rootfs);
    let copy_data_step = g.add_node(copy_data);
    let update_cmdline_step = g.add_node(update_cmdline);
    let configure_hostname_step = g.add_node(configure_hostname);
    let configure_user_auth_step = g.add_node(configure_user_auth);
    let finish_step = g.add_node(finish);

    g.add_edge(finish_step, update_cmdline_step);
    g.add_edge(finish_step, configure_hostname_step);
    g.add_edge(finish_step, configure_user_auth_step);

    g.add_edge(configure_user_auth_step, copy_data_step);

    g.add_edge(configure_hostname_step, copy_data_step);

    g.add_edge(update_cmdline_step, copy_data_step);

    g.add_edge(copy_data_step, prepare_rootfs_step);
    g.add_edge(copy_data_step, mount_boot_step);

    g.add_edge(mount_boot_step, mkdir_step);

    g.add_edge(prepare_rootfs_step, login_iscsi_step);
    g.add_edge(prepare_rootfs_step, mkdir_step);

    proof {
        // each dependency strictly descends in rank, so the graph is acyclic
        let rank: Seq<nat> = seq![0nat, 1nat, 0nat, 1nat, 2nat, 3nat, 3nat, 3nat, 4nat];
        assert(g.rank_ok(rank));
        assert(g.acyclic());
    }

    (g, finish_step)
}

/// The step's run contract forces success on this workspace and instance:
/// every result it admits is `Ok`.
pub open spec fn step_run_succeeds<S: steps::Step>(
    s: &S,
    workspace_spec: &config::WorkspaceConfig,
    instance_spec: &config::InstanceConfig,
) -> bool {
    forall|rr: Result<(), String>|
        #[trigger] s.run_post(workspace_spec, instance_spec, rr) ==> rr is Ok
}

/// Every canonical provisioning step's run contract forces success on this
/// workspace and instance.
pub open spec fn provision_steps_succeed<S: steps::Step>(
    provision_steps: &ProvisionSteps<S>,
    workspace_spec: &config::WorkspaceConfig,
    instance_spec: &config::InstanceConfig,
) -> bool {
    &&& step_run_succeeds(&provision_steps.mkdir, workspace_spec, instance_spec)
    &&& step_run_succeeds(&provision_steps.mount_boot, workspace_spec, instance_spec)
    &&& step_run_succeeds(&provision_steps.login_iscsi, workspace_spec, instance_spec)
    &&& step_run_succeeds(&provision_steps.prepare_rootfs, workspace_spec, instance_spec)
    &&& step_run_succeeds(&provision_steps.copy_data, workspace_spec, instance_spec)
    &&& step_run_succeeds(&provision_steps.update_cmdline, workspace_spec, instance_spec)
    &&& step_run_succeeds(&provision_steps.configure_hostname, workspace_spec, instance_spec)
    &&& step_run_succeeds(&provision_steps.configure_user_auth, workspace_spec, instance_spec)
    &&& step_run_succeeds(&provision_steps.finish, workspace_spec, instance_spec)
}

/// The step's run contract forces failure on this workspace and instance:
/// every result it admits is `Err`.
pub open spec fn step_run_fails<S: steps::Step>(
    s: &S,
    workspace_spec: &config::WorkspaceConfig,
    instance_spec: &config::InstanceConfig,
) -> bool {
    forall|rr: Result<(), String>|
        #[trigger] s.run_post(workspace_spec, instance_spec, rr) ==> rr is Err
}

/// Some canonical provisioning step's run contract forces failure on this
/// workspace and instance.
pub open spec fn some_provision_step_must_fail<S: steps::Step>(
    provision_steps: &ProvisionSteps<S>,
    workspace_spec: &config::WorkspaceConfig,
    instance_spec: &config::InstanceConfig,
) -> bool {
    ||| step_run_fails(&provision_steps.mkdir, workspace_spec, instance_spec)
    ||| step_run_fails(&provision_steps.mount_boot, workspace_spec, instance_spec)
    ||| step_run_fails(&provision_steps.login_iscsi, workspace_spec, instance_spec)
    ||| step_run_fails(&provision_steps.prepare_rootfs, workspace_spec, instance_spec)
    ||| step_run_fails(&provision_steps.copy_data, workspace_spec, instance_spec)
    ||| step_run_fails(&provision_steps.update_cmdline, workspace_spec, instance_spec)
    ||| step_run_fails(&provision_steps.configure_hostname, workspace_spec, instance_spec)
    ||| step_run_fails(&provision_steps.configure_user_auth, workspace_spec, instance_spec)
    ||| step_run_fails(&provision_steps.finish, workspace_spec, instance_spec)
}

/// `e` is a failure this step admits: it carries the step's name, and its
/// message is one the step's run contract allows as a failure cause.
pub open spec fn step_admits_failure<S: steps::Step>(
    s: &S,
    workspace_spec: &config::WorkspaceConfig,
    instance_spec: &config::InstanceConfig,
    e: &graph::StepError,
) -> bool {
    &&& e.step_name@ == s.spec_name()
    &&& exists|rr: Result<(), String>|
        #[trigger] s.run_post(workspace_spec, instance_spec, rr) && rr is Err && e.msg
            == rr->Err_0
}

/// `e` is a failure one of the canonical provisioning steps admits.
pub open spec fn provision_step_failure<S: steps::Step>(
    provision_steps: &ProvisionSteps<S>,
    workspace_spec: &config::WorkspaceConfig,
    instance_spec: &config::InstanceConfig,
    e: &graph::StepError,
) -> bool {
    ||| step_admits_failure(&provision_steps.mkdir, workspace_spec, instance_spec, e)
    ||| step_admits_failure(&provision_steps.mount_boot, workspace_spec, instance_spec, e)
    ||| step_admits_failure(&provision_steps.login_iscsi, workspace_spec, instance_spec, e)
    ||| step_admits_failure(&provision_steps.prepare_rootfs, workspace_spec, instance_spec, e)
    ||| step_admits_failure(&provision_steps.copy_data, workspace_spec, instance_spec, e)
    ||| step_admits_failure(&provision_steps.update_cmdline, workspace_spec, instance_spec, e)
    ||| step_admits_failure(&provision_steps.configure_hostname, workspace_spec, instance_spec, e)
    ||| step_admits_failure(
        &provision_steps.configure_user_auth,
        workspace_spec,
        instance_spec,
        e,
    )
    ||| step_admits_failure(&provision_steps.finish, workspace_spec, instance_spec, e)
}

/// Provisions instances as defined by all configs associated with the given
/// workspace: builds the canonical graph once, then executes it serially,
/// one instance at a time. Running every instance's walk concurrently would
/// swamp the storage backend, so the driver deliberately serializes them.
/// One result is returned per instance, in order: success whenever every
/// step's run contract forces it, and otherwise a failure some step admits,
/// named after that step and carrying its run's own message.
#[verifier::rlimit(100)]
#[verifier::spinoff_prover]
pub fn run<S: steps::Step>(
    workspace_spec: &config::WorkspaceConfig,
    instance_specs: &Vec<config::InstanceConfig>,
    provision_steps: ProvisionSteps<S>,
) -> (results: Vec<Result<(), graph::StepError>>)
    ensures
        results@.len() == instance_specs@.len(),
        forall|k: int|
            0 <= k < results@.len() && provision_steps_succeed(
                &provision_steps,
                workspace_spec,
                &instance_specs@[k],
            ) ==> (#[trigger] results@[k]) is Ok,
        forall|k: int|
            0 <= k < results@.len() && some_provision_step_must_fail(
                &provision_steps,
                workspace_spec,
                &instance_specs@[k],
            ) ==> (#[trigger] results@[k]) is Err,
        forall|k: int|
            0 <= k < results@.len() ==> ((#[trigger] results@[k]) matches Err(e)
                ==> provision_step_failure(
                &provision_steps,
                workspace_spec,
                &instance_specs@[k],
                &e,
            )),
{
    let (g, finish_step) = provision_graph(provision_steps);

    proof {
        // the terminal reaches every node of the canonical graph
        assert(g.reaches_within(8, 8, 0));
        g.lemma_reaches_extend(8, 8, 5, 0);
        g.lemma_reaches_extend(8, 8, 6, 0);
        g.lemma_reaches_extend(8, 8, 7, 0);
        g.lemma_reaches_extend(8, 5, 4, 1);
        g.lemma_reaches_extend(8, 4, 3, 2);
        g.lemma_reaches_extend(8, 4, 1, 2);
        g.lemma_reaches_extend(8, 3, 2, 3);
        g.lemma_reaches_extend(8, 3, 0, 3);
        assert(g.is_ancestor(8, 0) && g.is_ancestor(8, 1) && g.is_ancestor(8, 2)
            && g.is_ancestor(8, 3) && g.is_ancestor(8, 4) && g.is_ancestor(8, 5)
            && g.is_ancestor(8, 6) && g.is_ancestor(8, 7) && g.is_ancestor(8, 8));
    }

    let mut results: Vec<Result<(), graph::StepError>> = Vec::new();
    let mut k: usize = 0;
    while k < instance_specs.len()
        invariant
            g.wf(),
            g.acyclic(),
            g.node_count() == 9,
            g.names_ok(),
            finish_step == 8usize,
            g.step_at(0) == provision_steps.mkdir,
            g.step_at(1) == provision_steps.mount_boot,
            g.step_at(2) == provision_steps.login_iscsi,
            g.step_at(3) == provision_steps.prepare_rootfs,
            g.step_at(4) == provision_steps.copy_data,
            g.step_at(5) == provision_steps.update_cmdline,
            g.step_at(6) == provision_steps.configure_hostname,
            g.step_at(7) == provision_steps.configure_user_auth,
            g.step_at(8) == provision_steps.finish,
            forall|m: int| 0 <= m < 9 ==> #[trigger] g.is_ancestor(finish_step as int, m),
            k <= instance_specs@.len(),
            results@.len() == k,
            forall|k2: int|
                0 <= k2 < results@.len() && some_provision_step_must_fail(
                    &provision_steps,
                    workspace_spec,
                    &instance_specs@[k2],
                ) ==> (#[trigger] results@[k2]) is Err,
            forall|k2: int|
                0 <= k2 < results@.len() && provision_steps_succeed(
                    &provision_steps,
                    workspace_spec,
                    &instance_specs@[k2],
                ) ==> (#[trigger] results@[k2]) is Ok,
            forall|k2: int|
                0 <= k2 < results@.len() ==> ((#[trigger] results@[k2]) matches Err(e)
                    ==> provision_step_failure(
                    &provision_steps,
                    workspace_spec,
                    &instance_specs@[k2],
                    &e,
                )),
        decreases instance_specs@.len() - k,
    {
        let spec = &instance_specs[k];
        let result = g.run(workspace_spec, spec, finish_step);
        proof {
            if result is Err {
                // the error names a node of the graph with a message its
                // run contract admits, and each node is a supplied step
                let m = choose|m: int|
                    0 <= m < g.node_count() && g.is_ancestor(finish_step as int, m)
                        && result->Err_0.step_name@ == #[trigger] g.spec_name(m) && (exists|
                        rr: Result<(), String>,
                    |
                        #[trigger] g.step_at(m).run_post(workspace_spec, spec, rr) && rr is Err
                            && result->Err_0.msg == rr->Err_0);
                assert(g.spec_name(m) == g.step_at(m).spec_name());
                let rr = choose|rr: Result<(), String>|
                    #[trigger] g.step_at(m).run_post(workspace_spec, spec, rr) && rr is Err
                        && result->Err_0.msg == rr->Err_0;
                if m == 0 {
                    assert(provision_steps.mkdir.run_post(workspace_spec, spec, rr));
                } else if m == 1 {
                    assert(provision_steps.mount_boot.run_post(workspace_spec, spec, rr));
                } else if m == 2 {
                    assert(provision_steps.login_iscsi.run_post(workspace_spec, spec, rr));
                } else if m == 3 {
                    assert(provision_steps.prepare_rootfs.run_post(workspace_spec, spec, rr));
                } else if m == 4 {
                    assert(provision_steps.copy_data.run_post(workspace_spec, spec, rr));
                } else if m == 5 {
                    assert(provision_steps.update_cmdline.run_post(workspace_spec, spec, rr));
                } else if m == 6 {
                    assert(provision_steps.configure_hostname.run_post(workspace_spec, spec, rr));
                } else if m == 7 {
                    assert(provision_steps.configure_user_auth.run_post(workspace_spec, spec, rr));
                } else {
                    assert(provision_steps.finish.run_post(workspace_spec, spec, rr));
                }
                assert(provision_step_failure(
                    &provision_steps,
                    workspace_spec,
                    spec,
                    &result->Err_0,
                ));
            }
            if some_provision_step_must_fail(&provision_steps, workspace_spec, spec) {
                // exhibit the failing node for the walk's forced-failure clause
                if step_run_fails(&provision_steps.mkdir, workspace_spec, spec) {
                    assert(forall|rr: Result<(), String>|
                        #[trigger] g.step_at(0).run_post(workspace_spec, spec, rr) ==> rr is Err);
                    assert(g.is_ancestor(finish_step as int, 0));
                } else if step_run_fails(&provision_steps.mount_boot, workspace_spec, spec) {
                    assert(forall|rr: Result<(), String>|
                        #[trigger] g.step_at(1).run_post(workspace_spec, spec, rr) ==> rr is Err);
                    assert(g.is_ancestor(finish_step as int, 1));
                } else if step_run_fails(&provision_steps.login_iscsi, workspace_spec, spec) {
                    assert(forall|rr: Result<(), String>|
                        #[trigger] g.step_at(2).run_post(workspace_spec, spec, rr) ==> rr is Err);
                    assert(g.is_ancestor(finish_step as int, 2));
                } else if step_run_fails(&provision_steps.prepare_rootfs, workspace_spec, spec) {
                    assert(forall|rr: Result<(), String>|
                        #[trigger] g.step_at(3).run_post(workspace_spec, spec, rr) ==> rr is Err);
                    assert(g.is_ancestor(finish_step as int, 3));
                } else if step_run_fails(&provision_steps.copy_data, workspace_spec, spec) {
                    assert(forall|rr: Result<(), String>|
                        #[trigger] g.step_at(4).run_post(workspace_spec, spec, rr) ==> rr is Err);
                    assert(g.is_ancestor(finish_step as int, 4));
                } else if step_run_fails(&provision_steps.update_cmdline, workspace_spec, spec) {
                    assert(forall|rr: Result<(), String>|
                        #[trigger] g.step_at(5).run_post(workspace_spec, spec, rr) ==> rr is Err);
                    assert(g.is_ancestor(finish_step as int, 5));
                } else if step_run_fails(
                    &provision_steps.configure_hostname,
                    workspace_spec,
                    spec,
                ) {
                    assert(forall|rr: Result<(), String>|
                        #[trigger] g.step_at(6).run_post(workspace_spec, spec, rr) ==> rr is Err);
                    assert(g.is_ancestor(finish_step as int, 6));
                } else if step_run_fails(
                    &provision_steps.configure_user_auth,
                    workspace_spec,
                    spec,
                ) {
                    assert(forall|rr: Result<(), String>|
                        #[trigger] g.step_at(7).run_post(workspace_spec, spec, rr) ==> rr is Err);
                    assert(g.is_ancestor(finish_step as int, 7));
                } else {
                    assert(forall|rr: Result<(), String>|
                        #[trigger] g.step_at(8).run_post(workspace_spec, spec, rr) ==> rr is Err);
                    assert(g.is_ancestor(finish_step as int, 8));
                }
                assert(result is Err);
            }
            if provision_steps_succeed(&provision_steps, workspace_spec, spec) {
                assert forall|m: int, rr: Result<(), String>|
                    0 <= m < g.node_count() && g.is_ancestor(finish_step as int, m)
                        && #[trigger] g.step_at(m).run_post(workspace_spec, spec, rr) implies rr
                    is Ok by {
                    if m == 0 {
                        assert(provision_steps.mkdir.run_post(workspace_spec, spec, rr));
                    } else if m == 1 {
                        assert(provision_steps.mount_boot.run_post(workspace_spec, spec, rr));
                    } else if m == 2 {
                        assert(provision_steps.login_iscsi.run_post(workspace_spec, spec, rr));
                    } else if m == 3 {
                        assert(provision_steps.prepare_rootfs.run_post(workspace_spec, spec, rr));
                    } else if m == 4 {
                        assert(provision_steps.copy_data.run_post(workspace_spec, spec, rr));
                    } else if m == 5 {
                        assert(provision_steps.update_cmdline.run_post(workspace_spec, spec, rr));
                    } else if m == 6 {
                        assert(provision_steps.configure_hostname.run_post(
                            workspace_spec,
                            spec,
                            rr,
                        ));
                    } else if m == 7 {
                        assert(provision_steps.configure_user_auth.run_post(
                            workspace_spec,
                            spec,
                            rr,
                        ));
                    } else {
                        assert(provision_steps.finish.run_post(workspace_spec, spec, rr));
                    }
                };
                assert(result is Ok);
            }
        }
        results.push(result);
        k += 1;
    }

    results
}

} // verus!
