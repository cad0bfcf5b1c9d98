use provision::config::{InstanceConfig, WorkspaceConfig};
use provision::graph::{RunTrace, StepGraph};
use provision::steps::{EchoStep, FinishStep, Step};

fn test_workspace() -> WorkspaceConfig {
    WorkspaceConfig {
        path: String::from("/ws"),
        img_path: String::from("/ws/os.img"),
        img_rootfs_offset: 272629760,
        img_boot_offset: 4194304,
        iscsi_target_ip: String::from("192.168.1.10"),
        nfs_server_ip: String::from("192.168.1.10"),
        nfs_tftp_dir: String::from("/srv/tftp"),
    }
}

fn test_instance() -> InstanceConfig {
    InstanceConfig {
        id: String::from("pi1"),
        iscsi_initiator_iqn: String::from("iqn.2000-01.com.example:pi1-initiator"),
        iscsi_target_iqn: String::from("iqn.2000-01.com.example:pi1"),
        mac_addr: String::from("aa-bb-cc-dd-ee-ff"),
        user_password: String::from("pi:SECRET-REDACTED"),
        root_ssh_key: String::from("ssh-ed25519 AAAA pi1"),
    }
}

fn run_position(t: &RunTrace, node: usize) -> usize {
    t.run_events
        .iter()
        .position(|ev| ev.node_idx == node)
        .expect("node was not visited in the run phase")
}

fn cleanup_position(t: &RunTrace, node: usize) -> usize {
    t.cleanup_order
        .iter()
        .position(|n| *n == node)
        .expect("node was not visited in the cleanup phase")
}

#[test]
fn single_node_runs_and_cleans_once() {
    let w = test_workspace();
    let i = test_instance();
    let mut g: StepGraph<EchoStep> = StepGraph::new();
    let a = g.add_node(EchoStep { msg: "a" });

    let t = g.run_trace(&w, &i, a);

    assert_eq!(t.run_events.len(), 1);
    assert_eq!(t.run_events[0].node_idx, a);
    assert!(t.run_events[0].attempted);
    assert!(t.run_events[0].result.is_ok());
    assert_eq!(t.cleanup_order, vec![a]);
    assert!(t.result.is_ok());
}

#[test]
fn dependency_runs_first_and_cleans_last() {
    let w = test_workspace();
    let i = test_instance();
    let mut g: StepGraph<EchoStep> = StepGraph::new();
    let a = g.add_node(EchoStep { msg: "a" });
    let b = g.add_node(EchoStep { msg: "b" });
    g.add_edge(a, b);

    let t = g.run_trace(&w, &i, a);

    assert_eq!(t.run_events.len(), 2);
    assert!(run_position(&t, b) < run_position(&t, a));
    assert_eq!(t.cleanup_order.len(), 2);
    assert!(cleanup_position(&t, a) < cleanup_position(&t, b));
    assert!(t.result.is_ok());
}

#[test]
fn two_dependencies_finish_before_dependent() {
    let w = test_workspace();
    let i = test_instance();
    let mut g: StepGraph<EchoStep> = StepGraph::new();
    let a = g.add_node(EchoStep { msg: "a" });
    let b = g.add_node(EchoStep { msg: "b" });
    let c = g.add_node(EchoStep { msg: "c" });
    g.add_edge(a, b);
    g.add_edge(a, c);

    let t = g.run_trace(&w, &i, a);

    assert_eq!(t.run_events.len(), 3);
    assert!(run_position(&t, b) < run_position(&t, a));
    assert!(run_position(&t, c) < run_position(&t, a));
    assert!(cleanup_position(&t, a) < cleanup_position(&t, b));
    assert!(cleanup_position(&t, a) < cleanup_position(&t, c));
    assert!(t.result.is_ok());
}

#[test]
fn failed_dependency_short_circuits_dependent() {
    let w = test_workspace();
    let i = test_instance();
    let mut g: StepGraph<EchoStep> = StepGraph::new();
    let a = g.add_node(EchoStep { msg: "a" });
    let b = g.add_node(EchoStep { msg: "err" });
    g.add_edge(a, b);

    let t = g.run_trace(&w, &i, a);

    let b_event = &t.run_events[run_position(&t, b)];
    assert!(b_event.attempted);
    assert!(b_event.result.is_err());

    // a's own run never happened; it republished b's failure
    let a_event = &t.run_events[run_position(&t, a)];
    assert!(!a_event.attempted);
    assert!(a_event.result.is_err());

    match &t.result {
        Err(e) => {
            assert_eq!(e.step_name, "echo err");
            assert_eq!(e.msg, "error");
            assert_eq!(e.to_message(), "error running echo err: error");
        },
        Ok(()) => panic!("execution should have failed"),
    }

    // both nodes are still cleaned up
    assert_eq!(t.cleanup_order.len(), 2);
    cleanup_position(&t, a);
    cleanup_position(&t, b);
}

#[test]
fn sibling_still_runs_when_one_dependency_fails() {
    let w = test_workspace();
    let i = test_instance();
    let mut g: StepGraph<EchoStep> = StepGraph::new();
    let a = g.add_node(EchoStep { msg: "a" });
    let b = g.add_node(EchoStep { msg: "err" });
    let c = g.add_node(EchoStep { msg: "c" });
    g.add_edge(a, b);
    g.add_edge(a, c);

    let t = g.run_trace(&w, &i, a);

    // c's run was still attempted and succeeded
    let c_event = &t.run_events[run_position(&t, c)];
    assert!(c_event.attempted);
    assert!(c_event.result.is_ok());

    // a was short-circuited and the overall result is b's failure
    let a_event = &t.run_events[run_position(&t, a)];
    assert!(!a_event.attempted);
    assert!(t.result.is_err());

    // cleanup still covers all three
    assert_eq!(t.cleanup_order.len(), 3);
    cleanup_position(&t, a);
    cleanup_position(&t, b);
    cleanup_position(&t, c);
}

#[test]
fn diamond_visits_shared_dependency_once() {
    let w = test_workspace();
    let i = test_instance();
    let mut g: StepGraph<EchoStep> = StepGraph::new();
    let a = g.add_node(EchoStep { msg: "a" });
    let b = g.add_node(EchoStep { msg: "b" });
    let c = g.add_node(EchoStep { msg: "c" });
    let d = g.add_node(EchoStep { msg: "d" });
    g.add_edge(a, b);
    g.add_edge(a, c);
    g.add_edge(b, d);
    g.add_edge(c, d);

    let t = g.run_trace(&w, &i, a);

    assert_eq!(t.run_events.len(), 4);
    let d_visits = t.run_events.iter().filter(|ev| ev.node_idx == d).count();
    assert_eq!(d_visits, 1);
    assert_eq!(t.cleanup_order.len(), 4);
    for node in [a, b, c, d] {
        let cleanups = t.cleanup_order.iter().filter(|n| **n == node).count();
        assert_eq!(cleanups, 1);
    }
    assert!(t.result.is_ok());
}

#[test]
fn only_ancestors_are_visited() {
    let w = test_workspace();
    let i = test_instance();
    let mut g: StepGraph<EchoStep> = StepGraph::new();
    let a = g.add_node(EchoStep { msg: "a" });
    let b = g.add_node(EchoStep { msg: "b" });
    let unrelated = g.add_node(EchoStep { msg: "err" });
    g.add_edge(a, b);
    g.add_edge(unrelated, b);

    let t = g.run_trace(&w, &i, a);

    assert_eq!(t.run_events.len(), 2);
    assert!(t.run_events.iter().all(|ev| ev.node_idx != unrelated));
    assert!(t.cleanup_order.iter().all(|n| *n != unrelated));
    // the failing step outside the ancestor set gates nothing
    assert!(t.result.is_ok());
}

#[test]
fn edge_insertion_order_does_not_matter() {
    let w = test_workspace();
    let i = test_instance();

    let mut g1: StepGraph<EchoStep> = StepGraph::new();
    let a1 = g1.add_node(EchoStep { msg: "a" });
    let b1 = g1.add_node(EchoStep { msg: "b" });
    let c1 = g1.add_node(EchoStep { msg: "err" });
    g1.add_edge(a1, b1);
    g1.add_edge(a1, c1);
    g1.add_edge(b1, c1);

    let mut g2: StepGraph<EchoStep> = StepGraph::new();
    let a2 = g2.add_node(EchoStep { msg: "a" });
    let b2 = g2.add_node(EchoStep { msg: "b" });
    let c2 = g2.add_node(EchoStep { msg: "err" });
    g2.add_edge(b2, c2);
    g2.add_edge(a2, c2);
    g2.add_edge(a2, b2);

    let t1 = g1.run_trace(&w, &i, a1);
    let t2 = g2.run_trace(&w, &i, a2);

    let order1: Vec<usize> = t1.run_events.iter().map(|ev| ev.node_idx).collect();
    let order2: Vec<usize> = t2.run_events.iter().map(|ev| ev.node_idx).collect();
    assert_eq!(order1, order2);
    assert_eq!(t1.cleanup_order, t2.cleanup_order);
    match (&t1.result, &t2.result) {
        (Err(e1), Err(e2)) => {
            assert_eq!(e1.step_name, e2.step_name);
            assert_eq!(e1.msg, e2.msg);
        },
        _ => panic!("both executions should fail the same way"),
    }
}

#[test]
fn run_returns_the_run_phase_outcome() {
    let w = test_workspace();
    let i = test_instance();
    let mut g: StepGraph<EchoStep> = StepGraph::new();
    let a = g.add_node(EchoStep { msg: "a" });
    let b = g.add_node(EchoStep { msg: "b" });
    g.add_edge(a, b);

    assert!(g.run(&w, &i, a).is_ok());

    // the graph can be executed again: execution is read-only
    assert!(g.run(&w, &i, a).is_ok());

    // a different terminal slices the graph
    assert!(g.run(&w, &i, b).is_ok());
}

#[test]
fn stub_steps_behave_as_contracted() {
    let w = test_workspace();
    let i = test_instance();

    let finish = FinishStep {};
    assert_eq!(finish.name(), "finish");
    assert!(finish.run(&w, &i).is_ok());

    let ok_echo = EchoStep { msg: "hi" };
    assert_eq!(ok_echo.name(), "echo hi");
    assert!(ok_echo.run(&w, &i).is_ok());

    let err_echo = EchoStep { msg: "err" };
    assert_eq!(err_echo.name(), "echo err");
    assert_eq!(err_echo.run(&w, &i), Err(String::from("error")));
}
