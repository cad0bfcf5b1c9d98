use provision::config::{InstanceConfig, WorkspaceConfig};
use provision::steps::EchoStep;
use provision::{ProvisionSteps, provision_graph, run};

fn workspace() -> WorkspaceConfig {
    WorkspaceConfig {
        path: String::from("/ws"),
        img_path: String::from("/ws/os.img"),
        img_rootfs_offset: 272629760,
        img_boot_offset: 4194304,
        iscsi_target_ip: String::from("192.168.1.10"),
        nfs_server_ip: String::from("192.168.1.20"),
        nfs_tftp_dir: String::from("/srv/tftp"),
    }
}

fn instance(id: &str) -> InstanceConfig {
    InstanceConfig {
        id: String::from(id),
        iscsi_initiator_iqn: format!("iqn.2000-01.com.example:{}-init", id),
        iscsi_target_iqn: format!("iqn.2000-01.com.example:{}", id),
        mac_addr: String::from("aa-bb-cc-dd-ee-ff"),
        user_password: String::from("pi:SECRET-REDACTED"),
        root_ssh_key: String::from("ssh-ed25519 AAAA key"),
    }
}

fn echo_steps(mkdir_msg: &'static str) -> ProvisionSteps<EchoStep> {
    ProvisionSteps {
        mkdir: EchoStep { msg: mkdir_msg },
        mount_boot: EchoStep { msg: "mount boot" },
        login_iscsi: EchoStep { msg: "login" },
        prepare_rootfs: EchoStep { msg: "prepare" },
        copy_data: EchoStep { msg: "copy" },
        update_cmdline: EchoStep { msg: "cmdline" },
        configure_hostname: EchoStep { msg: "hostname" },
        configure_user_auth: EchoStep { msg: "auth" },
        finish: EchoStep { msg: "finish" },
    }
}

#[test]
fn provision_graph_executes_to_its_terminal() {
    let w = workspace();
    let i = instance("pi1");
    let (g, finish_step) = provision_graph(echo_steps("mkdir"));
    assert_eq!(finish_step, 8);
    assert!(g.run(&w, &i, finish_step).is_ok());
}

#[test]
fn driver_returns_one_result_per_instance() {
    let w = workspace();
    let specs = vec![instance("pi1"), instance("pi2"), instance("pi3")];
    let results = run(&w, &specs, echo_steps("mkdir"));
    assert_eq!(results.len(), 3);
    assert!(results.iter().all(|r| r.is_ok()));
}

#[test]
fn driver_surfaces_a_root_failure_for_every_instance() {
    let w = workspace();
    let specs = vec![instance("pi1"), instance("pi2")];
    let results = run(&w, &specs, echo_steps("err"));
    assert_eq!(results.len(), 2);
    for r in &results {
        match r {
            Err(e) => {
                assert_eq!(e.step_name, "echo err");
                assert_eq!(e.msg, "error");
            },
            Ok(()) => panic!("provisioning should fail when a root step fails"),
        }
    }
}

#[test]
fn canonical_graph_runs_in_dependency_order() {
    let w = workspace();
    let i = instance("pi1");
    let (g, finish_step) = provision_graph(echo_steps("mkdir"));

    let t = g.run_trace(&w, &i, finish_step);
    assert!(t.result.is_ok());
    assert_eq!(t.run_events.len(), 9);
    assert_eq!(t.cleanup_order.len(), 9);

    let pos = |node: usize| {
        t.run_events
            .iter()
            .position(|ev| ev.node_idx == node)
            .expect("node was not visited")
    };
    // node ids follow insertion order: mkdir 0, mount_boot 1, login_iscsi 2,
    // prepare_rootfs 3, copy_data 4, update_cmdline 5, configure_hostname 6,
    // configure_user_auth 7, finish 8
    assert!(pos(0) < pos(1)); // mkdir before mount_boot
    assert!(pos(0) < pos(3)); // mkdir before prepare_rootfs
    assert!(pos(2) < pos(3)); // login_iscsi before prepare_rootfs
    assert!(pos(1) < pos(4)); // mount_boot before copy_data
    assert!(pos(3) < pos(4)); // prepare_rootfs before copy_data
    assert!(pos(4) < pos(5)); // copy_data before update_cmdline
    assert!(pos(4) < pos(6)); // copy_data before configure_hostname
    assert!(pos(4) < pos(7)); // copy_data before configure_user_auth
    assert!(pos(5) < pos(8)); // everything before finish
    assert!(pos(6) < pos(8));
    assert!(pos(7) < pos(8));

    let cpos = |node: usize| {
        t.cleanup_order
            .iter()
            .position(|n| *n == node)
            .expect("node was not cleaned up")
    };
    // cleanup runs in reverse dependency order: e.g. the mounts are released
    // only after everything that used them is torn down
    assert!(cpos(8) < cpos(5));
    assert!(cpos(5) < cpos(4));
    assert!(cpos(4) < cpos(3));
    assert!(cpos(3) < cpos(2)); // prepare_rootfs cleans before login_iscsi logs out
    assert!(cpos(1) < cpos(0));
}
