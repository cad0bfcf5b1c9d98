use provision::config::{Config, ConfigError, InstanceConfig, WorkspaceConfig};
use provision::steps::{
    ConfigureHostnameStep, ConfigureUserAuthStep, CopyDataStep, LoginIscsiStep, MkdirStep,
    MountBootStep, PrepareRootfsStep, UpdateCmdlineStep, output_or_err, sed_args,
    trim_end_spaces, u64_string,
};

fn workspace() -> WorkspaceConfig {
    WorkspaceConfig {
        path: String::from("/ws"),
        img_path: String::from("/ws/os.img"),
        img_rootfs_offset: 272629760,
        img_boot_offset: 4194304,
        iscsi_target_ip: String::from("192.168.1.10"),
        nfs_server_ip: String::from("192.168.1.20"),
        nfs_tftp_dir: String::from("/srv/tftp"),
    }
}

fn instance() -> InstanceConfig {
    InstanceConfig {
        id: String::from("pi1"),
        iscsi_initiator_iqn: String::from("iqn.2000-01.com.example:pi1-init"),
        iscsi_target_iqn: String::from("iqn.2000-01.com.example:pi1"),
        mac_addr: String::from("aa-bb-cc-dd-ee-ff"),
        user_password: String::from("pi:SECRET-REDACTED"),
        root_ssh_key: String::from("ssh-ed25519 AAAA pi1"),
    }
}

#[test]
fn config_build_takes_two_paths() {
    let args = vec![
        String::from("provision"),
        String::from("/etc/workspace.json"),
        String::from("/etc/instances"),
    ];
    let cfg = Config::build(&args).unwrap();
    assert_eq!(cfg.workspace_config_path, "/etc/workspace.json");
    assert_eq!(cfg.instances_config_dir, "/etc/instances");
}

#[test]
fn config_build_reports_missing_arguments() {
    let none = vec![String::from("provision")];
    match Config::build(&none) {
        Err(e) => {
            assert!(matches!(e, ConfigError::MissingWorkspacePath));
            assert_eq!(e.message(), "missing workspace config path");
        },
        Ok(_) => panic!("build should fail without a workspace path"),
    }

    let one = vec![String::from("provision"), String::from("/etc/workspace.json")];
    match Config::build(&one) {
        Err(e) => {
            assert!(matches!(e, ConfigError::MissingInstancesDir));
            assert_eq!(e.message(), "missing instances config dir");
        },
        Ok(_) => panic!("build should fail without an instances dir"),
    }
}

#[test]
fn output_or_err_splits_on_status() {
    assert_eq!(
        output_or_err(true, String::from("exit status: 0"), String::from("out")),
        Ok(String::from("out"))
    );
    assert_eq!(
        output_or_err(false, String::from("exit status: 1"), String::from("out")),
        Err(String::from("exit status: 1"))
    );
}

#[test]
fn mkdir_paths() {
    let w = workspace();
    let i = instance();
    let s = MkdirStep {};
    assert_eq!(s.name(), "mkdir");
    assert_eq!(
        s.run_dirs(&w, &i),
        vec![
            String::from("/ws/pi1/mount/img/rootfs"),
            String::from("/ws/pi1/mount/img/boot"),
            String::from("/ws/pi1/mount/instance/rootfs"),
            String::from("/ws/pi1/mount/instance/boot"),
        ]
    );
    assert_eq!(
        s.cleanup_dirs(&w, &i),
        vec![
            String::from("/ws/pi1/mount/img/rootfs"),
            String::from("/ws/pi1/mount/img/boot"),
            String::from("/ws/pi1/mount/instance/rootfs"),
            String::from("/ws/pi1/mount/instance/boot"),
            String::from("/ws/pi1/mount/img"),
            String::from("/ws/pi1/mount/instance"),
            String::from("/ws/pi1/mount"),
            String::from("/ws/pi1"),
        ]
    );
}

#[test]
fn login_iscsi_commands() {
    let w = workspace();
    let i = instance();
    let s = LoginIscsiStep {};
    assert_eq!(s.name(), "login iSCSI");
    assert_eq!(
        s.discover_args(&w),
        vec!["--mode", "discovery", "--portal", "192.168.1.10", "--type", "sendtargets"]
    );
    assert_eq!(
        s.login_args(&w, &i),
        vec![
            "--mode",
            "node",
            "--targetname",
            "iqn.2000-01.com.example:pi1",
            "--portal",
            "192.168.1.10",
            "--login",
        ]
    );
    assert_eq!(
        s.logout_args(&w, &i),
        vec![
            "--mode",
            "node",
            "--targetname",
            "iqn.2000-01.com.example:pi1",
            "--portal",
            "192.168.1.10",
            "--logout",
        ]
    );
}

#[test]
fn prepare_rootfs_commands() {
    let w = workspace();
    let i = instance();
    let s = PrepareRootfsStep {};
    assert_eq!(s.name(), "prepare rootfs");
    let dev = "/dev/disk/by-path/ip-192.168.1.10:3260-iscsi-iqn.2000-01.com.example:pi1-lun-1";
    let part = format!("{}-part1", dev);
    assert_eq!(s.iscsi_dev_path(&w, &i), dev);
    assert_eq!(s.iscsi_part_path(&w, &i), part);
    assert_eq!(s.mklabel_args(&w, &i), vec!["--script", dev, "mklabel", "gpt"]);
    assert_eq!(
        s.mkpart_args(&w, &i),
        vec!["--script", "--align", "optimal", dev, "mkpart", "primary", "ext4", "0%", "100%"]
    );
    assert_eq!(s.mkfs_args(&w, &i), vec![String::from("-t"), String::from("ext4"), part.clone()]);
    assert_eq!(
        s.lsblk_name_args(&w, &i),
        vec![String::from("-n"), String::from("-o"), String::from("NAME"), part]
    );
    assert_eq!(s.dev_part_path("sda1"), "/dev/sda1");
    assert_eq!(s.rootfs_mount_path(&w, &i), "/ws/pi1/mount/instance/rootfs");
}

#[test]
fn mount_boot_values() {
    let w = workspace();
    let i = instance();
    let s = MountBootStep {};
    assert_eq!(s.name(), "mount boot");
    assert_eq!(s.nfs_path(&w, &i), "/srv/tftp/aa-bb-cc-dd-ee-ff");
    assert_eq!(s.nfs_mount_src(&w, &i), ":/srv/tftp/aa-bb-cc-dd-ee-ff");
    assert_eq!(s.nfs_mount_data(&w), "addr=192.168.1.20");
    assert_eq!(s.boot_mount_path(&w, &i), "/ws/pi1/mount/instance/boot");
}

#[test]
fn update_cmdline_values() {
    let w = workspace();
    let i = instance();
    let s = UpdateCmdlineStep {};
    assert_eq!(s.name(), "update command line");
    assert_eq!(s.rootfs_path(&w, &i), "/ws/pi1/mount/instance/rootfs");
    assert_eq!(s.fstab_path(&w, &i), "/ws/pi1/mount/instance/rootfs/etc/fstab");
    assert_eq!(s.cmdline_path(&w, &i), "/ws/pi1/mount/instance/boot/cmdline.txt");
    assert_eq!(
        s.findmnt_args(&w, &i),
        vec!["-n", "-o", "SOURCE", "/ws/pi1/mount/instance/rootfs"]
    );
    assert_eq!(s.lsblk_partuuid_args("/dev/sda1"), vec!["-n", "-o", "PARTUUID", "/dev/sda1"]);
    assert_eq!(
        s.fstab_sed_expr(&w, &i, "0a1b2c3d-04"),
        "s@.*/ +.*@PARTUUID=0a1b2c3d-04 / ext4 _netdev,noatime 0 1@;s@.*/boot/firmware +.*@192.168.1.20:/srv/tftp/aa-bb-cc-dd-ee-ff /boot/firmware nfs defaults,vers=4.1,proto=tcp 0 0@"
    );
    assert_eq!(
        s.cmdline_sed_expr(&w, &i, "0a1b2c3d-04"),
        format!(
            "s/root=PARTUUID=[0-9a-f-]+/root=PARTUUID={}/;s/$/ ip=dhcp ISCSI_INITIATOR={} \
             ISCSI_TARGET_NAME={} ISCSI_TARGET_IP={} rw/g",
            "0a1b2c3d-04",
            "iqn.2000-01.com.example:pi1-init",
            "iqn.2000-01.com.example:pi1",
            "192.168.1.10",
        )
    );
    assert_eq!(sed_args("s/x/y/", "/tmp/f"), vec!["-i", "-r", "-e", "s/x/y/", "/tmp/f"]);
}

#[test]
fn copy_data_values() {
    let w = workspace();
    let i = instance();
    let s = CopyDataStep {};
    assert_eq!(s.name(), "copy data");
    assert_eq!(s.img_boot_mount_path(&w, &i), "/ws/pi1/mount/img/boot");
    assert_eq!(s.img_rootfs_mount_path(&w, &i), "/ws/pi1/mount/img/rootfs");
    assert_eq!(s.instance_mount_path(&w, &i), "/ws/pi1/mount/instance");
    assert_eq!(
        s.cp_args("/ws/pi1/mount/img/boot", "/ws/pi1/mount/instance"),
        vec!["-r", "/ws/pi1/mount/img/boot", "/ws/pi1/mount/instance"]
    );
}

#[test]
fn configure_user_auth_values() {
    let w = workspace();
    let i = instance();
    let s = ConfigureUserAuthStep {};
    assert_eq!(s.name(), "configure auth");
    assert_eq!(s.userconf_path(&w, &i), "/ws/pi1/mount/instance/boot/userconf.txt");
    assert_eq!(s.userconf_contents(&i), "pi:SECRET-REDACTED\n");
    assert_eq!(
        s.authorized_keys_path(&w, &i),
        "/ws/pi1/mount/instance/rootfs/root/.ssh/authorized_keys"
    );
    assert_eq!(s.authorized_keys_contents(&i), "ssh-ed25519 AAAA pi1\n");
}

#[test]
fn configure_hostname_values() {
    let w = workspace();
    let i = instance();
    let s = ConfigureHostnameStep {};
    assert_eq!(s.name(), "configure hostname");
    let (path, contents) = s.configure_etc_hostname(&w, &i);
    assert_eq!(path, "/ws/pi1/mount/instance/rootfs/etc/hostname");
    assert_eq!(contents, "pi1\n");
    assert_eq!(s.hosts_path(&w, &i), "/ws/pi1/mount/instance/rootfs/etc/hosts");
    assert_eq!(s.hosts_sed_expr(&i), "s/(.*)raspberrypi(.*?)$/\\1pi1\\2/g");
}

#[test]
fn trim_end_spaces_drops_trailing_whitespace_only() {
    assert_eq!(trim_end_spaces("sda1\n"), "sda1");
    assert_eq!(trim_end_spaces("0a1b2c3d-04\r\n"), "0a1b2c3d-04");
    assert_eq!(trim_end_spaces("  spaced  \t "), "  spaced");
    assert_eq!(trim_end_spaces(""), "");
    assert_eq!(trim_end_spaces("\n\n"), "");
    assert_eq!(trim_end_spaces("untouched"), "untouched");
}

#[test]
fn u64_string_renders_decimal() {
    assert_eq!(u64_string(0), "0");
    assert_eq!(u64_string(9), "9");
    assert_eq!(u64_string(10), "10");
    assert_eq!(u64_string(272629760), "272629760");
    assert_eq!(u64_string(u64::MAX), "18446744073709551615");
}

#[test]
fn copy_data_mount_commands() {
    let s = CopyDataStep {};
    assert_eq!(
        s.mount_args("/ws/os.img", 4194304, "/ws/pi1/mount/img/boot"),
        vec!["-o", "loop,ro,offset=4194304", "/ws/os.img", "/ws/pi1/mount/img/boot"]
    );
    assert_eq!(
        s.umount_args("/ws/pi1/mount/img/boot"),
        vec!["-d", "/ws/pi1/mount/img/boot"]
    );
}
