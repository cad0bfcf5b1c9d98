use vstd::prelude::*;
use vstd::string::StrSliceExecFns;
use vstd::string::StringExecFns;

use crate::config;

verus! {

/// Represents a single step in provisioning an instance.
///
/// Steps own no cross-step state; all shared context is passed through the
/// workspace and instance specifications. `run` may fail with a
/// human-readable cause; `cleanup` always returns and is best effort, and
/// must tolerate being invoked for a step whose run never happened.
pub trait Step {
    /// The step's name, as a specification-level value, so that errors the
    /// executor stamps can be traced back to the step that raised them.
    /// Implementations meant for verified reasoning override this; the
    /// default claims an empty name, which `name` then has to live up to.
    open spec fn spec_name(&self) -> Seq<char> {
        Seq::<char>::empty()
    }

    /// What the step's run may return. The default promises nothing, which
    /// fits an implementation whose outcome depends on the outside world; a
    /// deterministic one can pin its result exactly, and the executor's
    /// contracts carry the promise through to the trace.
    open spec fn run_post(
        &self,
        workspace_spec: &config::WorkspaceConfig,
        instance_spec: &config::InstanceConfig,
        r: Result<(), String>,
    ) -> bool {
        true
    }

    /// Returns the name of the step.
    fn name(&self) -> (r: String)
        ensures
            r@ == self.spec_name(),
    ;

    /// Runs the step's provisioning logic.
    fn run(
        &self,
        workspace_spec: &config::WorkspaceConfig,
        instance_spec: &config::InstanceConfig,
    ) -> (r: Result<(), String>)
        ensures
            self.run_post(workspace_spec, instance_spec, r),
    ;

    /// Cleans up the step's provisioning logic.
    fn cleanup(
        &self,
        workspace_spec: &config::WorkspaceConfig,
        instance_spec: &config::InstanceConfig,
    );
}

/// Splits a finished command's observation into its standard output on
/// success and its exit-status rendering on failure.
pub fn output_or_err(success: bool, status: String, stdout: String) -> (r: Result<String, String>)
    ensures
        success ==> r == Ok::<String, String>(stdout),
        !success ==> r == Err::<String, String>(status),
{
    if success {
        Ok(stdout)
    } else {
        Err(status)
    }
}

/// A character the output trim removes: ASCII whitespace, which is all that
/// the consumed command output carries at its end.
pub open spec fn is_trim_space(c: char) -> bool {
    c == ' ' || c == '\n' || c == '\t' || c == '\r'
}

fn is_trim_space_exec(c: char) -> (r: bool)
    ensures
        r == is_trim_space(c),
{
    c == ' ' || c == '\n' || c == '\t' || c == '\r'
}

/// The length of `s` without its trailing whitespace.
pub open spec fn trimmed_len(s: Seq<char>) -> nat
    decreases s.len(),
{
    if s.len() == 0 {
        0
    } else if is_trim_space(s[s.len() - 1]) {
        trimmed_len(s.drop_last())
    } else {
        s.len()
    }
}

proof fn lemma_trimmed_len_at(s: Seq<char>, k: int)
    requires
        0 <= k <= s.len(),
        forall|j: int| k <= j < s.len() ==> is_trim_space(#[trigger] s[j]),
        k == 0 || !is_trim_space(s[k - 1]),
    ensures
        trimmed_len(s) == k,
    decreases s.len(),
{
    if s.len() > 0 && k < s.len() {
        assert(is_trim_space(s[s.len() - 1]));
        assert forall|j: int| k <= j < s.drop_last().len() implies is_trim_space(
            #[trigger] s.drop_last()[j],
        ) by {
            assert(s.drop_last()[j] == s[j]);
        };
        lemma_trimmed_len_at(s.drop_last(), k);
    }
}

/// Trims trailing whitespace from a line of command output, as the consumed
/// device names and partition ids are reported with a final newline.
pub fn trim_end_spaces<'a>(s: &'a str) -> (r: &'a str)
    ensures
        r@ == s@.subrange(0, trimmed_len(s@) as int),
{
    let len = s.unicode_len();
    let mut k = len;
    while k > 0 && is_trim_space_exec(s.get_char(k - 1))
        invariant
            k <= len,
            len == s@.len(),
            forall|j: int| k <= j < s@.len() ==> is_trim_space(#[trigger] s@[j]),
        decreases k,
    {
        k = k - 1;
    }
    proof {
        lemma_trimmed_len_at(s@, k as int);
    }
    s.substring_char(0, k)
}

/// The character for one decimal digit.
pub open spec fn digit_char(d: nat) -> char {
    if d == 0 {
        '0'
    } else if d == 1 {
        '1'
    } else if d == 2 {
        '2'
    } else if d == 3 {
        '3'
    } else if d == 4 {
        '4'
    } else if d == 5 {
        '5'
    } else if d == 6 {
        '6'
    } else if d == 7 {
        '7'
    } else if d == 8 {
        '8'
    } else {
        '9'
    }
}

/// The decimal rendering of `n`, most significant digit first.
pub open spec fn dec_digits(n: nat) -> Seq<char>
    decreases n,
{
    if n < 10 {
        seq![digit_char(n)]
    } else {
        dec_digits(n / 10).push(digit_char(n % 10))
    }
}

fn digit_str(d: u64) -> (r: &'static str)
    requires
        d < 10,
    ensures
        r@ == seq![digit_char(d as nat)],
{
    let r: &'static str = if d == 0 {
        "0"
    } else if d == 1 {
        "1"
    } else if d == 2 {
        "2"
    } else if d == 3 {
        "3"
    } else if d == 4 {
        "4"
    } else if d == 5 {
        "5"
    } else if d == 6 {
        "6"
    } else if d == 7 {
        "7"
    } else if d == 8 {
        "8"
    } else {
        "9"
    };
    proof {
        reveal_strlit("0");
        reveal_strlit("1");
        reveal_strlit("2");
        reveal_strlit("3");
        reveal_strlit("4");
        reveal_strlit("5");
        reveal_strlit("6");
        reveal_strlit("7");
        reveal_strlit("8");
        reveal_strlit("9");
        assert(r@ =~= seq![digit_char(d as nat)]);
    }
    r
}

/// Renders `n` in decimal, as the mount options carry the partition offset.
pub fn u64_string(n: u64) -> (r: String)
    ensures
        r@ == dec_digits(n as nat),
    decreases n,
{
    if n < 10 {
        digit_str(n).to_owned()
    } else {
        let mut r = u64_string(n / 10);
        r.append(digit_str(n % 10));
        proof {
            assert(r@ =~= dec_digits(n as nat));
        }
        r
    }
}

/// `<a>/<b>`, as collecting the two components into a path renders it.
fn join2(a: &str, b: &str) -> (r: String)
    ensures
        r@ == a@ + "/"@ + b@,
{
    let mut r = a.to_owned();
    r.append("/");
    r.append(b);
    proof {
        assert(r@ =~= a@ + "/"@ + b@);
    }
    r
}

/// `<workspace path>/<instance id>`, the per-instance working directory.
pub open spec fn instance_dir(w: &config::WorkspaceConfig, i: &config::InstanceConfig) -> Seq<
    char,
> {
    w.path@ + "/"@ + i.id@
}

/// `<instance dir>/mount`.
pub open spec fn mount_dir(w: &config::WorkspaceConfig, i: &config::InstanceConfig) -> Seq<char> {
    instance_dir(w, i) + "/"@ + "mount"@
}

/// `<mount dir>/img`, where the OS image's partitions get mounted.
pub open spec fn img_dir(w: &config::WorkspaceConfig, i: &config::InstanceConfig) -> Seq<char> {
    mount_dir(w, i) + "/"@ + "img"@
}

/// `<mount dir>/instance`, where the instance's own storage gets mounted.
pub open spec fn inst_dir(w: &config::WorkspaceConfig, i: &config::InstanceConfig) -> Seq<char> {
    mount_dir(w, i) + "/"@ + "instance"@
}

/// `<img dir>/rootfs`.
pub open spec fn img_rootfs_dir(w: &config::WorkspaceConfig, i: &config::InstanceConfig) -> Seq<
    char,
> {
    img_dir(w, i) + "/"@ + "rootfs"@
}

/// `<img dir>/boot`.
pub open spec fn img_boot_dir(w: &config::WorkspaceConfig, i: &config::InstanceConfig) -> Seq<
    char,
> {
    img_dir(w, i) + "/"@ + "boot"@
}

/// `<instance dir>/rootfs`, the mounted instance root filesystem.
pub open spec fn inst_rootfs_dir(w: &config::WorkspaceConfig, i: &config::InstanceConfig) -> Seq<
    char,
> {
    inst_dir(w, i) + "/"@ + "rootfs"@
}

/// `<instance dir>/boot`, the mounted instance boot filesystem.
pub open spec fn inst_boot_dir(w: &config::WorkspaceConfig, i: &config::InstanceConfig) -> Seq<
    char,
> {
    inst_dir(w, i) + "/"@ + "boot"@
}

fn instance_dir_of(w: &config::WorkspaceConfig, i: &config::InstanceConfig) -> (r: String)
    ensures
        r@ == instance_dir(w, i),
{
    join2(w.path.as_str(), i.id.as_str())
}

fn mount_dir_of(w: &config::WorkspaceConfig, i: &config::InstanceConfig) -> (r: String)
    ensures
        r@ == mount_dir(w, i),
{
    let base = instance_dir_of(w, i);
    join2(base.as_str(), "mount")
}

fn img_dir_of(w: &config::WorkspaceConfig, i: &config::InstanceConfig) -> (r: String)
    ensures
        r@ == img_dir(w, i),
{
    let base = mount_dir_of(w, i);
    join2(base.as_str(), "img")
}

fn inst_dir_of(w: &config::WorkspaceConfig, i: &config::InstanceConfig) -> (r: String)
    ensures
        r@ == inst_dir(w, i),
{
    let base = mount_dir_of(w, i);
    join2(base.as_str(), "instance")
}

fn img_rootfs_dir_of(w: &config::WorkspaceConfig, i: &config::InstanceConfig) -> (r: String)
    ensures
        r@ == img_rootfs_dir(w, i),
{
    let base = img_dir_of(w, i);
    join2(base.as_str(), "rootfs")
}

fn img_boot_dir_of(w: &config::WorkspaceConfig, i: &config::InstanceConfig) -> (r: String)
    ensures
        r@ == img_boot_dir(w, i),
{
    let base = img_dir_of(w, i);
    join2(base.as_str(), "boot")
}

fn inst_rootfs_dir_of(w: &config::WorkspaceConfig, i: &config::InstanceConfig) -> (r: String)
    ensures
        r@ == inst_rootfs_dir(w, i),
{
    let base = inst_dir_of(w, i);
    join2(base.as_str(), "rootfs")
}

fn inst_boot_dir_of(w: &config::WorkspaceConfig, i: &config::InstanceConfig) -> (r: String)
    ensures
        r@ == inst_boot_dir(w, i),
{
    let base = inst_dir_of(w, i);
    join2(base.as_str(), "boot")
}

/// Creates requisite directories for instance provisioning.
pub struct MkdirStep {}

impl MkdirStep {
    /// Returns the name of the step.
    pub fn name(&self) -> (r: String)
        ensures
            r@ == "mkdir"@,
    {
        String::from_str("mkdir")
    }

    /// The four directories the step's run creates, in creation order.
    pub fn run_dirs(
        &self,
        workspace_spec: &config::WorkspaceConfig,
        instance_spec: &config::InstanceConfig,
    ) -> (r: Vec<String>)
        ensures
            r@.len() == 4,
            r@[0]@ == img_rootfs_dir(workspace_spec, instance_spec),
            r@[1]@ == img_boot_dir(workspace_spec, instance_spec),
            r@[2]@ == inst_rootfs_dir(workspace_spec, instance_spec),
            r@[3]@ == inst_boot_dir(workspace_spec, instance_spec),
    {
        let mut r: Vec<String> = Vec::new();
        r.push(img_rootfs_dir_of(workspace_spec, instance_spec));
        r.push(img_boot_dir_of(workspace_spec, instance_spec));
        r.push(inst_rootfs_dir_of(workspace_spec, instance_spec));
        r.push(inst_boot_dir_of(workspace_spec, instance_spec));
        r
    }

    /// The eight directories the step's cleanup removes, leaves first so
    /// that each directory is empty by the time it is removed.
    pub fn cleanup_dirs(
        &self,
        workspace_spec: &config::WorkspaceConfig,
        instance_spec: &config::InstanceConfig,
    ) -> (r: Vec<String>)
        ensures
            r@.len() == 8,
            r@[0]@ == img_rootfs_dir(workspace_spec, instance_spec),
            r@[1]@ == img_boot_dir(workspace_spec, instance_spec),
            r@[2]@ == inst_rootfs_dir(workspace_spec, instance_spec),
            r@[3]@ == inst_boot_dir(workspace_spec, instance_spec),
            r@[4]@ == img_dir(workspace_spec, instance_spec),
            r@[5]@ == inst_dir(workspace_spec, instance_spec),
            r@[6]@ == mount_dir(workspace_spec, instance_spec),
            r@[7]@ == instance_dir(workspace_spec, instance_spec),
    {
        let mut r: Vec<String> = Vec::new();
        r.push(img_rootfs_dir_of(workspace_spec, instance_spec));
        r.push(img_boot_dir_of(workspace_spec, instance_spec));
        r.push(inst_rootfs_dir_of(workspace_spec, instance_spec));
        r.push(inst_boot_dir_of(workspace_spec, instance_spec));
        r.push(img_dir_of(workspace_spec, instance_spec));
        r.push(inst_dir_of(workspace_spec, instance_spec));
        r.push(mount_dir_of(workspace_spec, instance_spec));
        r.push(instance_dir_of(workspace_spec, instance_spec));
        r
    }
}

/// Logs into the workspace iSCSI portal and instance iSCSI target.
pub struct LoginIscsiStep {}

impl LoginIscsiStep {
    /// Returns the name of the step.
    pub fn name(&self) -> (r: String)
        ensures
            r@ == "login iSCSI"@,
    {
        String::from_str("login iSCSI")
    }

    /// Arguments for discovering the portal's targets.
    pub fn discover_args(&self, workspace_spec: &config::WorkspaceConfig) -> (r: Vec<String>)
        ensures
            r@.len() == 6,
            r@[0]@ == "--mode"@,
            r@[1]@ == "discovery"@,
            r@[2]@ == "--portal"@,
            r@[3]@ == workspace_spec.iscsi_target_ip@,
            r@[4]@ == "--type"@,
            r@[5]@ == "sendtargets"@,
    {
        let mut r: Vec<String> = Vec::new();
        r.push("--mode".to_owned());
        r.push("discovery".to_owned());
        r.push("--portal".to_owned());
        r.push(workspace_spec.iscsi_target_ip.clone());
        r.push("--type".to_owned());
        r.push("sendtargets".to_owned());
        r
    }

    /// Arguments for logging into the instance's target.
    pub fn login_args(
        &self,
        workspace_spec: &config::WorkspaceConfig,
        instance_spec: &config::InstanceConfig,
    ) -> (r: Vec<String>)
        ensures
            r@.len() == 7,
            r@[0]@ == "--mode"@,
            r@[1]@ == "node"@,
            r@[2]@ == "--targetname"@,
            r@[3]@ == instance_spec.iscsi_target_iqn@,
            r@[4]@ == "--portal"@,
            r@[5]@ == workspace_spec.iscsi_target_ip@,
            r@[6]@ == "--login"@,
    {
        let mut r: Vec<String> = Vec::new();
        r.push("--mode".to_owned());
        r.push("node".to_owned());
        r.push("--targetname".to_owned());
        r.push(instance_spec.iscsi_target_iqn.clone());
        r.push("--portal".to_owned());
        r.push(workspace_spec.iscsi_target_ip.clone());
        r.push("--login".to_owned());
        r
    }

    /// Arguments for logging back out of the instance's target.
    pub fn logout_args(
        &self,
        workspace_spec: &config::WorkspaceConfig,
        instance_spec: &config::InstanceConfig,
    ) -> (r: Vec<String>)
        ensures
            r@.len() == 7,
            r@[0]@ == "--mode"@,
            r@[1]@ == "node"@,
            r@[2]@ == "--targetname"@,
            r@[3]@ == instance_spec.iscsi_target_iqn@,
            r@[4]@ == "--portal"@,
            r@[5]@ == workspace_spec.iscsi_target_ip@,
            r@[6]@ == "--logout"@,
    {
        let mut r: Vec<String> = Vec::new();
        r.push("--mode".to_owned());
        r.push("node".to_owned());
        r.push("--targetname".to_owned());
        r.push(instance_spec.iscsi_target_iqn.clone());
        r.push("--portal".to_owned());
        r.push(workspace_spec.iscsi_target_ip.clone());
        r.push("--logout".to_owned());
        r
    }
}

/// The device path the initiator exposes for the instance's iSCSI disk.
pub open spec fn iscsi_dev_path_spec(
    w: &config::WorkspaceConfig,
    i: &config::InstanceConfig,
) -> Seq<char> {
    "/dev/disk/by-path/ip-"@ + w.iscsi_target_ip@ + ":3260-iscsi-"@ + i.iscsi_target_iqn@
        + "-lun-1"@
}

/// Formats the iSCSI target device and creates an ext4 filesystem on the
/// device.
pub struct PrepareRootfsStep {}

impl PrepareRootfsStep {
    /// Returns the name of the step.
    pub fn name(&self) -> (r: String)
        ensures
            r@ == "prepare rootfs"@,
    {
        String::from_str("prepare rootfs")
    }

    /// The whole-disk device path for the instance's iSCSI disk.
    pub fn iscsi_dev_path(
        &self,
        workspace_spec: &config::WorkspaceConfig,
        instance_spec: &config::InstanceConfig,
    ) -> (r: String)
        ensures
            r@ == iscsi_dev_path_spec(workspace_spec, instance_spec),
    {
        let mut r = String::from_str("/dev/disk/by-path/ip-");
        r.append(workspace_spec.iscsi_target_ip.as_str());
        r.append(":3260-iscsi-");
        r.append(instance_spec.iscsi_target_iqn.as_str());
        r.append("-lun-1");
        proof {
            assert(r@ =~= iscsi_dev_path_spec(workspace_spec, instance_spec));
        }
        r
    }

    /// The first partition's device path on the instance's iSCSI disk.
    pub fn iscsi_part_path(
        &self,
        workspace_spec: &config::WorkspaceConfig,
        instance_spec: &config::InstanceConfig,
    ) -> (r: String)
        ensures
            r@ == iscsi_dev_path_spec(workspace_spec, instance_spec) + "-part1"@,
    {
        let mut r = self.iscsi_dev_path(workspace_spec, instance_spec);
        r.append("-part1");
        r
    }

    /// Arguments for writing a GPT partition table onto the disk.
    pub fn mklabel_args(
        &self,
        workspace_spec: &config::WorkspaceConfig,
        instance_spec: &config::InstanceConfig,
    ) -> (r: Vec<String>)
        ensures
            r@.len() == 4,
            r@[0]@ == "--script"@,
            r@[1]@ == iscsi_dev_path_spec(workspace_spec, instance_spec),
            r@[2]@ == "mklabel"@,
            r@[3]@ == "gpt"@,
    {
        let mut r: Vec<String> = Vec::new();
        r.push("--script".to_owned());
        r.push(self.iscsi_dev_path(workspace_spec, instance_spec));
        r.push("mklabel".to_owned());
        r.push("gpt".to_owned());
        r
    }

    /// Arguments for creating one ext4 partition covering the whole disk.
    pub fn mkpart_args(
        &self,
        workspace_spec: &config::WorkspaceConfig,
        instance_spec: &config::InstanceConfig,
    ) -> (r: Vec<String>)
        ensures
            r@.len() == 9,
            r@[0]@ == "--script"@,
            r@[1]@ == "--align"@,
            r@[2]@ == "optimal"@,
            r@[3]@ == iscsi_dev_path_spec(workspace_spec, instance_spec),
            r@[4]@ == "mkpart"@,
            r@[5]@ == "primary"@,
            r@[6]@ == "ext4"@,
            r@[7]@ == "0%"@,
            r@[8]@ == "100%"@,
    {
        let mut r: Vec<String> = Vec::new();
        r.push("--script".to_owned());
        r.push("--align".to_owned());
        r.push("optimal".to_owned());
        r.push(self.iscsi_dev_path(workspace_spec, instance_spec));
        r.push("mkpart".to_owned());
        r.push("primary".to_owned());
        r.push("ext4".to_owned());
        r.push("0%".to_owned());
        r.push("100%".to_owned());
        r
    }

    /// Arguments for creating the ext4 filesystem on the new partition.
    pub fn mkfs_args(
        &self,
        workspace_spec: &config::WorkspaceConfig,
        instance_spec: &config::InstanceConfig,
    ) -> (r: Vec<String>)
        ensures
            r@.len() == 3,
            r@[0]@ == "-t"@,
            r@[1]@ == "ext4"@,
            r@[2]@ == iscsi_dev_path_spec(workspace_spec, instance_spec) + "-part1"@,
    {
        let mut r: Vec<String> = Vec::new();
        r.push("-t".to_owned());
        r.push("ext4".to_owned());
        r.push(self.iscsi_part_path(workspace_spec, instance_spec));
        r
    }

    /// Arguments for resolving the partition's kernel device name.
    pub fn lsblk_name_args(
        &self,
        workspace_spec: &config::WorkspaceConfig,
        instance_spec: &config::InstanceConfig,
    ) -> (r: Vec<String>)
        ensures
            r@.len() == 4,
            r@[0]@ == "-n"@,
            r@[1]@ == "-o"@,
            r@[2]@ == "NAME"@,
            r@[3]@ == iscsi_dev_path_spec(workspace_spec, instance_spec) + "-part1"@,
    {
        let mut r: Vec<String> = Vec::new();
        r.push("-n".to_owned());
        r.push("-o".to_owned());
        r.push("NAME".to_owned());
        r.push(self.iscsi_part_path(workspace_spec, instance_spec));
        r
    }

    /// The kernel device path for a device name reported by the listing.
    pub fn dev_part_path(&self, part_name: &str) -> (r: String)
        ensures
            r@ == "/dev/"@ + part_name@,
    {
        let mut r = String::from_str("/dev/");
        r.append(part_name);
        r
    }

    /// Where the prepared root filesystem gets mounted.
    pub fn rootfs_mount_path(
        &self,
        workspace_spec: &config::WorkspaceConfig,
        instance_spec: &config::InstanceConfig,
    ) -> (r: String)
        ensures
            r@ == inst_rootfs_dir(workspace_spec, instance_spec),
    {
        inst_rootfs_dir_of(workspace_spec, instance_spec)
    }
}

/// Mounts the instance's boot directory from the workspace NFS server.
pub struct MountBootStep {}

impl MountBootStep {
    /// Returns the name of the step.
    pub fn name(&self) -> (r: String)
        ensures
            r@ == "mount boot"@,
    {
        String::from_str("mount boot")
    }

    /// The instance's directory in the TFTP tree, keyed by MAC address.
    pub fn nfs_path(
        &self,
        workspace_spec: &config::WorkspaceConfig,
        instance_spec: &config::InstanceConfig,
    ) -> (r: String)
        ensures
            r@ == workspace_spec.nfs_tftp_dir@ + "/"@ + instance_spec.mac_addr@,
    {
        join2(workspace_spec.nfs_tftp_dir.as_str(), instance_spec.mac_addr.as_str())
    }

    /// The NFS mount source, `:<nfs path>`.
    pub fn nfs_mount_src(
        &self,
        workspace_spec: &config::WorkspaceConfig,
        instance_spec: &config::InstanceConfig,
    ) -> (r: String)
        ensures
            r@ == ":"@ + workspace_spec.nfs_tftp_dir@ + "/"@ + instance_spec.mac_addr@,
    {
        let mut r = String::from_str(":");
        let p = self.nfs_path(workspace_spec, instance_spec);
        r.append(p.as_str());
        proof {
            assert(r@ =~= ":"@ + workspace_spec.nfs_tftp_dir@ + "/"@ + instance_spec.mac_addr@);
        }
        r
    }

    /// The mount data option naming the NFS server, `addr=<ip>`.
    pub fn nfs_mount_data(&self, workspace_spec: &config::WorkspaceConfig) -> (r: String)
        ensures
            r@ == "addr="@ + workspace_spec.nfs_server_ip@,
    {
        let mut r = String::from_str("addr=");
        r.append(workspace_spec.nfs_server_ip.as_str());
        r
    }

    /// Where the boot directory gets mounted.
    pub fn boot_mount_path(
        &self,
        workspace_spec: &config::WorkspaceConfig,
        instance_spec: &config::InstanceConfig,
    ) -> (r: String)
        ensures
            r@ == inst_boot_dir(workspace_spec, instance_spec),
    {
        inst_boot_dir_of(workspace_spec, instance_spec)
    }
}

/// Updates the kernel command line to boot via iSCSI.
pub struct UpdateCmdlineStep {}

impl UpdateCmdlineStep {
    /// Returns the name of the step.
    pub fn name(&self) -> (r: String)
        ensures
            r@ == "update command line"@,
    {
        String::from_str("update command line")
    }

    /// The mounted instance root filesystem.
    pub fn rootfs_path(
        &self,
        workspace_spec: &config::WorkspaceConfig,
        instance_spec: &config::InstanceConfig,
    ) -> (r: String)
        ensures
            r@ == inst_rootfs_dir(workspace_spec, instance_spec),
    {
        inst_rootfs_dir_of(workspace_spec, instance_spec)
    }

    /// The instance's fstab, inside the mounted root filesystem.
    pub fn fstab_path(
        &self,
        workspace_spec: &config::WorkspaceConfig,
        instance_spec: &config::InstanceConfig,
    ) -> (r: String)
        ensures
            r@ == inst_rootfs_dir(workspace_spec, instance_spec) + "/"@ + "etc/fstab"@,
    {
        let base = inst_rootfs_dir_of(workspace_spec, instance_spec);
        join2(base.as_str(), "etc/fstab")
    }

    /// The instance's kernel command line file, inside the mounted boot
    /// directory.
    pub fn cmdline_path(
        &self,
        workspace_spec: &config::WorkspaceConfig,
        instance_spec: &config::InstanceConfig,
    ) -> (r: String)
        ensures
            r@ == inst_boot_dir(workspace_spec, instance_spec) + "/"@ + "cmdline.txt"@,
    {
        let base = inst_boot_dir_of(workspace_spec, instance_spec);
        join2(base.as_str(), "cmdline.txt")
    }

    /// Arguments for resolving the mounted root filesystem's source device.
    pub fn findmnt_args(
        &self,
        workspace_spec: &config::WorkspaceConfig,
        instance_spec: &config::InstanceConfig,
    ) -> (r: Vec<String>)
        ensures
            r@.len() == 4,
            r@[0]@ == "-n"@,
            r@[1]@ == "-o"@,
            r@[2]@ == "SOURCE"@,
            r@[3]@ == inst_rootfs_dir(workspace_spec, instance_spec),
    {
        let mut r: Vec<String> = Vec::new();
        r.push("-n".to_owned());
        r.push("-o".to_owned());
        r.push("SOURCE".to_owned());
        r.push(inst_rootfs_dir_of(workspace_spec, instance_spec));
        r
    }

    /// Arguments for reading a device's partition UUID.
    pub fn lsblk_partuuid_args(&self, mount_source: &str) -> (r: Vec<String>)
        ensures
            r@.len() == 4,
            r@[0]@ == "-n"@,
            r@[1]@ == "-o"@,
            r@[2]@ == "PARTUUID"@,
            r@[3]@ == mount_source@,
    {
        let mut r: Vec<String> = Vec::new();
        r.push("-n".to_owned());
        r.push("-o".to_owned());
        r.push("PARTUUID".to_owned());
        r.push(mount_source.to_owned());
        r
    }

    /// The stream-editor expression rewriting the instance's fstab: the root
    /// filesystem by partition UUID, and the boot directory from the
    /// workspace NFS server's TFTP tree.
    pub fn fstab_sed_expr(
        &self,
        workspace_spec: &config::WorkspaceConfig,
        instance_spec: &config::InstanceConfig,
        partuuid: &str,
    ) -> (r: String)
        ensures
            r@ == "s@.*/ +.*@PARTUUID="@ + partuuid@
                + " / ext4 _netdev,noatime 0 1@;s@.*/boot/firmware +.*@"@
                + workspace_spec.nfs_server_ip@ + ":"@ + workspace_spec.nfs_tftp_dir@ + "/"@
                + instance_spec.mac_addr@
                + " /boot/firmware nfs defaults,vers=4.1,proto=tcp 0 0@"@,
    {
        let mut r = String::from_str("s@.*/ +.*@PARTUUID=");
        r.append(partuuid);
        r.append(" / ext4 _netdev,noatime 0 1@;s@.*/boot/firmware +.*@");
        r.append(workspace_spec.nfs_server_ip.as_str());
        r.append(":");
        r.append(workspace_spec.nfs_tftp_dir.as_str());
        r.append("/");
        r.append(instance_spec.mac_addr.as_str());
        r.append(" /boot/firmware nfs defaults,vers=4.1,proto=tcp 0 0@");
        proof {
            assert(r@ =~= "s@.*/ +.*@PARTUUID="@ + partuuid@
                + " / ext4 _netdev,noatime 0 1@;s@.*/boot/firmware +.*@"@
                + workspace_spec.nfs_server_ip@ + ":"@ + workspace_spec.nfs_tftp_dir@ + "/"@
                + instance_spec.mac_addr@
                + " /boot/firmware nfs defaults,vers=4.1,proto=tcp 0 0@"@);
        }
        r
    }

    /// The stream-editor expression rewriting the kernel command line: the
    /// root partition UUID, plus the iSCSI initiator, target and portal the
    /// kernel needs to reach its root filesystem over the network.
    pub fn cmdline_sed_expr(
        &self,
        workspace_spec: &config::WorkspaceConfig,
        instance_spec: &config::InstanceConfig,
        partuuid: &str,
    ) -> (r: String)
        ensures
            r@ == "s/root=PARTUUID=[0-9a-f-]+/root=PARTUUID="@ + partuuid@
                + "/;s/$/ ip=dhcp ISCSI_INITIATOR="@ + instance_spec.iscsi_initiator_iqn@
                + " ISCSI_TARGET_NAME="@ + instance_spec.iscsi_target_iqn@ + " ISCSI_TARGET_IP="@
                + workspace_spec.iscsi_target_ip@ + " rw/g"@,
    {
        let mut r = String::from_str("s/root=PARTUUID=[0-9a-f-]+/root=PARTUUID=");
        r.append(partuuid);
        r.append("/;s/$/ ip=dhcp ISCSI_INITIATOR=");
        r.append(instance_spec.iscsi_initiator_iqn.as_str());
        r.append(" ISCSI_TARGET_NAME=");
        r.append(instance_spec.iscsi_target_iqn.as_str());
        r.append(" ISCSI_TARGET_IP=");
        r.append(workspace_spec.iscsi_target_ip.as_str());
        r.append(" rw/g");
        proof {
            assert(r@ =~= "s/root=PARTUUID=[0-9a-f-]+/root=PARTUUID="@ + partuuid@
                + "/;s/$/ ip=dhcp ISCSI_INITIATOR="@ + instance_spec.iscsi_initiator_iqn@
                + " ISCSI_TARGET_NAME="@ + instance_spec.iscsi_target_iqn@ + " ISCSI_TARGET_IP="@
                + workspace_spec.iscsi_target_ip@ + " rw/g"@);
        }
        r
    }

}

/// Arguments for editing `path` in place with the extended-regular
/// stream-editor expression `expr`.
pub fn sed_args(expr: &str, path: &str) -> (r: Vec<String>)
    ensures
        r@.len() == 5,
        r@[0]@ == "-i"@,
        r@[1]@ == "-r"@,
        r@[2]@ == "-e"@,
        r@[3]@ == expr@,
        r@[4]@ == path@,
{
    let mut r: Vec<String> = Vec::new();
    r.push("-i".to_owned());
    r.push("-r".to_owned());
    r.push("-e".to_owned());
    r.push(expr.to_owned());
    r.push(path.to_owned());
    r
}

/// Copies OS image data to the boot and rootfs mounts.
pub struct CopyDataStep {}

impl CopyDataStep {
    /// Returns the name of the step.
    pub fn name(&self) -> (r: String)
        ensures
            r@ == "copy data"@,
    {
        String::from_str("copy data")
    }

    /// Where the image's boot partition gets mounted for the copy.
    pub fn img_boot_mount_path(
        &self,
        workspace_spec: &config::WorkspaceConfig,
        instance_spec: &config::InstanceConfig,
    ) -> (r: String)
        ensures
            r@ == img_boot_dir(workspace_spec, instance_spec),
    {
        img_boot_dir_of(workspace_spec, instance_spec)
    }

    /// Where the image's root partition gets mounted for the copy.
    pub fn img_rootfs_mount_path(
        &self,
        workspace_spec: &config::WorkspaceConfig,
        instance_spec: &config::InstanceConfig,
    ) -> (r: String)
        ensures
            r@ == img_rootfs_dir(workspace_spec, instance_spec),
    {
        img_rootfs_dir_of(workspace_spec, instance_spec)
    }

    /// The target both copies land in: the instance mount tree.
    pub fn instance_mount_path(
        &self,
        workspace_spec: &config::WorkspaceConfig,
        instance_spec: &config::InstanceConfig,
    ) -> (r: String)
        ensures
            r@ == inst_dir(workspace_spec, instance_spec),
    {
        inst_dir_of(workspace_spec, instance_spec)
    }

    /// Arguments for mounting one of the image's partitions read-only
    /// through a loop device at its byte offset inside the image.
    pub fn mount_args(&self, img_path: &str, offset: u64, mnt_path: &str) -> (r: Vec<String>)
        ensures
            r@.len() == 4,
            r@[0]@ == "-o"@,
            r@[1]@ == "loop,ro,offset="@ + dec_digits(offset as nat),
            r@[2]@ == img_path@,
            r@[3]@ == mnt_path@,
    {
        let mut opt = String::from_str("loop,ro,offset=");
        let off = u64_string(offset);
        opt.append(off.as_str());
        let mut r: Vec<String> = Vec::new();
        r.push("-o".to_owned());
        r.push(opt);
        r.push(img_path.to_owned());
        r.push(mnt_path.to_owned());
        r
    }

    /// Arguments for unmounting the image partition again, releasing its
    /// loop device with it.
    pub fn umount_args(&self, mnt_path: &str) -> (r: Vec<String>)
        ensures
            r@.len() == 2,
            r@[0]@ == "-d"@,
            r@[1]@ == mnt_path@,
    {
        let mut r: Vec<String> = Vec::new();
        r.push("-d".to_owned());
        r.push(mnt_path.to_owned());
        r
    }

    /// Arguments for recursively copying a mounted partition's contents.
    pub fn cp_args(&self, mnt_path: &str, target_path: &str) -> (r: Vec<String>)
        ensures
            r@.len() == 3,
            r@[0]@ == "-r"@,
            r@[1]@ == mnt_path@,
            r@[2]@ == target_path@,
    {
        let mut r: Vec<String> = Vec::new();
        r.push("-r".to_owned());
        r.push(mnt_path.to_owned());
        r.push(target_path.to_owned());
        r
    }
}

/// Configures a username and password for the instance.
pub struct ConfigureUserAuthStep {}

impl ConfigureUserAuthStep {
    /// Returns the name of the step.
    pub fn name(&self) -> (r: String)
        ensures
            r@ == "configure auth"@,
    {
        String::from_str("configure auth")
    }

    /// The boot partition's user configuration file.
    pub fn userconf_path(
        &self,
        workspace_spec: &config::WorkspaceConfig,
        instance_spec: &config::InstanceConfig,
    ) -> (r: String)
        ensures
            r@ == inst_boot_dir(workspace_spec, instance_spec) + "/"@ + "userconf.txt"@,
    {
        let base = inst_boot_dir_of(workspace_spec, instance_spec);
        join2(base.as_str(), "userconf.txt")
    }

    /// The user configuration file's contents: the credential line and a
    /// trailing newline.
    pub fn userconf_contents(&self, instance_spec: &config::InstanceConfig) -> (r: String)
        ensures
            r@ == instance_spec.user_password@ + "\n"@,
    {
        let mut r = instance_spec.user_password.clone();
        r.append("\n");
        r
    }

    /// The root account's authorized SSH keys file in the instance root
    /// filesystem.
    pub fn authorized_keys_path(
        &self,
        workspace_spec: &config::WorkspaceConfig,
        instance_spec: &config::InstanceConfig,
    ) -> (r: String)
        ensures
            r@ == inst_rootfs_dir(workspace_spec, instance_spec) + "/"@
                + "root/.ssh/authorized_keys"@,
    {
        let base = inst_rootfs_dir_of(workspace_spec, instance_spec);
        join2(base.as_str(), "root/.ssh/authorized_keys")
    }

    /// The authorized keys file's contents: the key and a trailing newline.
    pub fn authorized_keys_contents(&self, instance_spec: &config::InstanceConfig) -> (r: String)
        ensures
            r@ == instance_spec.root_ssh_key@ + "\n"@,
    {
        let mut r = instance_spec.root_ssh_key.clone();
        r.append("\n");
        r
    }
}

/// Configures the hostname for the instance.
pub struct ConfigureHostnameStep {}

impl ConfigureHostnameStep {
    /// Returns the name of the step.
    pub fn name(&self) -> (r: String)
        ensures
            r@ == "configure hostname"@,
    {
        String::from_str("configure hostname")
    }

    /// The hostname file to write and its contents: the instance id and a
    /// trailing newline.
    pub fn configure_etc_hostname(
        &self,
        workspace_spec: &config::WorkspaceConfig,
        instance_spec: &config::InstanceConfig,
    ) -> (r: (String, String))
        ensures
            r.0@ == inst_rootfs_dir(workspace_spec, instance_spec) + "/"@ + "etc/hostname"@,
            r.1@ == instance_spec.id@ + "\n"@,
    {
        let base = inst_rootfs_dir_of(workspace_spec, instance_spec);
        let path = join2(base.as_str(), "etc/hostname");
        let mut contents = instance_spec.id.clone();
        contents.append("\n");
        (path, contents)
    }

    /// The hosts file in the instance root filesystem.
    pub fn hosts_path(
        &self,
        workspace_spec: &config::WorkspaceConfig,
        instance_spec: &config::InstanceConfig,
    ) -> (r: String)
        ensures
            r@ == inst_rootfs_dir(workspace_spec, instance_spec) + "/"@ + "etc/hosts"@,
    {
        let base = inst_rootfs_dir_of(workspace_spec, instance_spec);
        join2(base.as_str(), "etc/hosts")
    }

    /// The stream-editor expression replacing the image's stock hostname
    /// with the instance id in the hosts file.
    pub fn hosts_sed_expr(&self, instance_spec: &config::InstanceConfig) -> (r: String)
        ensures
            r@ == "s/(.*)raspberrypi(.*?)$/\\1"@ + instance_spec.id@ + "\\2/g"@,
    {
        let mut r = String::from_str("s/(.*)raspberrypi(.*?)$/\\1");
        r.append(instance_spec.id.as_str());
        r.append("\\2/g");
        proof {
            assert(r@ =~= "s/(.*)raspberrypi(.*?)$/\\1"@ + instance_spec.id@ + "\\2/g"@);
        }
        r
    }
}

/// Does nothing on its own; this signals the completion of provisioning.
pub struct FinishStep {}

impl Step for FinishStep {
    open spec fn spec_name(&self) -> Seq<char> {
        "finish"@
    }

    /// The sentinel always succeeds.
    open spec fn run_post(
        &self,
        workspace_spec: &config::WorkspaceConfig,
        instance_spec: &config::InstanceConfig,
        r: Result<(), String>,
    ) -> bool {
        r is Ok
    }

    fn name(&self) -> (r: String)
        ensures
            r@ == self.spec_name(),
    {
        String::from_str("finish")
    }

    fn run(
        &self,
        _workspace_spec: &config::WorkspaceConfig,
        _instance_spec: &config::InstanceConfig,
    ) -> (r: Result<(), String>)
        ensures
            r is Ok,
    {
        Ok(())
    }

    fn cleanup(
        &self,
        _workspace_spec: &config::WorkspaceConfig,
        _instance_spec: &config::InstanceConfig,
    ) {
    }
}

/// Echoes a message. The message `err` makes the run fail; any other message
/// succeeds.
pub struct EchoStep {
    pub msg: &'static str,
}

impl Step for EchoStep {
    open spec fn spec_name(&self) -> Seq<char> {
        "echo "@ + self.msg@
    }

    /// The run fails with the cause `error` exactly on the message `err`.
    open spec fn run_post(
        &self,
        workspace_spec: &config::WorkspaceConfig,
        instance_spec: &config::InstanceConfig,
        r: Result<(), String>,
    ) -> bool {
        &&& r is Ok <==> self.msg@ != "err"@
        &&& r matches Err(e) ==> e@ == "error"@
    }

    fn name(&self) -> (r: String)
        ensures
            r@ == self.spec_name(),
    {
        let mut r = String::from_str("echo ");
        r.append(self.msg);
        proof {
            assert(r@ =~= "echo "@ + self.msg@);
        }
        r
    }

    fn run(
        &self,
        _workspace_spec: &config::WorkspaceConfig,
        _instance_spec: &config::InstanceConfig,
    ) -> (r: Result<(), String>)
        ensures
            r is Ok <==> self.msg@ != "err"@,
            r matches Err(e) ==> e@ == "error"@,
    {
        let m = self.msg.to_owned();
        let e = "err".to_owned();
        if m == e {
            Err(String::from_str("error"))
        } else {
            Ok(())
        }
    }

    fn cleanup(
        &self,
        _workspace_spec: &config::WorkspaceConfig,
        _instance_spec: &config::InstanceConfig,
    ) {
    }
}

} // verus!
