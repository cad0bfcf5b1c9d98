use vstd::prelude::*;

verus! {

/// A configuration for a given instance provisioning run.
pub struct Config {
    /// The path to the workspace configuration JSON file.
    pub workspace_config_path: String,
    /// The path to the directory of instance configuration JSON files.
    pub instances_config_dir: String,
}

/// The ways in which building a `Config` from command-line arguments can fail.
#[derive(Debug)]
pub enum ConfigError {
    /// The workspace configuration path argument is absent.
    MissingWorkspacePath,
    /// The instance configuration directory argument is absent.
    MissingInstancesDir,
}

impl ConfigError {
    /// A human-readable description of the error.
    pub fn message(&self) -> (r: &'static str)
        ensures
            *self is MissingWorkspacePath ==> r@ == "missing workspace config path"@,
            *self is MissingInstancesDir ==> r@ == "missing instances config dir"@,
    {
        match self {
            ConfigError::MissingWorkspacePath => "missing workspace config path",
            ConfigError::MissingInstancesDir => "missing instances config dir",
        }
    }
}

impl Config {
    /// Builds a configuration from the given command line arguments: the
    /// argument at position 1 is the workspace configuration path, the one at
    /// position 2 the instance configuration directory.
    pub fn build(args: &[String]) -> (r: Result<Config, ConfigError>)
        ensures
            args@.len() >= 3 ==> (r matches Ok(c)
                && c.workspace_config_path@ == args@[1]@
                && c.instances_config_dir@ == args@[2]@),
            args@.len() < 2 ==> r matches Err(ConfigError::MissingWorkspacePath),
            args@.len() == 2 ==> r matches Err(ConfigError::MissingInstancesDir),
    {
        if args.len() < 2 {
            return Err(ConfigError::MissingWorkspacePath);
        }
        if args.len() < 3 {
            return Err(ConfigError::MissingInstancesDir);
        }
        let workspace_config_path = args[1].clone();
        let instances_config_dir = args[2].clone();
        Ok(Config { workspace_config_path, instances_config_dir })
    }
}

/// A configuration for a workspace. A workspace is a group of instances with
/// some shared configuration.
pub struct WorkspaceConfig {
    /// The root path to use when mounting instance and image devices.
    pub path: String,
    /// The path to the OS image to use.
    pub img_path: String,
    /// The offset for the rootfs partition in the image in bytes.
    pub img_rootfs_offset: u64,
    /// The offset for the boot partition in the image in bytes.
    pub img_boot_offset: u64,
    /// The iSCSI target IP address. Used for mounting root partitions.
    pub iscsi_target_ip: String,
    /// The NFS server IP address. Used for mounting TFTP boot partitions.
    pub nfs_server_ip: String,
    /// The TFTP directory on the NFS server.
    pub nfs_tftp_dir: String,
}

/// A configuration for an instance. An instance is a single target machine.
pub struct InstanceConfig {
    /// The ID of the instance. Used to determine the hostname.
    pub id: String,
    /// The iSCSI initiator IQN. Used when mounting the root filesystem.
    pub iscsi_initiator_iqn: String,
    /// The iSCSI target IQN. Used to determine which target to mount as the
    /// root filesystem.
    pub iscsi_target_iqn: String,
    /// The MAC address for the instance in the form `aa-bb-cc-dd-ee-ff`.
    pub mac_addr: String,
    /// The username and password to use in the form `<username>:<hash>`.
    pub user_password: String,
    /// The SSH key to use for root login.
    pub root_ssh_key: String,
}

} // verus!
