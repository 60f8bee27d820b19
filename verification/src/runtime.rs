//! Selection of the runtime directory, the socket and the log file.

use vstd::prelude::*;

use crate::host;
use crate::host::HostPath;
use crate::text;

verus! {

broadcast use vstd::string::group_string_axioms;

/// The environment variable that names the runtime directory.
pub const ENV_RUNTIME_DIR: &'static str = "SANDBOXFS_RUNTIME_DIR";

/// The environment variable that names the socket.
pub const ENV_SOCKET: &'static str = "SANDBOXFS_SOCKET";

/// The environment variable that names the log directory.
pub const ENV_LOG_DIR: &'static str = "SANDBOXFS_LOG_DIR";

/// Where a session keeps its files.
#[derive(Debug)]
pub struct RuntimePaths {
    pub runtime_dir: HostPath,
    pub log_dir: HostPath,
    pub socket_override: Option<HostPath>,
}

/// The runtime directory: the one that the environment names, else one below
/// the user's runtime directory, else one for the superuser, else one of the
/// user's own below the directory for temporary files.
pub open spec fn chosen_runtime_dir(
    named: Option<Seq<char>>,
    user_runtime: Option<Seq<char>>,
    euid: u32,
    temp: Seq<char>,
) -> Seq<char> {
    if named is Some {
        named->0
    } else if user_runtime is Some {
        host::host_join(user_runtime->0, "sandboxfs"@)
    } else if euid == 0 {
        "/run/sandboxfs"@
    } else {
        host::host_join(temp, "sandboxfs-"@ + text::decimal(euid as nat))
    }
}

/// What an optional path says.
pub open spec fn optional_text(path: Option<HostPath>) -> Option<Seq<char>> {
    match path {
        Some(path) => Some(path@),
        None => None,
    }
}

/// Chooses the runtime directory from what the environment holds.
pub fn runtime_dir(
    named: Option<HostPath>,
    user_runtime: Option<HostPath>,
    euid: u32,
    temp: &HostPath,
) -> (dir: HostPath)
    ensures
        dir@ == chosen_runtime_dir(optional_text(named), optional_text(user_runtime), euid, temp@),
{
    if let Some(dir) = named {
        return dir;
    }
    if let Some(dir) = user_runtime {
        return dir.join("sandboxfs");
    }
    if euid == 0 {
        return HostPath::new("/run/sandboxfs");
    }
    let mut name = "sandboxfs-".to_owned();
    name.append(text::decimal_of(euid as u64).as_str());
    temp.join(name.as_str())
}

impl RuntimePaths {
    /// The paths for a runtime directory; logs go there too unless a log
    /// directory is named.
    pub fn discover(
        runtime_dir: HostPath,
        log_dir: Option<HostPath>,
        socket: Option<HostPath>,
    ) -> (paths: Self)
        ensures
            paths.runtime_dir == runtime_dir,
            paths.log_dir == (match log_dir {
                Some(dir) => dir,
                None => runtime_dir,
            }),
            paths.socket_override == socket,
    {
        let log_dir = match log_dir {
            Some(dir) => dir,
            None => runtime_dir.clone(),
        };
        RuntimePaths { runtime_dir, log_dir, socket_override: socket }
    }

    pub fn for_tests(runtime_dir: HostPath, socket_override: Option<HostPath>) -> (paths: Self)
        ensures
            paths.runtime_dir == runtime_dir,
            paths.log_dir == runtime_dir,
            paths.socket_override == socket_override,
    {
        RuntimePaths { log_dir: runtime_dir.clone(), runtime_dir, socket_override }
    }

    pub fn for_tests_with_log_dir(
        runtime_dir: HostPath,
        log_dir: HostPath,
        socket_override: Option<HostPath>,
    ) -> (paths: Self)
        ensures
            paths.runtime_dir == runtime_dir,
            paths.log_dir == log_dir,
            paths.socket_override == socket_override,
    {
        RuntimePaths { runtime_dir, log_dir, socket_override }
    }

    /// The socket of a sandbox.
    pub fn socket_path(&self, name: &str) -> (path: HostPath)
        ensures
            path@ == match self.socket_override {
                Some(socket) => socket@,
                None => host::host_join(self.runtime_dir@, name@ + ".sock"@),
            },
    {
        match &self.socket_override {
            Some(socket) => socket.clone(),
            None => {
                let mut file = name.to_owned();
                file.append(".sock");
                self.runtime_dir.join(file.as_str())
            },
        }
    }

    /// The log file of a sandbox.
    pub fn sandbox_log_path(&self, name: &str) -> (path: HostPath)
        ensures
            path@ == host::host_join(self.log_dir@, name@ + ".log"@),
    {
        let mut file = name.to_owned();
        file.append(".log");
        self.log_dir.join(file.as_str())
    }

    /// The mountpoint of a trusted operation.
    pub fn tmp_mount_dir(&self, name: &str, operation_id: u64) -> (path: HostPath)
        ensures
            path@ == host::host_join(
                host::host_join(self.runtime_dir@, "tmp"@),
                name@ + "-"@ + text::decimal(operation_id as nat),
            ),
    {
        let mut dir = name.to_owned();
        dir.append("-");
        dir.append(text::decimal_of(operation_id).as_str());
        self.runtime_dir.join("tmp").join(dir.as_str())
    }
}

impl Clone for RuntimePaths {
    fn clone(&self) -> (copy: Self)
        ensures
            copy == *self,
    {
        let socket_override = match &self.socket_override {
            Some(socket) => Some(socket.clone()),
            None => None,
        };
        RuntimePaths {
            runtime_dir: self.runtime_dir.clone(),
            log_dir: self.log_dir.clone(),
            socket_override,
        }
    }
}

} // verus!
