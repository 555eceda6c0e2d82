//! Where the daemon keeps its state.
//!
//! Two independent roots: the state directory (stores, config, daemon runtime),
//! which is `KIKI_HOME`, `$XDG_DATA_HOME/kiki` or `~/.local/share/kiki`, and the
//! mount point, which is `KIKI_MOUNT` or `~/kiki`. State never lives inside the
//! mount.
use std::path::Path;
use vstd::prelude::*;
use crate::text::{join_path, joined, text_in};

verus! {

broadcast use vstd::string::group_string_axioms;

/// The environment variables that paths depend on.
#[derive(Debug, Clone)]
pub struct Env {
    /// `KIKI_HOME`.
    pub kiki_home: Option<String>,
    /// `XDG_DATA_HOME`.
    pub xdg_data_home: Option<String>,
    /// `HOME`.
    pub home: Option<String>,
    /// `KIKI_MOUNT`.
    pub kiki_mount: Option<String>,
    /// `KIKI_SOCKET_PATH`.
    pub kiki_socket_path: Option<String>,
}

impl Env {
    /// The state directory can be resolved: one of its variables is set.
    pub open spec fn has_state_dir(self) -> bool {
        self.kiki_home is Some || self.xdg_data_home is Some || self.home is Some
    }

    /// The state directory.
    pub open spec fn state_dir(self) -> Seq<char> {
        match (self.kiki_home, self.xdg_data_home, self.home) {
            (Some(p), _, _) => p@,
            (None, Some(p), _) => joined(p@, "kiki"@),
            (None, None, Some(p)) => joined(p@, ".local/share/kiki"@),
            (None, None, None) => arbitrary(),
        }
    }

    /// The mount point can be resolved: one of its variables is set.
    pub open spec fn has_mount_root(self) -> bool {
        self.kiki_mount is Some || self.home is Some
    }

    /// The mount point.
    pub open spec fn mount_root(self) -> Seq<char> {
        match (self.kiki_mount, self.home) {
            (Some(p), _) => p@,
            (None, Some(p)) => joined(p@, "kiki"@),
            (None, None) => arbitrary(),
        }
    }

    /// The directory that the socket, the pid file and the log share.
    pub open spec fn runtime_dir(self) -> Seq<char> {
        match self.kiki_socket_path {
            Some(p) => match parent_path(p@) {
                Some(dir) => dir,
                None => p@,
            },
            None => self.state_dir(),
        }
    }

    /// The daemon socket.
    pub open spec fn socket(self) -> Seq<char> {
        match self.kiki_socket_path {
            Some(p) => p@,
            None => joined(self.state_dir(), "daemon.sock"@),
        }
    }

    /// The pid file.
    pub open spec fn pid_file(self) -> Seq<char> {
        joined(self.runtime_dir(), "daemon.pid"@)
    }

    /// The log file.
    pub open spec fn log_file(self) -> Seq<char> {
        joined(self.runtime_dir(), "daemon.log"@)
    }

    /// The directory for durable state.
    pub open spec fn store_dir(self) -> Seq<char> {
        joined(self.state_dir(), "store"@)
    }

    /// The config file.
    pub open spec fn config_file(self) -> Seq<char> {
        joined(self.state_dir(), "config.toml"@)
    }

    /// The runtime directory can be resolved.
    pub open spec fn has_runtime_dir(self) -> bool {
        self.kiki_socket_path is Some || self.has_state_dir()
    }
}

/// The path without its last component, if it has one.
pub uninterp spec fn parent_path(path: Seq<char>) -> Option<Seq<char>>;

/// The name in the directory.
pub open spec fn under(dir: Seq<char>, name: Seq<char>) -> Seq<char> {
    dir + "/"@ + name
}

/// A directory that is written without anything behind its last name.
pub open spec fn plain_dir(dir: Seq<char>) -> bool {
    dir.len() > 0 && dir.last() != '/' && dir.last() != '.' && dir.last() != '\\' && dir.last()
        != ':'
}

/// A single component that names an entry.
pub open spec fn plain_name(name: Seq<char>) -> bool {
    &&& name.len() > 0
    &&& !name.contains('/')
    &&& !name.contains('\\')
    &&& !name.contains(':')
    &&& name != "."@
    &&& name != ".."@
}

/// Calls `std::path::Path::parent`.
///
/// Claimed of it: the answer depends on the path alone. The empty path has no
/// parent, a name alone has the empty one, and a name in a directory has the
/// directory. What the parent of a path of another form is is not stated.
#[verifier::external_body]
pub(crate) fn parent_of(path: &str) -> (r: Option<String>)
    ensures
        text_in(r) == parent_path(path@),
        path@.len() == 0 ==> r is None,
        plain_name(path@) ==> text_in(r) == Some(Seq::<char>::empty()),
        forall|dir: Seq<char>, name: Seq<char>|
            plain_dir(dir) && plain_name(name) && path@ == #[trigger] under(dir, name) ==> text_in(
                r,
            ) == Some(dir),
{
    Path::new(path).parent().map(|p| p.to_string_lossy().into_owned())
}

/// The state directory: `KIKI_HOME`, else `$XDG_DATA_HOME/kiki`, else
/// `~/.local/share/kiki`.
pub fn kiki_home(env: &Env) -> (path: String)
    requires
        env.has_state_dir(),
    ensures
        path@ == env.state_dir(),
{
    match &env.kiki_home {
        Some(p) => p.clone(),
        None => match &env.xdg_data_home {
            Some(p) => join_path(p.as_str(), "kiki"),
            None => match &env.home {
                Some(p) => join_path(p.as_str(), ".local/share/kiki"),
                None => {
                    assert(false);
                    String::new()
                },
            },
        },
    }
}

/// The mount point where repositories and workspaces appear: `KIKI_MOUNT`, else
/// `~/kiki`.
pub fn mount_root(env: &Env) -> (path: String)
    requires
        env.has_mount_root(),
    ensures
        path@ == env.mount_root(),
{
    match &env.kiki_mount {
        Some(p) => p.clone(),
        None => match &env.home {
            Some(p) => join_path(p.as_str(), "kiki"),
            None => {
                assert(false);
                String::new()
            },
        },
    }
}

/// The state directory.
pub fn state_dir(env: &Env) -> (path: String)
    requires
        env.has_state_dir(),
    ensures
        path@ == env.state_dir(),
{
    kiki_home(env)
}

/// Whether the socket location was given explicitly, which turns auto-start
/// off.
pub fn is_explicit_socket(env: &Env) -> (r: bool)
    ensures
        r == (env.kiki_socket_path is Some),
{
    env.kiki_socket_path.is_some()
}

/// The daemon socket: `KIKI_SOCKET_PATH`, else `daemon.sock` in the state
/// directory.
pub fn socket_path(env: &Env) -> (path: String)
    requires
        env.has_runtime_dir(),
    ensures
        path@ == env.socket(),
{
    match &env.kiki_socket_path {
        Some(p) => p.clone(),
        None => join_path(state_dir(env).as_str(), "daemon.sock"),
    }
}

/// The pid file, next to the socket.
pub fn pid_path(env: &Env) -> (path: String)
    requires
        env.has_runtime_dir(),
    ensures
        path@ == env.pid_file(),
        forall|dir: Seq<char>, name: Seq<char>|
            plain_dir(dir) && plain_name(name) && text_in(env.kiki_socket_path) == Some(
                #[trigger] under(dir, name),
            ) ==> path@ == joined(dir, "daemon.pid"@),
{
    join_path(runtime_dir(env).as_str(), "daemon.pid")
}

/// The log file, next to the socket.
pub fn log_path(env: &Env) -> (path: String)
    requires
        env.has_runtime_dir(),
    ensures
        path@ == env.log_file(),
        forall|dir: Seq<char>, name: Seq<char>|
            plain_dir(dir) && plain_name(name) && text_in(env.kiki_socket_path) == Some(
                #[trigger] under(dir, name),
            ) ==> path@ == joined(dir, "daemon.log"@),
{
    join_path(runtime_dir(env).as_str(), "daemon.log")
}

/// The directory for the socket, the pid file, the log and tunnels: that of the
/// socket where its location was given, else the state directory.
pub fn runtime_dir(env: &Env) -> (path: String)
    requires
        env.has_runtime_dir(),
    ensures
        path@ == env.runtime_dir(),
        forall|dir: Seq<char>, name: Seq<char>|
            plain_dir(dir) && plain_name(name) && text_in(env.kiki_socket_path) == Some(
                #[trigger] under(dir, name),
            ) ==> path@ == dir,
{
    match &env.kiki_socket_path {
        Some(p) => match parent_of(p.as_str()) {
            Some(dir) => dir,
            None => p.clone(),
        },
        None => state_dir(env),
    }
}

/// The directory for durable state: `store` in the state directory.
pub fn default_storage_dir(env: &Env) -> (path: String)
    requires
        env.has_state_dir(),
    ensures
        path@ == env.store_dir(),
{
    join_path(kiki_home(env).as_str(), "store")
}

/// The config file in the state directory.
pub fn config_path(env: &Env) -> (path: String)
    requires
        env.has_state_dir(),
    ensures
        path@ == env.config_file(),
{
    join_path(kiki_home(env).as_str(), "config.toml")
}

/// The mount point.
pub fn default_mount_root(env: &Env) -> (path: String)
    requires
        env.has_mount_root(),
    ensures
        path@ == env.mount_root(),
{
    mount_root(env)
}

/// A path leads into a directory: behind the directory something follows.
pub open spec fn lies_in(path: Seq<char>, dir: Seq<char>) -> bool {
    dir.len() < path.len() && path.take(dir.len() as int) == dir
}

/// Without an explicit socket, the socket, the pid file, the log, the store and
/// the config file all lie in the state directory.
pub proof fn state_is_in_one_place(env: Env)
    requires
        env.has_state_dir(),
        env.kiki_socket_path is None,
    ensures
        lies_in(env.socket(), env.state_dir()),
        lies_in(env.pid_file(), env.state_dir()),
        lies_in(env.log_file(), env.state_dir()),
        lies_in(env.store_dir(), env.state_dir()),
        lies_in(env.config_file(), env.state_dir()),
{
    reveal_strlit("daemon.sock");
    reveal_strlit("daemon.pid");
    reveal_strlit("daemon.log");
    reveal_strlit("store");
    reveal_strlit("config.toml");
    let dir = env.state_dir();
    assert(env.socket().take(dir.len() as int) =~= dir);
    assert(env.pid_file().take(dir.len() as int) =~= dir);
    assert(env.log_file().take(dir.len() as int) =~= dir);
    assert(env.store_dir().take(dir.len() as int) =~= dir);
    assert(env.config_file().take(dir.len() as int) =~= dir);
}

} // verus!
