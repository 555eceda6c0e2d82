//! Where the daemon keeps things, what it mounts on, and which ports it tries.
use vstd::prelude::*;
use crate::mountpoint::{can_mount_on, explains, mountpoint_message, Inspection, MountpointError, PathKind};
use crate::paths::{parent_path, under, Env};
use crate::text::joined;
use crate::vfs_mgr::{ports, transport_reply, TransportInfo, TransportReply, VfsManagerConfig};

verus! {

/// A directory to which a name is joined by a slash.
pub open spec fn open_ended(dir: Seq<char>) -> bool {
    dir.len() > 0 && dir.last() != '/'
}

proof fn lemma_joined_under(dir: Seq<char>, name: Seq<char>)
    requires
        open_ended(dir),
        name.len() > 0,
        name[0] != '/',
    ensures
        joined(dir, name) == dir + "/"@ + name,
{
    reveal_strlit("/");
    assert(joined(dir, name) =~= dir + "/"@ + name);
}

/// The state directory is the first of these that is set: the one that is named for it,
/// `kiki` in the user's data directory, and `.local/share/kiki` in the home directory.
pub proof fn first_variable_names_the_state_directory(env: Env)
    ensures
        env.kiki_home matches Some(p) ==> env.state_dir() == p@,
        env.kiki_home is None ==> (env.xdg_data_home matches Some(p) ==> (open_ended(p@)
            ==> env.state_dir() == p@ + "/"@ + "kiki"@)),
        env.kiki_home is None && env.xdg_data_home is None ==> (env.home matches Some(p) ==> (
        open_ended(p@) ==> env.state_dir() == p@ + "/"@ + ".local/share/kiki"@)),
        env.kiki_home is None ==> (env.xdg_data_home matches Some(p) ==> env.state_dir() == joined(
            p@,
            "kiki"@,
        )),
        env.kiki_home is None && env.xdg_data_home is None ==> (env.home matches Some(p)
            ==> env.state_dir() == joined(p@, ".local/share/kiki"@)),
        env.has_state_dir() <==> env.kiki_home is Some || env.xdg_data_home is Some || env.home
            is Some,
{
    reveal_strlit("kiki");
    reveal_strlit(".local/share/kiki");
    if let Some(p) = env.xdg_data_home {
        if open_ended(p@) {
            lemma_joined_under(p@, "kiki"@);
        }
    }
    if let Some(p) = env.home {
        if open_ended(p@) {
            lemma_joined_under(p@, ".local/share/kiki"@);
        }
    }
}

/// The mount point is the one that is named for it, and else `kiki` in the home
/// directory.
pub proof fn first_variable_names_the_mount_point(env: Env)
    ensures
        env.kiki_mount matches Some(p) ==> env.mount_root() == p@,
        env.kiki_mount is None ==> (env.home matches Some(p) ==> (open_ended(p@)
            ==> env.mount_root() == p@ + "/"@ + "kiki"@)),
        env.kiki_mount is None ==> (env.home matches Some(p) ==> env.mount_root() == joined(
            p@,
            "kiki"@,
        )),
        env.has_mount_root() <==> env.kiki_mount is Some || env.home is Some,
{
    reveal_strlit("kiki");
    if let Some(p) = env.home {
        if open_ended(p@) {
            lemma_joined_under(p@, "kiki"@);
        }
    }
}

/// The files of the daemon have their names: the store and the config file in the state
/// directory, the socket there too unless its place is given, and the pid file and the
/// log beside the socket.
pub proof fn files_have_their_names(env: Env)
    requires
        env.has_state_dir(),
        open_ended(env.state_dir()),
    ensures
        env.store_dir() == env.state_dir() + "/"@ + "store"@,
        env.config_file() == env.state_dir() + "/"@ + "config.toml"@,
        env.kiki_socket_path matches Some(p) ==> env.socket() == p@,
        env.kiki_socket_path is None ==> {
            &&& env.runtime_dir() == env.state_dir()
            &&& env.socket() == env.state_dir() + "/"@ + "daemon.sock"@
            &&& env.pid_file() == env.state_dir() + "/"@ + "daemon.pid"@
            &&& env.log_file() == env.state_dir() + "/"@ + "daemon.log"@
        },
        open_ended(env.runtime_dir()) ==> {
            &&& env.pid_file() == env.runtime_dir() + "/"@ + "daemon.pid"@
            &&& env.log_file() == env.runtime_dir() + "/"@ + "daemon.log"@
        },
        env.has_runtime_dir(),
{
    reveal_strlit("store");
    reveal_strlit("config.toml");
    reveal_strlit("daemon.sock");
    reveal_strlit("daemon.pid");
    reveal_strlit("daemon.log");
    let dir = env.state_dir();
    lemma_joined_under(dir, "store"@);
    lemma_joined_under(dir, "config.toml"@);
    lemma_joined_under(dir, "daemon.sock"@);
    if open_ended(env.runtime_dir()) {
        lemma_joined_under(env.runtime_dir(), "daemon.pid"@);
        lemma_joined_under(env.runtime_dir(), "daemon.log"@);
    }
}

/// The files are joined to their directories, whatever those are.
pub proof fn files_are_joined_to_their_directories(env: Env)
    ensures
        env.store_dir() == joined(env.state_dir(), "store"@),
        env.config_file() == joined(env.state_dir(), "config.toml"@),
        env.pid_file() == joined(env.runtime_dir(), "daemon.pid"@),
        env.log_file() == joined(env.runtime_dir(), "daemon.log"@),
        env.kiki_socket_path is None ==> env.socket() == joined(env.state_dir(), "daemon.sock"@)
            && env.runtime_dir() == env.state_dir(),
        env.kiki_socket_path matches Some(p) ==> env.socket() == p@,
        env.kiki_socket_path matches Some(p) ==> match parent_path(p@) {
            Some(dir) => env.runtime_dir() == dir,
            None => env.runtime_dir() == p@,
        },
{
}

/// A name in a directory stands behind a slash.
pub proof fn names_stand_behind_a_slash(dir: Seq<char>, name: Seq<char>)
    ensures
        under(dir, name).len() == dir.len() + 1 + name.len(),
        under(dir, name).take(dir.len() as int) == dir,
        under(dir, name)[dir.len() as int] == '/',
        under(dir, name).skip(dir.len() as int + 1) == name,
{
    reveal_strlit("/");
    assert(under(dir, name).take(dir.len() as int) =~= dir);
    assert(under(dir, name).skip(dir.len() as int + 1) =~= name);
}

/// Only an empty directory on which nothing is mounted is mounted on. What is said of
/// any other path is the first thing that is wrong with it, and what could not be found
/// out is wrong too.
pub proof fn only_empty_directories_are_mounted_on(
    path: Seq<char>,
    found: Inspection,
    e: MountpointError,
)
    ensures
        can_mount_on(found) <==> {
            &&& found.kind is Directory
            &&& found.occupied matches Ok(occupied) && !occupied
            &&& found.mounted matches Ok(mounted) && !mounted
        },
        explains(path, found, e) ==> !can_mount_on(found) && e.message() == mountpoint_message(
            path,
            found,
        ) && match e {
            MountpointError::Missing(p) => found.kind is Missing && p@ == path,
            MountpointError::NotADirectory(p) => found.kind is Other && p@ == path,
            MountpointError::NotEmpty(p) => found.kind is Directory && found.occupied == Ok::<
                bool,
                String,
            >(true) && p@ == path,
            MountpointError::AlreadyMounted(p) => found.kind is Directory && found.occupied == Ok::<
                bool,
                String,
            >(false) && found.mounted == Ok::<bool, String>(true) && p@ == path,
            MountpointError::Io(p, _) => p@ == path && (found.kind is Failed || found.occupied
                is Err || found.mounted is Err),
        },
        found.kind is Missing ==> mountpoint_message(path, found) == "path does not exist: "@ + path,
        found.kind is Other ==> mountpoint_message(path, found) == "path is not a directory: "@
            + path,
        found.kind is Directory && found.occupied == Ok::<bool, String>(true) ==> mountpoint_message(
            path,
            found,
        ) == "directory is not empty: "@ + path,
        found.kind is Directory && found.occupied == Ok::<bool, String>(false) && found.mounted
            == Ok::<bool, String>(true) ==> mountpoint_message(path, found)
            == "path is already a mountpoint: "@ + path,
        found.kind matches PathKind::Failed(cause) ==> mountpoint_message(path, found)
            == "failed to inspect "@ + path + ": "@ + cause@,
{
}

/// Ports are tried upwards from the lowest.
pub proof fn ports_are_tried_upwards(config: VfsManagerConfig, i: int)
    requires
        config.min_nfs_port <= config.max_nfs_port,
        0 <= i <= config.max_nfs_port - config.min_nfs_port,
    ensures
        ports(config).len() == config.max_nfs_port - config.min_nfs_port + 1,
        ports(config)[i] == config.min_nfs_port + i,
{
}

/// The front end is told the transport and, of a server, its port.
pub proof fn front_end_is_told_the_port(info: TransportInfo, port: u16)
    ensures
        transport_reply(info) is Fuse <==> info is Fuse,
        info == (TransportInfo::Nfs { port }) ==> (transport_reply(
            info,
        ) matches TransportReply::Nfs { port: told } && told == port),
{
}

} // verus!
