//! The requests that a front end makes of the daemon.
//!
//! A mount is found by the path of its working copy. A request that needs the
//! outside world (a disk, a remote, a kernel mount) is answered in steps: the
//! service says what has to be done, and is told what came of it. [`laws`],
//! [`request_laws`] and [`setup_laws`] state what the requests do.
use vstd::prelude::*;
use vstd::utf8::encode_utf8;
use crate::git_store::EMPTY_TREE;
use crate::mount::{MetadataView, Mount, MountMetadata, MountView, StorageConfig};
use crate::sorted_map::{ByteKey, SortedMap};
use crate::status::{no_mount, no_mount_status, refusal, Code, Status, StatusView};
use crate::text::{
    concat2, concat3, copy_bytes, join_path, joined, name_lt, text_in, utf8_injective,
};
use crate::ty::Id;

pub mod content;
pub mod laws;
pub mod op_log;
pub mod rehydrate;
pub mod request_laws;
pub mod setup;
pub mod setup_laws;
pub mod working_copy;

verus! {

broadcast use vstd::string::group_string_axioms;

/// The daemon's state.
#[derive(Debug)]
pub struct JujutsuService {
    mounts: SortedMap<String, Mount>,
    attaches: bool,
    storage: StorageConfig,
    tunnels_dir: Option<String>,
}

/// The value of a [`JujutsuService`].
pub struct ServiceView {
    /// The mounts by path.
    pub mounts: Map<Seq<char>, MountView>,
    /// Whether filesystems are attached to the kernel.
    pub attaches: bool,
    /// Where the state of mounts is kept.
    pub storage: StorageConfig,
    /// The directory for the sockets of tunnels, if there may be tunnels.
    pub tunnels_dir: Option<Seq<char>>,
}

impl ServiceView {
    /// Every filesystem is in order.
    pub open spec fn wf(self) -> bool {
        forall|p: Seq<char>| #[trigger]
            self.mounts.contains_key(p) ==> self.mounts[p].fs.tree.wf()
    }

    /// The mount at a path, or the refusal.
    pub open spec fn at(self, path: Seq<char>) -> Result<MountView, StatusView> {
        if self.mounts.contains_key(path) {
            Ok(self.mounts[path])
        } else {
            Err(no_mount(path))
        }
    }

    /// The service with another mount at a path.
    pub open spec fn with_mount(self, path: Seq<char>, m: MountView) -> ServiceView {
        ServiceView { mounts: self.mounts.insert(path, m), ..self }
    }
}

/// The value of an answer that holds plain data.
pub open spec fn answered<T>(r: Result<T, Status>) -> Result<T, StatusView> {
    match r {
        Ok(t) => Ok(t),
        Err(s) => Err(s@),
    }
}

/// The value of an answer that holds bytes.
pub open spec fn bytes_answered(r: Result<Vec<u8>, Status>) -> Result<Seq<u8>, StatusView> {
    match r {
        Ok(b) => Ok(b@),
        Err(s) => Err(s@),
    }
}

impl View for JujutsuService {
    type V = ServiceView;

    closed spec fn view(&self) -> ServiceView {
        ServiceView {
            mounts: Map::new(
                |p: Seq<char>| self.mounts@.contains_key(encode_utf8(p)),
                |p: Seq<char>| self.mounts@[encode_utf8(p)]@,
            ),
            attaches: self.attaches,
            storage: self.storage,
            tunnels_dir: text_in(self.tunnels_dir),
        }
    }
}

impl JujutsuService {
    /// A service without mounts. Without `attaches`, mounts are kept but nothing
    /// is attached to the kernel. Tunnels have their directory in the runtime
    /// directory.
    pub fn new(attaches: bool, storage: StorageConfig, runtime_dir: &str) -> (s: JujutsuService)
        ensures
            s@.mounts == Map::<Seq<char>, MountView>::empty(),
            s@.attaches == attaches,
            s@.storage == storage,
            s@.tunnels_dir == Some(joined(runtime_dir@, "tunnels"@)),
            s@.wf(),
    {
        let tunnels_dir = Some(join_path(runtime_dir, "tunnels"));
        let s = JujutsuService { mounts: SortedMap::new(), attaches, storage, tunnels_dir };
        assert(s@.mounts =~= Map::<Seq<char>, MountView>::empty());
        s
    }

    /// A service that attaches nothing, keeps everything in memory and has no
    /// tunnels.
    pub fn bare() -> (s: JujutsuService)
        ensures
            s@.mounts == Map::<Seq<char>, MountView>::empty(),
            !s@.attaches,
            s@.storage == StorageConfig::InMemory,
            s@.tunnels_dir is None,
            s@.wf(),
    {
        let s = JujutsuService {
            mounts: SortedMap::new(),
            attaches: false,
            storage: StorageConfig::InMemory,
            tunnels_dir: None,
        };
        assert(s@.mounts =~= Map::<Seq<char>, MountView>::empty());
        s
    }

    /// Where the state of mounts is kept.
    pub fn storage(&self) -> (s: &StorageConfig)
        ensures
            *s == self@.storage,
    {
        &self.storage
    }

    /// Whether filesystems are attached to the kernel.
    pub fn attaches(&self) -> (r: bool)
        ensures
            r == self@.attaches,
    {
        self.attaches
    }

    /// The directory for the sockets of tunnels, if there may be tunnels.
    pub fn tunnels_dir(&self) -> (dir: Option<&str>)
        ensures
            match dir {
                Some(d) => self@.tunnels_dir == Some(d@),
                None => self@.tunnels_dir is None,
            },
    {
        match &self.tunnels_dir {
            Some(dir) => Some(dir.as_str()),
            None => None,
        }
    }

    /// The mount at a path.
    pub fn mount(&self, path: &str) -> (r: Option<&Mount>)
        ensures
            match r {
                Some(m) => self@.mounts.contains_key(path@) && m@ == self@.mounts[path@],
                None => !self@.mounts.contains_key(path@),
            },
    {
        self.mounts.get(path.as_bytes())
    }

    /// The mount at a path, or the refusal.
    pub fn find(&self, path: &str) -> (r: Result<&Mount, Status>)
        ensures
            match r {
                Ok(m) => self@.at(path@) == Ok::<MountView, StatusView>(m@),
                Err(s) => self@.at(path@) == Err::<MountView, StatusView>(s@),
            },
    {
        match self.mount(path) {
            Some(m) => Ok(m),
            None => Err(no_mount_status(path)),
        }
    }

    /// Take the mount at a path out, to work on it.
    pub fn take_mount(&mut self, path: &str) -> (r: Option<Mount>)
        ensures
            final(self)@ == (ServiceView { mounts: old(self)@.mounts.remove(path@), ..old(self)@ }),
            match r {
                Some(m) => old(self)@.mounts.contains_key(path@) && m@ == old(self)@.mounts[path@],
                None => !old(self)@.mounts.contains_key(path@),
            },
            old(self)@.wf() ==> final(self)@.wf(),
    {
        let ghost before = self@;
        let ghost all = self.mounts@;
        let r = self.mounts.remove(path.as_bytes());
        proof {
            assert forall|p: Seq<char>| #[trigger] encode_utf8(p) == encode_utf8(path@)
                implies p == path@ by {
                utf8_injective(p, path@);
            }
            assert(self@.mounts =~= before.mounts.remove(path@));
        }
        r
    }

    /// Put a mount at a path, in place of what was there.
    pub fn put_mount(&mut self, path: &str, m: Mount)
        ensures
            final(self)@ == old(self)@.with_mount(path@, m@),
            old(self)@.wf() && m@.fs.tree.wf() ==> final(self)@.wf(),
    {
        let ghost before = self@;
        let ghost value = m@;
        self.mounts.insert(path.to_owned(), m);
        proof {
            assert forall|p: Seq<char>| #[trigger] encode_utf8(p) == encode_utf8(path@)
                implies p == path@ by {
                utf8_injective(p, path@);
            }
            assert(self@.mounts =~= before.mounts.insert(path@, value));
        }
    }
}

/// One line of the daemon's status.
#[derive(Clone, Debug)]
pub struct StatusLine {
    pub path: String,
    pub remote: String,
}

/// The paths of status lines stand in ascending order.
pub open spec fn ascending(lines: Seq<StatusLine>) -> bool {
    forall|i: int, j: int|
        0 <= i < j < lines.len() ==> name_lt((#[trigger] lines[i]).path@, (#[trigger] lines[j]).path@)
}

/// A path has a status line.
pub open spec fn has_line(lines: Seq<StatusLine>, path: Seq<char>) -> bool {
    exists|i: int| 0 <= i < lines.len() && (#[trigger] lines[i]).path@ == path
}

/// The lines name each mount once, with its remote, in the order of their paths.
pub open spec fn lists_mounts(v: ServiceView, lines: Seq<StatusLine>) -> bool {
    &&& ascending(lines)
    &&& forall|p: Seq<char>| #[trigger] has_line(lines, p) <==> v.mounts.contains_key(p)
    &&& forall|i: int|
        0 <= i < lines.len() ==> (#[trigger] lines[i]).remote@ == v.mounts[lines[i].path@].remote
}

impl JujutsuService {
    /// The mounts with their remotes, in the order of their paths.
    pub fn daemon_status(&self) -> (lines: Vec<StatusLine>)
        ensures
            lists_mounts(self@, lines@),
    {
        let n: usize = self.mounts.len();
        let ghost keys = self.mounts.keys();
        let mut lines: Vec<StatusLine> = Vec::new();
        let mut i: usize = 0;
        while i < n
            invariant
                i <= n,
                n == keys.len(),
                keys == self.mounts.keys(),
                self.mounts.ordered(),
                lines@.len() == i,
                forall|j: int| 0 <= j < i ==> (#[trigger] lines@[j]).path@ == keys[j]@,
                forall|j: int|
                    0 <= j < i ==> (#[trigger] lines@[j]).remote@ == self.mounts.values()[j].remote@,
            decreases n - i,
        {
            let path = self.mounts.key_at(i).as_str().to_owned();
            let remote = self.mounts.value_at(i).remote.as_str().to_owned();
            lines.push(StatusLine { path, remote });
            i = i + 1;
        }
        proof {
            let names = keys.map_values(|k: String| k.key());
            assert forall|a: int, b: int| 0 <= a < b < lines@.len() implies name_lt(
                (#[trigger] lines@[a]).path@,
                (#[trigger] lines@[b]).path@,
            ) by {
                assert(names[a] == encode_utf8(keys[a]@));
                assert(names[b] == encode_utf8(keys[b]@));
            }
            assert forall|p: Seq<char>| #[trigger] has_line(lines@, p) <==> self@.mounts.contains_key(
                p,
            ) by {
                if has_line(lines@, p) {
                    let k = choose|k: int| 0 <= k < lines@.len() && (#[trigger] lines@[k]).path@ == p;
                    assert(keys[k].key() == encode_utf8(p));
                }
                if self@.mounts.contains_key(p) {
                    assert(names.to_set().contains(encode_utf8(p)));
                    let k = choose|k: int| 0 <= k < names.len() && names[k] == encode_utf8(p);
                    utf8_injective(keys[k]@, p);
                    assert(lines@[k].path@ == p);
                }
            }
            assert forall|k: int| 0 <= k < lines@.len() implies (#[trigger] lines@[k]).remote@
                == self@.mounts[lines@[k].path@].remote by {
                assert(self.mounts@.contains_key(keys[k].key()));
            }
        }
        lines
    }

    /// The id of the empty tree.
    pub fn get_empty_tree_id(&self, path: &str) -> (r: Result<Vec<u8>, Status>)
        ensures
            bytes_answered(r) == match self@.at(path@) {
                Ok(_) => Ok(Id(EMPTY_TREE)@),
                Err(s) => Err(s),
            },
    {
        match self.find(path) {
            Ok(m) => Ok(m.fs.store().empty_tree_id().to_vec()),
            Err(s) => Err(s),
        }
    }

    /// The root tree that is checked out.
    pub fn get_tree_state(&self, path: &str) -> (r: Result<Vec<u8>, Status>)
        ensures
            bytes_answered(r) == tree_answer(self@, path@),
    {
        match self.find(path) {
            Ok(m) => Ok(copy_bytes(m.root_tree_id.as_slice())),
            Err(s) => Err(s),
        }
    }
}

/// Which operation and workspace are checked out.
#[derive(Clone, Debug)]
pub struct CheckoutState {
    pub op_id: Vec<u8>,
    pub workspace_id: Vec<u8>,
}

/// The answer to a request for the root tree.
pub open spec fn tree_answer(v: ServiceView, path: Seq<char>) -> Result<Seq<u8>, StatusView> {
    match v.at(path) {
        Ok(m) => Ok(m.root_tree_id),
        Err(s) => Err(s),
    }
}

/// The answer to a request for the checkout state: until one is set, it is
/// refused.
pub open spec fn checkout_answer(v: ServiceView, path: Seq<char>) -> Result<
    (Seq<u8>, Seq<u8>),
    StatusView,
> {
    match v.at(path) {
        Ok(m) => if m.op_id.len() == 0 && m.workspace_id.len() == 0 {
            Err(refusal(Code::FailedPrecondition, "checkout state not yet set for "@ + path))
        } else {
            Ok((m.op_id, m.workspace_id))
        },
        Err(s) => Err(s),
    }
}

/// The value of a checkout state.
pub open spec fn checkout_value(c: CheckoutState) -> (Seq<u8>, Seq<u8>) {
    (c.op_id@, c.workspace_id@)
}

/// The refusal where the state of a mount could not be saved. Without a place to
/// save it to, nothing fails.
pub open spec fn save_problem(
    m: MountView,
    context: Seq<char>,
    fault: Option<Seq<char>>,
) -> Option<StatusView> {
    match (m.meta_path, fault) {
        (Some(file), Some(cause)) => Some(
            refusal(Code::Internal, context + ": persisting "@ + file + ": "@ + cause),
        ),
        _ => None,
    }
}

/// What setting the checkout state does and gives. It is set only once it is
/// saved.
pub open spec fn checkout_set(
    v: ServiceView,
    path: Seq<char>,
    checkout: Option<(Seq<u8>, Seq<u8>)>,
    fault: Option<Seq<char>>,
) -> (ServiceView, Result<(), StatusView>) {
    match checkout {
        None => (
            v,
            Err(
                refusal(
                    Code::InvalidArgument,
                    "SetCheckoutStateReq.checkout_state is required"@,
                ),
            ),
        ),
        Some((op_id, workspace_id)) => if !v.mounts.contains_key(path) {
            (
                v,
                Err(
                    refusal(
                        Code::NotFound,
                        "no mount at "@ + path + " (call Initialize first)"@,
                    ),
                ),
            )
        } else {
            match save_problem(v.mounts[path], "persist checkout state"@, fault) {
                Some(s) => (v, Err(s)),
                None => (
                    v.with_mount(path, v.mounts[path].with_checkout(op_id, workspace_id)),
                    Ok(()),
                ),
            }
        },
    }
}

/// The value of an optional checkout state.
pub open spec fn checkout_in(c: Option<CheckoutState>) -> Option<(Seq<u8>, Seq<u8>)> {
    match c {
        Some(c) => Some(checkout_value(c)),
        None => None,
    }
}

/// What has to be saved, and where.
#[derive(Clone, Debug)]
pub struct SaveRequest {
    pub file: String,
    pub metadata: MountMetadata,
}

/// What has to be saved of a mount, if it is kept anywhere.
pub open spec fn to_save(path: Seq<char>, m: MountView) -> Option<(Seq<char>, MetadataView)> {
    match m.meta_path {
        Some(file) => Some((file, m.metadata(path))),
        None => None,
    }
}

/// The value of a save request.
pub open spec fn save_in(r: Option<SaveRequest>) -> Option<(Seq<char>, MetadataView)> {
    match r {
        Some(s) => Some((s.file@, s.metadata@)),
        None => None,
    }
}

/// The refusal where the state of a mount could not be saved.
pub fn save_status(m: &Mount, context: &str, fault: Option<String>) -> (r: Option<Status>)
    ensures
        match r {
            Some(s) => save_problem(m@, context@, text_in(fault)) == Some(s@),
            None => save_problem(m@, context@, text_in(fault)) is None,
        },
{
    match (&m.meta_path, fault) {
        (Some(file), Some(cause)) => {
            let mut text = concat3(context, ": persisting ", file.as_str());
            text.append(": ");
            text.append(cause.as_str());
            Some(Status::new(Code::Internal, text))
        },
        _ => None,
    }
}

/// What has to be saved, if the mount is kept anywhere.
pub fn save_request(m: &Mount, metadata: MountMetadata) -> (r: Option<SaveRequest>)
    ensures
        save_in(r) == match m@.meta_path {
            Some(file) => Some((file, metadata@)),
            None => None,
        },
{
    match &m.meta_path {
        Some(file) => Some(SaveRequest { file: file.as_str().to_owned(), metadata }),
        None => None,
    }
}

impl JujutsuService {
    /// The checkout state of a mount.
    pub fn get_checkout_state(&self, path: &str) -> (r: Result<CheckoutState, Status>)
        ensures
            (match r {
                Ok(c) => Ok(checkout_value(c)),
                Err(s) => Err(s@),
            }) == checkout_answer(self@, path@),
    {
        let m = match self.find(path) {
            Ok(m) => m,
            Err(s) => {
                return Err(s);
            },
        };
        if m.op_id.len() == 0 && m.workspace_id.len() == 0 {
            return Err(
                Status::new(
                    Code::FailedPrecondition,
                    concat2("checkout state not yet set for ", path),
                ),
            );
        }
        Ok(
            CheckoutState {
                op_id: copy_bytes(m.op_id.as_slice()),
                workspace_id: copy_bytes(m.workspace_id.as_slice()),
            },
        )
    }

    /// What has to be saved before a checkout state is set.
    pub fn checkout_to_save(&self, path: &str, checkout: &CheckoutState) -> (r: Option<SaveRequest>)
        ensures
            save_in(r) == (if self@.mounts.contains_key(path@) {
                to_save(
                    path@,
                    self@.mounts[path@].with_checkout(checkout.op_id@, checkout.workspace_id@),
                )
            } else {
                None
            }),
    {
        match self.mount(path) {
            Some(m) => {
                let mut metadata = m.metadata(path);
                metadata.op_id = copy_bytes(checkout.op_id.as_slice());
                metadata.workspace_id = copy_bytes(checkout.workspace_id.as_slice());
                save_request(m, metadata)
            },
            None => None,
        }
    }

    /// Set the checkout state. `fault` is why it could not be saved, if it could
    /// not.
    pub fn set_checkout_state(
        &mut self,
        path: &str,
        checkout: Option<CheckoutState>,
        fault: Option<String>,
    ) -> (r: Result<(), Status>)
        requires
            old(self)@.wf(),
        ensures
            final(self)@.wf(),
            (final(self)@, answered(r)) == checkout_set(
                old(self)@,
                path@,
                checkout_in(checkout),
                text_in(fault),
            ),
    {
        let checkout = match checkout {
            Some(c) => c,
            None => {
                return Err(
                    Status::with_text(
                        Code::InvalidArgument,
                        "SetCheckoutStateReq.checkout_state is required",
                    ),
                );
            },
        };
        match self.mount(path) {
            Some(m) => match save_status(m, "persist checkout state", fault) {
                Some(s) => {
                    return Err(s);
                },
                None => {},
            },
            None => {
                return Err(
                    Status::new(
                        Code::NotFound,
                        concat3("no mount at ", path, " (call Initialize first)"),
                    ),
                );
            },
        }
        let ghost before = self@;
        let mut m = self.take_mount(path).unwrap();
        m.op_id = checkout.op_id;
        m.workspace_id = checkout.workspace_id;
        let ghost value = m@;
        self.put_mount(path, m);
        assert(self@.mounts =~= before.mounts.insert(path@, value));
        Ok(())
    }
}

} // verus!
