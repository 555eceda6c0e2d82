//! Reading and writing the content store of a mount.
//!
//! What is written goes to the remote as well, and what is missing comes from
//! there, if there is one.
use vstd::prelude::*;
use vstd::utf8::encode_utf8;
use crate::git_store::{
    commit_at, file_at, link_at, names_fit, object_id, tree_at, tree_data, tree_id, read_order,
    tree_view, written, EntryView, GitObjectKind, GitTreeEntry, ObjectView, Objects, StoreFault,
    EMPTY_TREE,
};
use crate::commit::{commit_bytes, encode_commit, is_root_merge, merges_root, CommitParts, CommitView};
use crate::mount::MountView;
use crate::remote::{BlobKind, FetchError, FetchView};
use crate::service::working_copy::{id_answer, request_id};
use crate::service::{JujutsuService, ServiceView};
use crate::status::{
    in_context, no_mount_status, refusal, status_in, store_status, Code, Status, StatusView,
};
use crate::text::{concat3, copy_bytes, hex, hex_encode};
use crate::ty::Id;
use crate::vfs::kiki_fs::KikiFsView;

verus! {

broadcast use vstd::string::group_string_axioms;

/// A stored object, and the bytes to push where there is a remote.
#[derive(Clone, Debug)]
pub struct Stored {
    pub id: Id,
    pub push: Option<Vec<u8>>,
}

/// The value of an answer to a write.
pub open spec fn stored_answer(r: Result<Stored, Status>) -> Result<
    (Id, Option<Seq<u8>>),
    StatusView,
> {
    match r {
        Ok(s) => Ok((s.id, crate::store::bytes_in(s.push))),
        Err(s) => Err(s@),
    }
}

/// A stored commit, and what to push under its id where there is a remote.
#[derive(Clone, Debug)]
pub struct CommitStored {
    pub id: Id,
    pub pushes: Vec<(BlobKind, Vec<u8>)>,
}

/// The blobs that are pushed.
pub open spec fn pushes_view(pushes: Seq<(BlobKind, Vec<u8>)>) -> Seq<(BlobKind, Seq<u8>)> {
    pushes.map_values(|p: (BlobKind, Vec<u8>)| (p.0, p.1@))
}

/// The value of an answer to the write of a commit.
pub open spec fn commit_answer(r: Result<CommitStored, Status>) -> Result<
    (Id, Seq<(BlobKind, Seq<u8>)>),
    StatusView,
> {
    match r {
        Ok(s) => Ok((s.id, pushes_view(s.pushes@))),
        Err(s) => Err(s@),
    }
}

/// The mount with other objects in its content store.
pub open spec fn with_objects(m: MountView, objects: Objects) -> MountView {
    m.with_fs(KikiFsView { objects, ..m.fs })
}

/// What storing an object does and gives.
pub open spec fn object_stored(
    v: ServiceView,
    path: Seq<char>,
    kind: GitObjectKind,
    data: Seq<u8>,
    context: Seq<char>,
) -> (ServiceView, Result<(Id, Option<Seq<u8>>), StatusView>) {
    match v.at(path) {
        Err(s) => (v, Err(s)),
        Ok(m) => {
            let objects = written(m.fs.objects, kind, data);
            (
                v.with_mount(path, with_objects(m, objects)),
                match object_id(kind, data) {
                    Some(id) => Ok(
                        (
                            id,
                            if m.connected {
                                Some(objects[id].data)
                            } else {
                                None
                            },
                        ),
                    ),
                    None => Err(
                        in_context(Code::Internal, context, StoreFault::HashRefused.message()),
                    ),
                },
            )
        },
    }
}

/// What storing a tree does and gives.
pub open spec fn tree_stored(
    v: ServiceView,
    path: Seq<char>,
    tree: Option<Seq<EntryView>>,
) -> (ServiceView, Result<(Id, Option<Seq<u8>>), StatusView>) {
    match (v.at(path), tree) {
        (Err(s), _) => (v, Err(s)),
        (Ok(_), None) => (
            v,
            Err(refusal(Code::InvalidArgument, "WriteTreeReq.tree is required"@)),
        ),
        (Ok(_), Some(entries)) => if names_fit(entries) {
            object_stored(v, path, GitObjectKind::Tree, tree_data(entries), "write_tree"@)
        } else {
            (
                v,
                Err(in_context(Code::Internal, "write_tree"@, StoreFault::ZeroInName.message())),
            )
        },
    }
}

/// What is pushed for a commit: its object, then what is kept beside it, if there
/// is anything.
pub open spec fn commit_pushes(object: Option<Seq<u8>>, extra: Option<Seq<u8>>) -> Seq<
    (BlobKind, Seq<u8>),
> {
    match (object, extra) {
        (None, _) => seq![],
        (Some(data), None) => seq![(BlobKind::Commit, data)],
        (Some(data), Some(beside)) => seq![
            (BlobKind::Commit, data),
            (BlobKind::Extra, beside),
        ],
    }
}

/// What storing a commit does and gives. A commit has at least one parent, and the
/// root commit cannot be merged.
pub open spec fn commit_stored(
    v: ServiceView,
    path: Seq<char>,
    commit: Option<CommitView>,
    extra: Option<Seq<u8>>,
) -> (ServiceView, Result<(Id, Seq<(BlobKind, Seq<u8>)>), StatusView>) {
    match (v.at(path), commit) {
        (Err(s), _) => (v, Err(s)),
        (Ok(_), None) => (
            v,
            Err(refusal(Code::InvalidArgument, "WriteCommitReq.commit is required"@)),
        ),
        (Ok(_), Some(c)) => if c.parents.len() == 0 {
            (v, Err(refusal(Code::Internal, "Cannot write a commit with no parents"@)))
        } else if merges_root(c.parents) {
            (
                v,
                Err(
                    in_context(
                        Code::Internal,
                        "write_commit"@,
                        "The Git backend does not support creating merge commits with the root commit as one of the parents."@,
                    ),
                ),
            )
        } else {
            let (after, r) = object_stored(
                v,
                path,
                GitObjectKind::Commit,
                commit_bytes(c),
                "write_commit"@,
            );
            (
                after,
                match r {
                    Ok((id, object)) => Ok((id, commit_pushes(object, extra))),
                    Err(s) => Err(s),
                },
            )
        },
    }
}

/// What a read found.
#[derive(Clone, Debug)]
pub enum Found<T> {
    /// The content.
    Here(T),
    /// It has to be fetched under this id.
    Elsewhere(Id),
}

/// What is said of an object that is nowhere.
pub open spec fn nowhere(what: Seq<char>, id: Id) -> StatusView {
    refusal(Code::NotFound, what + " "@ + hex(id@) + " not found"@)
}

/// The answer to a read: what the store holds under the id, else the order to
/// fetch it, else the refusal.
pub open spec fn read_answer<T>(
    v: ServiceView,
    path: Seq<char>,
    what: Seq<char>,
    message: Seq<char>,
    bytes: Seq<u8>,
    at: spec_fn(Objects, Id) -> Result<Option<T>, StoreFault>,
) -> Result<Found<T>, StatusView> {
    match v.at(path) {
        Err(s) => Err(s),
        Ok(m) => match id_answer(what + " id"@, message, bytes) {
            Err(s) => Err(s),
            Ok(id) => match at(m.fs.objects, id) {
                Ok(Some(content)) => Ok(Found::Here(content)),
                Ok(None) => if m.connected {
                    Ok(Found::Elsewhere(id))
                } else {
                    Err(nowhere(what, id))
                },
                Err(fault) => Err(
                    in_context(Code::Internal, "read_"@ + what, fault.message()),
                ),
            },
        },
    }
}

/// The value of an answer that holds bytes.
pub open spec fn bytes_found(r: Result<Found<Vec<u8>>, Status>) -> Result<
    Found<Seq<u8>>,
    StatusView,
> {
    match r {
        Ok(Found::Here(b)) => Ok(Found::Here(b@)),
        Ok(Found::Elsewhere(id)) => Ok(Found::Elsewhere(id)),
        Err(s) => Err(s@),
    }
}

/// The value of an answer that holds text.
pub open spec fn text_found(r: Result<Found<String>, Status>) -> Result<
    Found<Seq<char>>,
    StatusView,
> {
    match r {
        Ok(Found::Here(t)) => Ok(Found::Here(t@)),
        Ok(Found::Elsewhere(id)) => Ok(Found::Elsewhere(id)),
        Err(s) => Err(s@),
    }
}

/// The value of an answer that holds a tree.
pub open spec fn tree_found(r: Result<Found<Vec<GitTreeEntry>>, Status>) -> Result<
    Found<Seq<EntryView>>,
    StatusView,
> {
    match r {
        Ok(Found::Here(t)) => Ok(Found::Here(tree_view(t@))),
        Ok(Found::Elsewhere(id)) => Ok(Found::Elsewhere(id)),
        Err(s) => Err(s@),
    }
}

/// What a read gives that found nothing in the store.
fn missing<T>(connected: bool, what: &str, id: Id) -> (r: Result<Found<T>, Status>)
    ensures
        match r {
            Ok(f) => connected && f == Found::<T>::Elsewhere(id),
            Err(s) => !connected && s@ == nowhere(what@, id),
        },
{
    if connected {
        return Ok(Found::Elsewhere(id));
    }
    let mut text = concat3(what, " ", hex_encode(id.0.as_slice()).as_str());
    text.append(" not found");
    Err(Status::new(Code::NotFound, text))
}

/// What comes of a fetch: nothing, or bytes that have or do not have the id.
pub open spec fn fetch_result(
    what: BlobKind,
    id: Id,
    kind: GitObjectKind,
    data: Option<Seq<u8>>,
) -> Result<(), FetchView> {
    match data {
        None => Err(FetchView::NotFound { kind: what.tag(), id: hex(id@) }),
        Some(bytes) => if object_id(kind, bytes) == Some(id) {
            Ok(())
        } else if object_id(kind, bytes) is None {
            Err(FetchView::DataLoss(StoreFault::HashRefused.message()))
        } else {
            Err(FetchView::DataLoss(StoreFault::IdMismatch.message()))
        },
    }
}

/// The service after a fetched object was taken in for a mount, if there is one.
pub open spec fn fetch_kept(
    v: ServiceView,
    path: Seq<char>,
    kind: GitObjectKind,
    data: Seq<u8>,
) -> ServiceView {
    if v.mounts.contains_key(path) {
        let m = v.mounts[path];
        v.with_mount(path, with_objects(m, written(m.fs.objects, kind, data)))
    } else {
        v
    }
}

impl JujutsuService {
    fn store_object(&mut self, path: &str, kind: GitObjectKind, data: Vec<u8>, context: &str) -> (r:
        Result<Stored, Status>)
        requires
            old(self)@.wf(),
        ensures
            final(self)@.wf(),
            (final(self)@, stored_answer(r)) == object_stored(
                old(self)@,
                path@,
                kind,
                data@,
                context@,
            ),
    {
        let ghost before = self@;
        let mut m = match self.take_mount(path) {
            Some(m) => m,
            None => {
                proof {
                    assert(self@.mounts =~= before.mounts);
                }
                return Err(no_mount_status(path));
            },
        };
        let ghost was = m@;
        assert(was.fs.tree.wf());
        let outcome = m.fs.write_object(kind, data);
        let push: Option<Vec<u8>> = match &outcome {
            Ok(id) => if m.connected {
                match m.fs.store().read_git_object_bytes(id) {
                    Some((_, bytes)) => Some(bytes),
                    None => None,
                }
            } else {
                None
            },
            Err(_) => None,
        };
        let ghost value = m@;
        self.put_mount(path, m);
        proof {
            assert(self@.mounts =~= before.mounts.insert(path@, value));
            assert(value == with_objects(was, value.fs.objects));
        }
        match outcome {
            Ok(id) => Ok(Stored { id, push }),
            Err(fault) => Err(store_status(context, fault)),
        }
    }

    /// Store the content of a file.
    pub fn write_file(&mut self, path: &str, data: &[u8]) -> (r: Result<Stored, Status>)
        requires
            old(self)@.wf(),
        ensures
            final(self)@.wf(),
            (final(self)@, stored_answer(r)) == object_stored(
                old(self)@,
                path@,
                GitObjectKind::Blob,
                data@,
                "write_file"@,
            ),
    {
        self.store_object(path, GitObjectKind::Blob, copy_bytes(data), "write_file")
    }

    /// Store the target of a symlink.
    pub fn write_symlink(&mut self, path: &str, target: &str) -> (r: Result<Stored, Status>)
        requires
            old(self)@.wf(),
        ensures
            final(self)@.wf(),
            (final(self)@, stored_answer(r)) == object_stored(
                old(self)@,
                path@,
                GitObjectKind::Blob,
                encode_utf8(target@),
                "write_symlink"@,
            ),
    {
        self.store_object(
            path,
            GitObjectKind::Blob,
            copy_bytes(target.as_bytes()),
            "write_symlink",
        )
    }

    /// Store a tree. The entries may come in any order.
    pub fn write_tree(&mut self, path: &str, tree: Option<&Vec<GitTreeEntry>>) -> (r: Result<
        Stored,
        Status,
    >)
        requires
            old(self)@.wf(),
        ensures
            final(self)@.wf(),
            (final(self)@, stored_answer(r)) == tree_stored(
                old(self)@,
                path@,
                match tree {
                    Some(entries) => Some(tree_view(entries@)),
                    None => None,
                },
            ),
    {
        match self.find(path) {
            Ok(_) => {},
            Err(s) => {
                return Err(s);
            },
        }
        let entries = match tree {
            Some(entries) => entries,
            None => {
                return Err(
                    Status::with_text(Code::InvalidArgument, "WriteTreeReq.tree is required"),
                );
            },
        };
        let ordered = crate::git_store::order_entries(entries);
        proof {
            crate::git_store::lemma_names_fit_ordered(tree_view(entries@));
        }
        match crate::git_store::tree_to_bytes(&ordered) {
            Some(data) => self.store_object(path, GitObjectKind::Tree, data, "write_tree"),
            None => Err(store_status("write_tree", StoreFault::ZeroInName)),
        }
    }

    /// Store a commit. `extra` is what is kept beside it: the change that it belongs
    /// to and the commits that it replaces.
    pub fn write_commit(
        &mut self,
        path: &str,
        commit: Option<&CommitParts>,
        extra: Option<Vec<u8>>,
    ) -> (r: Result<CommitStored, Status>)
        requires
            old(self)@.wf(),
        ensures
            final(self)@.wf(),
            (final(self)@, commit_answer(r)) == commit_stored(
                old(self)@,
                path@,
                match commit {
                    Some(c) => Some(c@),
                    None => None,
                },
                crate::store::bytes_in(extra),
            ),
    {
        match self.find(path) {
            Ok(_) => {},
            Err(s) => {
                return Err(s);
            },
        }
        let c = match commit {
            Some(c) => c,
            None => {
                return Err(
                    Status::with_text(Code::InvalidArgument, "WriteCommitReq.commit is required"),
                );
            },
        };
        if c.parents.len() == 0 {
            return Err(
                Status::with_text(Code::Internal, "Cannot write a commit with no parents"),
            );
        }
        if is_root_merge(&c.parents) {
            return Err(
                status_in(
                    Code::Internal,
                    "write_commit",
                    "The Git backend does not support creating merge commits with the root commit as one of the parents.",
                ),
            );
        }
        let ghost beside = crate::store::bytes_in(extra);
        match self.store_object(path, GitObjectKind::Commit, encode_commit(c), "write_commit") {
            Err(s) => Err(s),
            Ok(stored) => {
                let ghost object = crate::store::bytes_in(stored.push);
                let mut pushes: Vec<(BlobKind, Vec<u8>)> = Vec::new();
                match stored.push {
                    None => {},
                    Some(data) => {
                        pushes.push((BlobKind::Commit, data));
                        match extra {
                            None => {},
                            Some(data) => {
                                pushes.push((BlobKind::Extra, data));
                            },
                        }
                    },
                }
                assert(pushes_view(pushes@) =~= commit_pushes(object, beside));
                Ok(CommitStored { id: stored.id, pushes })
            },
        }
    }

    /// Read a file. Without it in the store it has to be fetched, if there is a
    /// remote.
    pub fn read_file(&self, path: &str, file_id: &[u8]) -> (r: Result<Found<Vec<u8>>, Status>)
        ensures
            bytes_found(r) == read_answer(
                self@,
                path@,
                "file"@,
                "FileId"@,
                file_id@,
                |objects: Objects, id: Id| file_at(objects, id),
            ),
    {
        proof {
            reveal_strlit("file");
            reveal_strlit("file id");
            reveal_strlit(" id");
            reveal_strlit("read_file");
            reveal_strlit("read_");
            assert("file id"@ =~= "file"@ + " id"@);
            assert("read_file"@ =~= "read_"@ + "file"@);
        }
        let m = match self.find(path) {
            Ok(m) => m,
            Err(s) => {
                return Err(s);
            },
        };
        let id = match request_id("file id", "FileId", file_id) {
            Ok(id) => id,
            Err(s) => {
                return Err(s);
            },
        };
        match m.fs.store().read_file(&id) {
            Ok(Some(content)) => Ok(Found::Here(content)),
            Ok(None) => missing(m.connected, "file", id),
            Err(fault) => Err(store_status("read_file", fault)),
        }
    }

    /// Read a symlink. Without it in the store it has to be fetched, if there is a
    /// remote.
    pub fn read_symlink(&self, path: &str, symlink_id: &[u8]) -> (r: Result<Found<String>, Status>)
        ensures
            text_found(r) == read_answer(
                self@,
                path@,
                "symlink"@,
                "SymlinkId"@,
                symlink_id@,
                |objects: Objects, id: Id| link_at(objects, id),
            ),
    {
        proof {
            reveal_strlit("symlink");
            reveal_strlit("symlink id");
            reveal_strlit(" id");
            reveal_strlit("read_symlink");
            reveal_strlit("read_");
            assert("symlink id"@ =~= "symlink"@ + " id"@);
            assert("read_symlink"@ =~= "read_"@ + "symlink"@);
        }
        let m = match self.find(path) {
            Ok(m) => m,
            Err(s) => {
                return Err(s);
            },
        };
        let id = match request_id("symlink id", "SymlinkId", symlink_id) {
            Ok(id) => id,
            Err(s) => {
                return Err(s);
            },
        };
        match m.fs.store().read_symlink(&id) {
            Ok(Some(content)) => Ok(Found::Here(content)),
            Ok(None) => missing(m.connected, "symlink", id),
            Err(fault) => Err(store_status("read_symlink", fault)),
        }
    }

    /// Read a tree. Without it in the store it has to be fetched, if there is a
    /// remote.
    pub fn read_tree(
        &self,
        path: &str,
        tree_id: &[u8],
    ) -> (r: Result<Found<Vec<GitTreeEntry>>, Status>)
        ensures
            tree_found(r) == read_answer(
                self@,
                path@,
                "tree"@,
                "TreeId"@,
                tree_id@,
                |objects: Objects, id: Id| tree_at(objects, id),
            ),
    {
        proof {
            reveal_strlit("tree");
            reveal_strlit("tree id");
            reveal_strlit(" id");
            reveal_strlit("read_tree");
            reveal_strlit("read_");
            assert("tree id"@ =~= "tree"@ + " id"@);
            assert("read_tree"@ =~= "read_"@ + "tree"@);
        }
        let m = match self.find(path) {
            Ok(m) => m,
            Err(s) => {
                return Err(s);
            },
        };
        let id = match request_id("tree id", "TreeId", tree_id) {
            Ok(id) => id,
            Err(s) => {
                return Err(s);
            },
        };
        match m.fs.store().read_tree(&id) {
            Ok(Some(content)) => Ok(Found::Here(content)),
            Ok(None) => missing(m.connected, "tree", id),
            Err(fault) => Err(store_status("read_tree", fault)),
        }
    }

    /// Read a commit. Without it in the store it has to be fetched, if there is a
    /// remote.
    pub fn read_commit(&self, path: &str, commit_id: &[u8]) -> (r: Result<Found<Vec<u8>>, Status>)
        ensures
            bytes_found(r) == read_answer(
                self@,
                path@,
                "commit"@,
                "CommitId"@,
                commit_id@,
                |objects: Objects, id: Id| commit_at(objects, id),
            ),
    {
        proof {
            reveal_strlit("commit");
            reveal_strlit("commit id");
            reveal_strlit(" id");
            reveal_strlit("read_commit");
            reveal_strlit("read_");
            assert("commit id"@ =~= "commit"@ + " id"@);
            assert("read_commit"@ =~= "read_"@ + "commit"@);
        }
        let m = match self.find(path) {
            Ok(m) => m,
            Err(s) => {
                return Err(s);
            },
        };
        let id = match request_id("commit id", "CommitId", commit_id) {
            Ok(id) => id,
            Err(s) => {
                return Err(s);
            },
        };
        match m.fs.store().read_commit(&id) {
            Ok(Some(content)) => Ok(Found::Here(content)),
            Ok(None) => missing(m.connected, "commit", id),
            Err(fault) => Err(store_status("read_commit", fault)),
        }
    }

    /// Take in an object that was fetched. It is kept only if its bytes have the
    /// id.
    pub fn keep_fetched(
        &mut self,
        path: &str,
        id: Id,
        kind: GitObjectKind,
        what: BlobKind,
        data: Option<Vec<u8>>,
    ) -> (r: Result<(), FetchError>)
        requires
            old(self)@.wf(),
        ensures
            final(self)@.wf(),
            (match r {
                Ok(_) => Ok(()),
                Err(e) => Err(e@),
            }) == fetch_result(what, id, kind, crate::store::bytes_in(data)),
            final(self)@ == (if r is Ok {
                fetch_kept(old(self)@, path@, kind, data->0@)
            } else {
                old(self)@
            }),
    {
        let bytes = match data {
            Some(bytes) => bytes,
            None => {
                return Err(
                    FetchError::NotFound {
                        kind: what.to_string(),
                        id: hex_encode(id.0.as_slice()),
                    },
                );
            },
        };
        let ghost before = self@;
        match crate::git_store::hash_object(kind, bytes.as_slice()) {
            Some(actual) => {
                if !actual.same(&id) {
                    return Err(FetchError::DataLoss(StoreFault::IdMismatch.to_string()));
                }
            },
            None => {
                return Err(FetchError::DataLoss(StoreFault::HashRefused.to_string()));
            },
        }
        match self.take_mount(path) {
            Some(m) => {
                let mut m = m;
                let ghost was = m@;
                assert(was.fs.tree.wf());
                let _ = m.fs.import_object(id, kind, bytes);
                let ghost value = m@;
                self.put_mount(path, m);
                proof {
                    assert(self@.mounts =~= before.mounts.insert(path@, value));
                    assert(value == with_objects(was, value.fs.objects));
                }
            },
            None => {
                assert(self@.mounts =~= before.mounts);
            },
        }
        Ok(())
    }
}

/// A file that was written is read back, unless another object had its id
/// before.
pub proof fn written_file_is_read(v: ServiceView, path: Seq<char>, content: Seq<u8>, id: Id)
    requires
        v.mounts.contains_key(path),
        object_id(GitObjectKind::Blob, content) == Some(id),
        v.mounts[path].fs.objects.contains_key(id) ==> v.mounts[path].fs.objects[id] == (
        ObjectView { kind: GitObjectKind::Blob, data: content }),
    ensures
        read_answer(
            object_stored(v, path, GitObjectKind::Blob, content, "write_file"@).0,
            path,
            "file"@,
            "FileId"@,
            id@,
            |objects: Objects, id: Id| file_at(objects, id),
        ) == Ok::<Found<Seq<u8>>, StatusView>(Found::Here(content)),
{
    crate::ty::id_ext(id, crate::git_store::id_of(id@));
    crate::ty::id_bytes_round_trip(id, id);
}

/// A symlink that was written is read back, unless another object had its id
/// before.
pub proof fn written_symlink_is_read(v: ServiceView, path: Seq<char>, target: Seq<char>, id: Id)
    requires
        v.mounts.contains_key(path),
        object_id(GitObjectKind::Blob, encode_utf8(target)) == Some(id),
        v.mounts[path].fs.objects.contains_key(id) ==> v.mounts[path].fs.objects[id] == (
        ObjectView { kind: GitObjectKind::Blob, data: encode_utf8(target) }),
    ensures
        read_answer(
            object_stored(v, path, GitObjectKind::Blob, encode_utf8(target), "write_symlink"@).0,
            path,
            "symlink"@,
            "SymlinkId"@,
            id@,
            |objects: Objects, id: Id| link_at(objects, id),
        ) == Ok::<Found<Seq<char>>, StatusView>(Found::Here(target)),
{
    crate::ty::id_ext(id, crate::git_store::id_of(id@));
    crate::ty::id_bytes_round_trip(id, id);
    crate::git_store::symlink_round_trip(v.mounts[path].fs.objects, target, id);
}

/// A tree that was written is read back with its entries in the order of git,
/// unless another object had its id before.
pub proof fn written_tree_is_read(
    v: ServiceView,
    path: Seq<char>,
    entries: Seq<EntryView>,
    id: Id,
)
    requires
        v.mounts.contains_key(path),
        tree_id(entries) == Ok::<Id, StoreFault>(id),
        v.mounts[path].fs.objects.contains_key(id) ==> v.mounts[path].fs.objects[id] == (
        ObjectView { kind: GitObjectKind::Tree, data: tree_data(entries) }),
        id == Id(EMPTY_TREE) ==> entries.len() == 0,
    ensures
        read_answer(
            tree_stored(v, path, Some(entries)).0,
            path,
            "tree"@,
            "TreeId"@,
            id@,
            |objects: Objects, id: Id| tree_at(objects, id),
        ) == Ok::<Found<Seq<EntryView>>, StatusView>(Found::Here(read_order(entries))),
{
    crate::ty::id_ext(id, crate::git_store::id_of(id@));
    crate::ty::id_bytes_round_trip(id, id);
    crate::git_store::tree_round_trip(v.mounts[path].fs.objects, entries, id);
}

/// A commit that was written is read back, unless another object had its id
/// before.
pub proof fn written_commit_is_read(
    v: ServiceView,
    path: Seq<char>,
    commit: CommitView,
    extra: Option<Seq<u8>>,
    id: Id,
)
    requires
        v.mounts.contains_key(path),
        commit.parents.len() > 0,
        !merges_root(commit.parents),
        object_id(GitObjectKind::Commit, commit_bytes(commit)) == Some(id),
        v.mounts[path].fs.objects.contains_key(id) ==> v.mounts[path].fs.objects[id] == (
        ObjectView { kind: GitObjectKind::Commit, data: commit_bytes(commit) }),
    ensures
        read_answer(
            commit_stored(v, path, Some(commit), extra).0,
            path,
            "commit"@,
            "CommitId"@,
            id@,
            |objects: Objects, id: Id| commit_at(objects, id),
        ) == Ok::<Found<Seq<u8>>, StatusView>(Found::Here(commit_bytes(commit))),
{
    crate::ty::id_ext(id, crate::git_store::id_of(id@));
    crate::ty::id_bytes_round_trip(id, id);
}

/// Reading through: a file that a read did not find is there once it was fetched
/// under its id.
pub proof fn fetched_file_is_read(v: ServiceView, path: Seq<char>, content: Seq<u8>, id: Id)
    requires
        v.mounts.contains_key(path),
        read_answer(
            v,
            path,
            "file"@,
            "FileId"@,
            id@,
            |objects: Objects, id: Id| file_at(objects, id),
        ) == Ok::<Found<Seq<u8>>, StatusView>(Found::Elsewhere(id)),
        fetch_result(BlobKind::Blob, id, GitObjectKind::Blob, Some(content)) is Ok,
    ensures
        read_answer(
            fetch_kept(v, path, GitObjectKind::Blob, content),
            path,
            "file"@,
            "FileId"@,
            id@,
            |objects: Objects, id: Id| file_at(objects, id),
        ) == Ok::<Found<Seq<u8>>, StatusView>(Found::Here(content)),
{
    crate::ty::id_ext(id, crate::git_store::id_of(id@));
    crate::ty::id_bytes_round_trip(id, id);
}

/// What is stored for one mount is stored for no other.
pub proof fn contents_are_apart(
    v: ServiceView,
    path: Seq<char>,
    other: Seq<char>,
    kind: GitObjectKind,
    data: Seq<u8>,
    context: Seq<char>,
)
    requires
        other != path,
    ensures
        object_stored(v, path, kind, data, context).0.at(other) == v.at(other),
{
}

} // verus!
