//! Taking a snapshot of a working copy, and checking out a tree.
use vstd::prelude::*;
use crate::git_changes::{bookmark_changes, changes, detect_head, external_head};
use crate::mount::MountView;
use crate::op_blobs::{bookmark_values, Bookmark, BookmarkValue};
use crate::service::{
    answered, save_in, save_problem, save_request, save_status, to_save, JujutsuService,
    SaveRequest, ServiceView,
};
use crate::status::{decode_status, in_context, no_mount_status, refusal, Code, Status, StatusView};
use crate::store::bytes_in;
use crate::text::{concat2, concat3, copy_bytes, decimal, hex, hex_encode, text_in};
use crate::ty::{Id, ID_LEN};
use crate::vfs::kiki_fs::{snapshotted, JjKikiFs};
use crate::vfs::types::{fault_view, ErrView, FsError};

verus! {

/// A snapshot that was taken but is not yet on record.
#[derive(Clone, Debug)]
pub struct SnapshotTaken {
    /// The root tree of the snapshot.
    pub root: Id,
    /// Whether the objects below it have to be pushed.
    pub push: bool,
    /// The head that was last exported.
    pub exported_head: Vec<u8>,
}

/// How a filesystem error during a snapshot is answered.
pub open spec fn snapshot_refusal(path: Seq<char>, e: ErrView) -> StatusView {
    in_context(Code::Internal, "snapshot failed for "@ + path, e.message())
}

/// What taking a snapshot does and gives. The filesystem changes as its own
/// snapshot says; nothing is on record yet.
pub open spec fn snapshot_taken(
    before: ServiceView,
    path: Seq<char>,
    after: ServiceView,
    r: Result<SnapshotTaken, Status>,
) -> bool {
    match before.at(path) {
        Err(s) => after == before && (r matches Err(e) && e@ == s),
        Ok(m) => {
            let fs = after.mounts[path].fs;
            let result = match m.fs.tree.snapshot_id() {
                Ok(id) => Ok(id),
                Err(fault) => Err(fault_view(fault)),
            };
            &&& after == before.with_mount(path, m.with_fs(fs))
            &&& fs.git_path == m.fs.git_path
            &&& snapshotted(m.fs.tree, m.fs.objects, fs.tree, fs.objects, result)
            &&& match result {
                Ok(id) => r matches Ok(taken) && {
                    &&& taken.root == id
                    &&& taken.push == m.connected
                    &&& taken.exported_head@ == m.last_exported_head
                },
                Err(e) => r matches Err(s) && s@ == snapshot_refusal(path, e),
            }
        },
    }
}

/// The answer to a snapshot request.
#[derive(Clone, Debug)]
pub struct SnapshotReply {
    pub tree_id: Vec<u8>,
    /// A head that came from outside, or nothing.
    pub external_git_head: Vec<u8>,
}

/// The value of an answer to a snapshot request.
pub open spec fn snapshot_reply(r: Result<SnapshotReply, Status>) -> Result<
    (Seq<u8>, Seq<u8>),
    StatusView,
> {
    match r {
        Ok(reply) => Ok((reply.tree_id@, reply.external_git_head@)),
        Err(s) => Err(s@),
    }
}

/// What putting a new root tree on record does and gives. It is on record only
/// once it is saved.
pub open spec fn root_recorded(
    v: ServiceView,
    path: Seq<char>,
    root: Seq<u8>,
    request: Seq<char>,
    context: Seq<char>,
    fault: Option<Seq<char>>,
) -> (ServiceView, Result<(), StatusView>) {
    if !v.mounts.contains_key(path) {
        (
            v,
            Err(
                refusal(
                    Code::NotFound,
                    "mount at "@ + path + " disappeared during "@ + request,
                ),
            ),
        )
    } else {
        match save_problem(v.mounts[path], context, fault) {
            Some(s) => (v, Err(s)),
            None => (v.with_mount(path, v.mounts[path].with_root(root)), Ok(())),
        }
    }
}

/// What putting a snapshot on record does and gives.
pub open spec fn snapshot_recorded(
    v: ServiceView,
    path: Seq<char>,
    root: Id,
    exported_head: Seq<u8>,
    fault: Option<Seq<char>>,
    current_head: Option<Seq<u8>>,
) -> (ServiceView, Result<(Seq<u8>, Seq<u8>), StatusView>) {
    let (after, r) = root_recorded(
        v,
        path,
        root@,
        "snapshot"@,
        "persist snapshot metadata"@,
        fault,
    );
    (
        after,
        match r {
            Ok(_) => Ok((root@, external_head(exported_head, current_head))),
            Err(s) => Err(s),
        },
    )
}

/// How a filesystem error during a check-out is answered. A tree that is not
/// there has to be written first.
pub open spec fn check_out_refusal(tree: Id, e: ErrView) -> StatusView {
    match e {
        ErrView::StoreMiss => refusal(
            Code::FailedPrecondition,
            "tree "@ + hex(tree@) + " not in store; call WriteTree first"@,
        ),
        _ => in_context(Code::Internal, "check_out failed"@, e.message()),
    }
}

/// How a filesystem error during a check-out is answered.
pub fn check_out_status(tree: &Id, e: &FsError) -> (s: Status)
    ensures
        s@ == check_out_refusal(*tree, e@),
{
    match e {
        FsError::StoreMiss => Status::new(
            Code::FailedPrecondition,
            concat3(
                "tree ",
                hex_encode(tree.0.as_slice()).as_str(),
                " not in store; call WriteTree first",
            ),
        ),
        _ => crate::status::status_in(
            Code::Internal,
            "check_out failed",
            e.to_string().as_str(),
        ),
    }
}

/// The id in the bytes of a request, or the refusal. It says what the id was
/// for, and the message that it came in.
pub open spec fn id_answer(what: Seq<char>, message: Seq<char>, bytes: Seq<u8>) -> Result<
    Id,
    StatusView,
> {
    if bytes.len() == ID_LEN {
        Ok(crate::git_store::id_of(bytes))
    } else {
        Err(
            in_context(
                Code::InvalidArgument,
                what,
                message + ": "@ + ("expected 20-byte id, got "@ + decimal(bytes.len())
                    + " bytes"@),
            ),
        )
    }
}

/// The id in the bytes of a request.
pub fn request_id(what: &str, message: &str, bytes: &[u8]) -> (r: Result<Id, Status>)
    ensures
        answered(r) == id_answer(what@, message@, bytes@),
{
    match Id::from_bytes(bytes) {
        Ok(id) => {
            proof {
                crate::ty::id_ext(id, crate::git_store::id_of(bytes@));
            }
            Ok(id)
        },
        Err(e) => Err(
            decode_status(what, concat3(message, ": ", e.to_string().as_str()).as_str()),
        ),
    }
}

/// What switching the filesystem of a mount to another tree does and gives. The
/// new root is not yet on record.
pub open spec fn tree_switched(v: ServiceView, path: Seq<char>, tree: Seq<u8>) -> (
    ServiceView,
    Result<Id, StatusView>,
) {
    match id_answer("tree id"@, "TreeId"@, tree) {
        Err(s) => (v, Err(s)),
        Ok(id) => match v.at(path) {
            Err(s) => (v, Err(s)),
            Ok(m) => {
                let (fs, r) = m.fs.stepped(m.fs.tree.check_out(m.fs.objects, id, 0));
                match r {
                    Ok(_) => (v.with_mount(path, m.with_fs(fs)), Ok(id)),
                    Err(e) => (v.with_mount(path, m.with_fs(fs)), Err(check_out_refusal(id, e))),
                }
            },
        },
    }
}

/// The answer to a question for changes from outside: the new head, and how the
/// bookmarks changed.
#[derive(Clone, Debug)]
pub struct HeadChangeReply {
    pub new_head_commit_id: Vec<u8>,
    pub bookmark_changes: Vec<Bookmark>,
}

/// The answer to a question for changes from outside. Without an export there is
/// nothing to compare with.
pub open spec fn head_change(
    v: ServiceView,
    path: Seq<char>,
    head: Option<Seq<u8>>,
    refs: Seq<BookmarkValue>,
) -> Result<(Seq<u8>, Seq<BookmarkValue>), StatusView> {
    match v.at(path) {
        Err(s) => Err(s),
        Ok(m) => Ok(
            (
                external_head(m.last_exported_head, head),
                match m.last_exported_bookmarks {
                    Some(exported) => changes(exported, refs),
                    None => seq![],
                },
            ),
        ),
    }
}

impl JujutsuService {
    /// Take a snapshot of a working copy: everything modified is written to the
    /// content store.
    pub fn snapshot(&mut self, path: &str) -> (r: Result<SnapshotTaken, Status>)
        requires
            old(self)@.wf(),
        ensures
            final(self)@.wf(),
            snapshot_taken(old(self)@, path@, final(self)@, r),
    {
        let ghost before = self@;
        let mut m = match self.take_mount(path) {
            Some(m) => m,
            None => {
                proof {
                    assert(self@.mounts =~= before.mounts);
                }
                return Err(no_mount_status(path));
            },
        };
        let ghost was = m@;
        assert(was.fs.tree.wf());
        let taken = m.fs.snapshot();
        let exported_head = copy_bytes(m.last_exported_head.as_slice());
        let push: bool = m.connected;
        let ghost value = m@;
        self.put_mount(path, m);
        proof {
            assert(self@.mounts =~= before.mounts.insert(path@, value));
            assert(value == was.with_fs(value.fs));
        }
        match taken {
            Ok(root) => Ok(SnapshotTaken { root, push, exported_head }),
            Err(e) => Err(
                crate::status::status_in(
                    Code::Internal,
                    concat2("snapshot failed for ", path).as_str(),
                    e.to_string().as_str(),
                ),
            ),
        }
    }

    /// What has to be saved before a new root tree is on record.
    pub fn root_to_save(&self, path: &str, root: &[u8]) -> (r: Option<SaveRequest>)
        ensures
            save_in(r) == (if self@.mounts.contains_key(path@) {
                to_save(path@, self@.mounts[path@].with_root(root@))
            } else {
                None
            }),
    {
        match self.mount(path) {
            Some(m) => {
                let mut metadata = m.metadata(path);
                metadata.root_tree_id = copy_bytes(root);
                save_request(m, metadata)
            },
            None => None,
        }
    }

    fn record_root(
        &mut self,
        path: &str,
        root: &[u8],
        request: &str,
        context: &str,
        fault: Option<String>,
    ) -> (r: Result<(), Status>)
        requires
            old(self)@.wf(),
        ensures
            final(self)@.wf(),
            (final(self)@, answered(r)) == root_recorded(
                old(self)@,
                path@,
                root@,
                request@,
                context@,
                text_in(fault),
            ),
    {
        match self.mount(path) {
            Some(m) => match save_status(m, context, fault) {
                Some(s) => {
                    return Err(s);
                },
                None => {},
            },
            None => {
                let mut text = concat3("mount at ", path, " disappeared during ");
                text.append(request);
                return Err(Status::new(Code::NotFound, text));
            },
        }
        let ghost before = self@;
        let mut m = self.take_mount(path).unwrap();
        m.root_tree_id = copy_bytes(root);
        let ghost value = m@;
        self.put_mount(path, m);
        assert(self@.mounts =~= before.mounts.insert(path@, value));
        Ok(())
    }

    /// Put a snapshot on record. `fault` is why it could not be saved, if it
    /// could not, and `current_head` is the head that the repository has.
    pub fn finish_snapshot(
        &mut self,
        path: &str,
        root: &Id,
        exported_head: &[u8],
        fault: Option<String>,
        current_head: Option<Vec<u8>>,
    ) -> (r: Result<SnapshotReply, Status>)
        requires
            old(self)@.wf(),
        ensures
            final(self)@.wf(),
            (final(self)@, snapshot_reply(r)) == snapshot_recorded(
                old(self)@,
                path@,
                *root,
                exported_head@,
                text_in(fault),
                bytes_in(current_head),
            ),
    {
        match self.record_root(
            path,
            root.0.as_slice(),
            "snapshot",
            "persist snapshot metadata",
            fault,
        ) {
            Ok(()) => Ok(
                SnapshotReply {
                    tree_id: root.to_vec(),
                    external_git_head: detect_head(exported_head, current_head),
                },
            ),
            Err(s) => Err(s),
        }
    }

    /// Switch the filesystem of a mount to another tree.
    pub fn check_out(&mut self, path: &str, new_tree_id: &[u8]) -> (r: Result<Id, Status>)
        requires
            old(self)@.wf(),
        ensures
            final(self)@.wf(),
            (final(self)@, answered(r)) == tree_switched(old(self)@, path@, new_tree_id@),
    {
        let id = match request_id("tree id", "TreeId", new_tree_id) {
            Ok(id) => id,
            Err(s) => {
                return Err(s);
            },
        };
        let ghost before = self@;
        let mut m = match self.take_mount(path) {
            Some(m) => m,
            None => {
                proof {
                    assert(self@.mounts =~= before.mounts);
                }
                return Err(no_mount_status(path));
            },
        };
        let ghost was = m@;
        assert(was.fs.tree.wf());
        let switched = m.fs.check_out(id, 0);
        let ghost value = m@;
        self.put_mount(path, m);
        proof {
            assert(self@.mounts =~= before.mounts.insert(path@, value));
            assert(value == was.with_fs(value.fs));
        }
        match switched {
            Ok(()) => Ok(id),
            Err(e) => Err(check_out_status(&id, &e)),
        }
    }

    /// Put the tree of a check-out on record. `fault` is why it could not be
    /// saved, if it could not.
    pub fn finish_check_out(&mut self, path: &str, new_tree_id: &[u8], fault: Option<String>) -> (r:
        Result<(), Status>)
        requires
            old(self)@.wf(),
        ensures
            final(self)@.wf(),
            (final(self)@, answered(r)) == root_recorded(
                old(self)@,
                path@,
                new_tree_id@,
                "check_out"@,
                "persist checkout metadata"@,
                text_in(fault),
            ),
    {
        self.record_root(path, new_tree_id, "check_out", "persist checkout metadata", fault)
    }

    /// Find out what git tools changed: the head that the repository has and its
    /// bookmarks are compared with what was exported.
    pub fn git_detect_head_change(
        &self,
        path: &str,
        current_head: Option<Vec<u8>>,
        current_refs: &Vec<Bookmark>,
    ) -> (r: Result<HeadChangeReply, Status>)
        ensures
            (match r {
                Ok(reply) => Ok(
                    (reply.new_head_commit_id@, bookmark_values(reply.bookmark_changes@)),
                ),
                Err(s) => Err(s@),
            }) == head_change(
                self@,
                path@,
                bytes_in(current_head),
                bookmark_values(current_refs@),
            ),
    {
        let m = match self.find(path) {
            Ok(m) => m,
            Err(s) => {
                return Err(s);
            },
        };
        let new_head_commit_id = detect_head(m.last_exported_head.as_slice(), current_head);
        let bookmark_changes = match &m.last_exported_bookmarks {
            Some(exported) => bookmark_changes(exported, current_refs),
            None => {
                let none: Vec<Bookmark> = Vec::new();
                assert(bookmark_values(none@) =~= seq![]);
                none
            },
        };
        Ok(HeadChangeReply { new_head_commit_id, bookmark_changes })
    }

    /// Note which head was exported.
    pub fn head_exported(&mut self, path: &str, id: Vec<u8>)
        requires
            old(self)@.wf(),
        ensures
            final(self)@.wf(),
            final(self)@ == (if old(self)@.mounts.contains_key(path@) {
                old(self)@.with_mount(
                    path@,
                    MountView { last_exported_head: id@, ..old(self)@.mounts[path@] },
                )
            } else {
                old(self)@
            }),
    {
        let ghost before = self@;
        match self.take_mount(path) {
            Some(m) => {
                let mut m = m;
                m.last_exported_head = id;
                let ghost value = m@;
                self.put_mount(path, m);
                assert(self@.mounts =~= before.mounts.insert(path@, value));
            },
            None => {
                assert(self@.mounts =~= before.mounts);
            },
        }
    }

    /// Note which bookmarks were exported.
    pub fn bookmarks_exported(&mut self, path: &str, bookmarks: Vec<Bookmark>)
        requires
            old(self)@.wf(),
        ensures
            final(self)@.wf(),
            final(self)@ == (if old(self)@.mounts.contains_key(path@) {
                old(self)@.with_mount(
                    path@,
                    MountView {
                        last_exported_bookmarks: Some(bookmark_values(bookmarks@)),
                        ..old(self)@.mounts[path@]
                    },
                )
            } else {
                old(self)@
            }),
    {
        let ghost before = self@;
        match self.take_mount(path) {
            Some(m) => {
                let mut m = m;
                m.last_exported_bookmarks = Some(bookmarks);
                let ghost value = m@;
                self.put_mount(path, m);
                assert(self@.mounts =~= before.mounts.insert(path@, value));
            },
            None => {
                assert(self@.mounts =~= before.mounts);
            },
        }
    }
}

} // verus!
