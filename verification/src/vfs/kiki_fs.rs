//! The filesystem of one working copy.
//!
//! Reads walk the slab of inodes and the content store. The first write that
//! touches a path brings its content into memory; a snapshot writes everything
//! modified into the store and returns the id of the root tree.
//!
//! Two entries at the root lie outside the tree: the `.jj` directory, which is
//! pinned once it was made and survives a check-out, and the read-only `.git`
//! file, which points at the git directory. Neither is part of a snapshot.
use vstd::prelude::*;
use vstd::utf8::encode_utf8;
use crate::git_store::{
    file_at, link_at, names_fit, object_id, tree_at, tree_data, tree_id, tree_view, written,
    EntryView, GitContentStore, GitEntryKind, GitObjectKind, GitTreeEntry, Objects, StoreFault,
};
use crate::text::{concat3, copy_bytes, join_path, joined, same_str, text_in};
use crate::ty::Id;
use crate::vfs::inode::{InodeId, InodeSlab, InodeView, NodeRef, NodeView, SlabView, ROOT_INODE};
use crate::vfs::name_map::NameMap;
use crate::vfs::rules::{is_ignored_by, parse_redirections, redirection_paths, rules_ignore};
use crate::vfs::snapshot::{
    begin, complete, content_id, finished, grown, lemma_in_progress, lemma_stays_complete, node_id,
    only_content, settled,
    snapshot_node, walk,
};
use crate::vfs::tidy::{
    deep_below_nameless, keeps, keeps_listed, keeps_looked_up, keeps_moved, keeps_opened,
    keeps_refl, keeps_rerooted, keeps_settled, keeps_trans, keeps_with_child, keeps_with_inode,
    keeps_with_node, keeps_without_child, nameless, placed, root_nameless, tidy,
};
use crate::vfs::tree_ops::{
    attr_for, attr_result, can_drop, change_opened, droppable, ensure_dirty_file, entry_exists,
    file_changed, file_opened, file_written, has_entry, hidden_set, list_dir, listing, looked_up,
    lookup_entry, materialize_single_tree, move_entry, moved, opened, read_node, read_result,
    readlink_node, read_tree, readlink_result, remove_entry, removed, tree_result, write_opened,
};
use crate::vfs::types::{
    fault_view, listing_outcome, listing_view, outcome, read_outcome, text_outcome, Attr, DirEntry,
    DirEntryView, ErrView, FileKind, FsError,
};

verus! {

broadcast use vstd::string::group_string_axioms;

/// The value of a working copy, without its content store.
#[verifier::ext_equal]
pub struct KikiView {
    pub slab: SlabView,
    /// The pinned `.jj` directory, once there is one.
    pub jj_subtree: Option<InodeId>,
    /// The `.git` file.
    pub git_file: InodeId,
    /// The root `.gitignore` file.
    pub rules: Option<Seq<u8>>,
    /// Names of root directories that are redirected to scratch storage.
    pub redirections: Seq<Seq<char>>,
    pub scratch_dir: Option<Seq<char>>,
    pub commit_mtime: i64,
}

impl KikiView {
    /// The working copy with another slab.
    pub open spec fn with_slab(self, slab: SlabView) -> KikiView {
        KikiView { slab, ..self }
    }

    /// The working copy is in order.
    pub open spec fn wf(self) -> bool {
        &&& tidy(self.slab)
        &&& placed(self.slab)
        &&& self.slab.has(self.git_file)
        &&& self.git_file != ROOT_INODE
        &&& nameless(self.slab, self.git_file)
        &&& self.jj_subtree matches Some(jj) ==> {
            &&& self.slab.has(jj)
            &&& jj != ROOT_INODE
            &&& jj != self.git_file
            &&& nameless(self.slab, jj)
        }
    }

    /// `(parent, name)` is the place of the pinned `.jj` directory.
    pub open spec fn is_jj_root(self, parent: InodeId, name: Seq<char>) -> bool {
        parent == ROOT_INODE && name == ".jj"@
    }

    /// `(parent, name)` is the place of the `.git` file.
    pub open spec fn is_git_file(self, parent: InodeId, name: Seq<char>) -> bool {
        parent == ROOT_INODE && name == ".git"@
    }

    /// What a lookup does and gives.
    pub open spec fn lookup(self, objects: Objects, parent: InodeId, name: Seq<char>) -> (
        KikiView,
        Result<InodeId, ErrView>,
    ) {
        if self.is_git_file(parent, name) {
            (self, Ok(self.git_file))
        } else if self.is_jj_root(parent, name) && self.jj_subtree is Some {
            (self, Ok(self.jj_subtree->0))
        } else {
            let (slab, r) = looked_up(self.slab, objects, parent, name);
            (self.with_slab(slab), r)
        }
    }

    /// The names that the tree does not show in a listing of `dir`.
    pub open spec fn shadowed(self, dir: InodeId) -> Set<Seq<char>> {
        if dir != ROOT_INODE {
            Set::empty()
        } else if self.jj_subtree is Some {
            Set::empty().insert(".git"@).insert(".jj"@)
        } else {
            Set::empty().insert(".git"@)
        }
    }

    /// The entries of a listing of `dir` that lie outside the tree.
    pub open spec fn pinned_entries(self, dir: InodeId) -> Seq<DirEntryView> {
        let git = DirEntryView { inode: self.git_file, name: ".git"@, kind: FileKind::Regular };
        if dir != ROOT_INODE {
            seq![]
        } else {
            match self.jj_subtree {
                Some(jj) => seq![
                    DirEntryView { inode: jj, name: ".jj"@, kind: FileKind::Directory },
                    git,
                ],
                None => seq![git],
            }
        }
    }

    /// What listing a directory does and gives.
    pub open spec fn readdir(self, objects: Objects, dir: InodeId) -> (
        KikiView,
        Result<Seq<DirEntryView>, ErrView>,
    ) {
        let (slab, r) = listing(self.slab, objects, dir, self.shadowed(dir));
        (
            self.with_slab(slab),
            match r {
                Ok(entries) => Ok(entries + self.pinned_entries(dir)),
                Err(e) => Err(e),
            },
        )
    }

    /// Whether `(parent, name)` is taken.
    pub open spec fn child_exists(
        self,
        objects: Objects,
        parent: InodeId,
        name: Seq<char>,
    ) -> Result<bool, ErrView> {
        if self.is_jj_root(parent, name) && self.jj_subtree is Some {
            Ok(true)
        } else if self.is_git_file(parent, name) {
            Ok(true)
        } else {
            has_entry(self.slab, objects, parent, name)
        }
    }
}

/// Whether `target` is `probe` or one of the directories above it. The walk
/// up takes at most `steps` steps.
pub open spec fn lies_under(slab: SlabView, probe: InodeId, target: InodeId, steps: nat) -> Result<
    bool,
    ErrView,
>
    decreases steps,
{
    if probe == target {
        Ok(true)
    } else if !slab.has(probe) {
        Err(ErrView::NotFound)
    } else if slab.at(probe).parent == probe || steps == 0 {
        Ok(false)
    } else {
        lies_under(slab, slab.at(probe).parent, target, (steps - 1) as nat)
    }
}

/// The slab after the directories above `current` were opened for changes, up
/// to the first that is open already.
pub open spec fn opened_above(slab: SlabView, objects: Objects, current: InodeId, steps: nat) -> (
    SlabView,
    Result<(), ErrView>,
)
    decreases steps,
{
    if steps == 0 {
        (slab, Ok(()))
    } else if !slab.has(current) {
        (slab, Err(ErrView::NotFound))
    } else {
        let parent = slab.at(current).parent;
        if parent == current {
            (slab, Ok(()))
        } else if !slab.has(parent) {
            (slab, Err(ErrView::NotFound))
        } else if slab.node(parent) is DirtyTree {
            (slab, Ok(()))
        } else {
            let (up, r) = opened(slab, objects, parent);
            match r {
                Err(e) => (up, Err(e)),
                Ok(()) => opened_above(up, objects, parent, (steps - 1) as nat),
            }
        }
    }
}

/// The slab after a directory and everything above it was opened for changes.
pub open spec fn opened_upward(slab: SlabView, objects: Objects, dir: InodeId) -> (
    SlabView,
    Result<(), ErrView>,
) {
    let (first, r) = opened(slab, objects, dir);
    match r {
        Err(e) => (first, Err(e)),
        Ok(()) => opened_above(first, objects, dir, first.inodes.len()),
    }
}

/// Open a directory for changes, and the directories above it, so that a
/// snapshot finds the change.
pub(crate) fn open_upward(slab: &mut InodeSlab, store: &GitContentStore, dir: InodeId) -> (r: Result<
    (),
    FsError,
>)
    requires
        tidy(old(slab)@),
    ensures
        (final(slab)@, outcome(r)) == opened_upward(old(slab)@, store@, dir),
        keeps(old(slab)@, final(slab)@),
{
    let ghost before = slab@;
    let r = materialize_single_tree(slab, store, dir);
    let ghost first = slab@;
    proof {
        slab.lemma_ids_fit();
        keeps_opened(before, store@, dir);
    }
    if r.is_err() {
        return r;
    }
    let mut current: InodeId = dir;
    let mut steps: usize = slab.len();
    while steps > 0
        invariant
            keeps(before, slab@),
            before == old(slab)@,
            opened_above(slab@, store@, current, steps as nat) == opened_above(
                first,
                store@,
                dir,
                first.inodes.len(),
            ),
            opened_upward(before, store@, dir) == opened_above(
                first,
                store@,
                dir,
                first.inodes.len(),
            ),
        decreases steps,
    {
        let parent: InodeId = match slab.inode(current) {
            None => {
                return Err(FsError::NotFound);
            },
            Some(inode) => inode.parent,
        };
        if parent == current {
            return Ok(());
        }
        match slab.inode(parent) {
            None => {
                return Err(FsError::NotFound);
            },
            Some(inode) => {
                if matches!(inode.node, NodeRef::DirtyTree { .. }) {
                    return Ok(());
                }
            },
        }
        let ghost mid = slab@;
        let r = materialize_single_tree(slab, store, parent);
        proof {
            slab.lemma_ids_fit();
            keeps_opened(mid, store@, parent);
            keeps_trans(before, mid, slab@);
        }
        if r.is_err() {
            return r;
        }
        current = parent;
        steps = steps - 1;
    }
    Ok(())
}

impl KikiView {
    /// The slab after a directory and everything above it was opened for
    /// changes. Inside the pinned `.jj` directory only the directory itself is
    /// opened.
    pub open spec fn dirtied(self, objects: Objects, dir: InodeId) -> (
        SlabView,
        Result<(), ErrView>,
    ) {
        let inside = match self.jj_subtree {
            Some(jj) => lies_under(self.slab, dir, jj, self.slab.inodes.len()),
            None => Ok(false),
        };
        match inside {
            Err(e) => (self.slab, Err(e)),
            Ok(inside) => {
                let (slab, r) = opened(self.slab, objects, dir);
                match r {
                    Err(e) => (slab, Err(e)),
                    Ok(()) => if inside {
                        (slab, Ok(()))
                    } else {
                        opened_above(slab, objects, dir, slab.inodes.len())
                    },
                }
            },
        }
    }
}

/// The path of a new entry below the root: the names of the directories from
/// the root down to `current`, then `tail`, with slashes between.
pub open spec fn path_below_root(
    slab: SlabView,
    current: InodeId,
    tail: Seq<char>,
    steps: nat,
) -> Seq<char>
    decreases steps,
{
    if current == ROOT_INODE || !slab.has(current) || slab.at(current).parent == current || steps
        == 0 {
        tail
    } else {
        path_below_root(
            slab,
            slab.at(current).parent,
            slab.at(current).name + "/"@ + tail,
            (steps - 1) as nat,
        )
    }
}

impl KikiView {
    /// The path of `(parent, name)` below the root.
    pub open spec fn repo_path(self, parent: InodeId, name: Seq<char>) -> Seq<char> {
        path_below_root(self.slab, parent, name, self.slab.inodes.len())
    }

    /// A new entry at `(parent, name)` is ignored: its directory is, or the
    /// ignore rules match its path.
    pub open spec fn is_ignored(self, parent: InodeId, name: Seq<char>, is_dir: bool) -> bool {
        let path = self.repo_path(parent, name);
        ||| self.slab.has(parent) && self.slab.at(parent).ignored
        ||| path.len() > 0 && rules_ignore(
            self.rules,
            if is_dir {
                path + "/"@
            } else {
                path
            },
        )
    }

    /// A new directory at `(parent, name)` is redirected to scratch storage.
    pub open spec fn is_redirection(self, parent: InodeId, name: Seq<char>) -> bool {
        parent == ROOT_INODE && self.redirections.contains(name)
    }
}

// ---- what the changing requests do ------------------------------------------

/// The content of the first readable file of this name among the entries of a
/// tree.
pub open spec fn named_file(objects: Objects, entries: Seq<EntryView>, name: Seq<char>) -> Option<
    Seq<u8>,
>
    decreases entries.len(),
{
    if entries.len() == 0 {
        None
    } else {
        match named_file(objects, entries.drop_last(), name) {
            Some(content) => Some(content),
            None => {
                let e = entries.last();
                if e.name == name && e.kind is File {
                    match file_at(objects, e.id) {
                        Ok(Some(content)) => Some(content),
                        _ => None,
                    }
                } else {
                    None
                }
            },
        }
    }
}

/// The content of a file at the root of a tree, if it can be read.
pub open spec fn root_file(objects: Objects, tree: Id, name: Seq<char>) -> Option<Seq<u8>> {
    match tree_at(objects, tree) {
        Ok(Some(entries)) => named_file(objects, entries, name),
        _ => None,
    }
}

/// The redirections that a tree configures.
pub open spec fn tree_redirections(objects: Objects, tree: Id) -> Seq<Seq<char>> {
    match root_file(objects, tree, ".kiki-redirections"@) {
        Some(content) => redirection_paths(content),
        None => seq![],
    }
}

impl KikiView {
    /// A new working copy of a tree, with its `.git` file.
    pub open spec fn fresh(
        objects: Objects,
        root_tree: Id,
        gitdir: Seq<char>,
        scratch_dir: Option<Seq<char>>,
        commit_mtime: i64,
    ) -> KikiView {
        let root = InodeView {
            parent: ROOT_INODE,
            name: Seq::empty(),
            node: NodeView::Tree(root_tree),
            ignored: false,
        };
        let git = InodeView {
            parent: ROOT_INODE,
            name: ".git"@,
            node: NodeView::DirtyFile {
                content: encode_utf8("gitdir: "@ + gitdir + "\n"@),
                executable: false,
            },
            ignored: false,
        };
        KikiView {
            slab: SlabView { inodes: seq![root, git], by_parent: Map::empty() },
            jj_subtree: None,
            git_file: 2,
            rules: root_file(objects, root_tree, ".gitignore"@),
            redirections: tree_redirections(objects, root_tree),
            scratch_dir,
            commit_mtime,
        }
    }

    /// What checking out a tree does and gives.
    pub open spec fn check_out(self, objects: Objects, root_tree: Id, commit_mtime: i64) -> (
        KikiView,
        Result<(), ErrView>,
    ) {
        match tree_result(objects, root_tree) {
            Err(e) => (self, Err(e)),
            Ok(_) => (
                KikiView {
                    slab: self.slab.rerooted(root_tree),
                    rules: root_file(objects, root_tree, ".gitignore"@),
                    redirections: tree_redirections(objects, root_tree),
                    commit_mtime: if commit_mtime != 0 {
                        commit_mtime
                    } else {
                        self.commit_mtime
                    },
                    ..self
                },
                Ok(()),
            ),
        }
    }

    /// What attaching a new inode does and gives.
    pub open spec fn attach_new(
        self,
        objects: Objects,
        parent: InodeId,
        name: Seq<char>,
        node: NodeView,
        ignored: bool,
    ) -> (KikiView, Result<(InodeId, Attr), ErrView>) {
        let child = self.slab.next_id() as InodeId;
        let more = self.slab.with_inode(InodeView { parent, name, node, ignored });
        if !more.can_attach(parent, name) {
            (self.with_slab(more), Err(ErrView::AlreadyExists))
        } else {
            let slab = more.with_child(parent, name, child);
            (
                self.with_slab(slab),
                match attr_result(slab, objects, child, self.commit_mtime) {
                    Ok(attr) => Ok((child, attr)),
                    Err(e) => Err(e),
                },
            )
        }
    }

    /// What making a new entry does up to the point where its inode is made:
    /// the name must be free, and the directory is opened for changes.
    pub open spec fn make_room(self, objects: Objects, parent: InodeId, name: Seq<char>) -> (
        KikiView,
        Result<(), ErrView>,
    ) {
        match self.child_exists(objects, parent, name) {
            Err(e) => (self, Err(e)),
            Ok(true) => (self, Err(ErrView::AlreadyExists)),
            Ok(false) => {
                let (slab, r) = self.dirtied(objects, parent);
                (self.with_slab(slab), r)
            },
        }
    }

    /// What making a new entry does and gives.
    pub open spec fn add_entry(
        self,
        objects: Objects,
        parent: InodeId,
        name: Seq<char>,
        node: NodeView,
    ) -> (KikiView, Result<(InodeId, Attr), ErrView>) {
        let (v, r) = self.make_room(objects, parent, name);
        match r {
            Err(e) => (v, Err(e)),
            Ok(()) => v.attach_new(
                objects,
                parent,
                name,
                node,
                v.is_ignored(parent, name, node is DirtyTree),
            ),
        }
    }

    /// What making a directory does and gives. `fault` says why the scratch
    /// directory of a redirected one could not be made.
    pub open spec fn mkdir(
        self,
        objects: Objects,
        parent: InodeId,
        name: Seq<char>,
        fault: Option<Seq<char>>,
    ) -> (KikiView, Result<(InodeId, Attr), ErrView>) {
        let empty = NodeView::DirtyTree(Map::empty());
        if self.is_jj_root(parent, name) {
            if self.jj_subtree is Some {
                (self, Err(ErrView::AlreadyExists))
            } else if !self.slab.has(parent) {
                (self, Err(ErrView::NotFound))
            } else if !self.slab.node(parent).is_dir() {
                (self, Err(ErrView::NotADirectory))
            } else {
                let child = self.slab.next_id() as InodeId;
                let slab = self.slab.with_inode(
                    InodeView { parent, name, node: empty, ignored: false },
                );
                (
                    KikiView { slab, jj_subtree: Some(child), ..self },
                    match attr_result(slab, objects, child, self.commit_mtime) {
                        Ok(attr) => Ok((child, attr)),
                        Err(e) => Err(e),
                    },
                )
            }
        } else if self.is_redirection(parent, name) && self.scratch_dir is Some {
            let (v, r) = self.make_room(objects, parent, name);
            match r {
                Err(e) => (v, Err(e)),
                Ok(()) => match fault {
                    Some(why) => (v, Err(ErrView::StoreError("creating scratch dir: "@ + why))),
                    None => v.attach_new(
                        objects,
                        parent,
                        name,
                        NodeView::DirtySymlink(joined(self.scratch_dir->0, name)),
                        true,
                    ),
                },
            }
        } else {
            self.add_entry(objects, parent, name, empty)
        }
    }

    /// The scratch directory that a new directory is redirected to.
    pub open spec fn redirect_target(
        self,
        objects: Objects,
        parent: InodeId,
        name: Seq<char>,
    ) -> Option<Seq<char>> {
        if !self.is_jj_root(parent, name) && self.is_redirection(parent, name)
            && self.scratch_dir is Some && self.child_exists(objects, parent, name) == Ok::<
            bool,
            ErrView,
        >(false) {
            Some(joined(self.scratch_dir->0, name))
        } else {
            None
        }
    }

    /// The working copy after the rule file of this name got new content.
    pub open spec fn reloaded(self, name: Seq<char>, content: Seq<u8>) -> KikiView {
        if name == ".gitignore"@ {
            KikiView { rules: Some(content), ..self }
        } else if name == ".kiki-redirections"@ {
            KikiView { redirections: redirection_paths(content), ..self }
        } else {
            self
        }
    }

    /// What opening a file and the directories above it for changes does.
    pub open spec fn file_dirtied(self, objects: Objects, ino: InodeId) -> (
        KikiView,
        Result<(), ErrView>,
    ) {
        let (slab, r) = file_opened(self.slab, objects, ino);
        let v = self.with_slab(slab);
        match r {
            Err(e) => (v, Err(e)),
            Ok(()) => {
                let (up, r) = v.dirtied(objects, slab.at(ino).parent);
                (v.with_slab(up), r)
            },
        }
    }

    /// What a write does and gives.
    pub open spec fn write(self, objects: Objects, ino: InodeId, offset: u64, data: Seq<u8>) -> (
        KikiView,
        Result<u32, ErrView>,
    ) {
        if ino == self.git_file {
            (self, Err(ErrView::StoreError("read-only synthesized .git file"@)))
        } else {
            let (v, r) = self.file_dirtied(objects, ino);
            match r {
                Err(e) => (v, Err(e)),
                Ok(()) => if !(v.slab.node(ino) is DirtyFile) {
                    (v, Err(ErrView::NotAFile))
                } else {
                    let slab = file_written(v.slab, ino, offset, data);
                    (
                        v.with_slab(slab).reloaded(
                            slab.at(ino).name,
                            slab.node(ino)->DirtyFile_content,
                        ),
                        Ok(data.len() as u32),
                    )
                },
            }
        }
    }

    /// What changing a file's length or mode does and gives.
    pub open spec fn setattr(
        self,
        objects: Objects,
        ino: InodeId,
        size: Option<u64>,
        executable: Option<bool>,
    ) -> (KikiView, Result<Attr, ErrView>) {
        if ino == self.git_file {
            (self, Err(ErrView::StoreError("read-only synthesized .git file"@)))
        } else if size is None && executable is None {
            (self, attr_result(self.slab, objects, ino, self.commit_mtime))
        } else {
            let (v, r) = self.file_dirtied(objects, ino);
            match r {
                Err(e) => (v, Err(e)),
                Ok(()) => if !(v.slab.node(ino) is DirtyFile) {
                    (v, Err(ErrView::NotAFile))
                } else {
                    let slab = file_changed(v.slab, ino, size, executable);
                    (
                        v.with_slab(slab),
                        attr_result(slab, objects, ino, self.commit_mtime),
                    )
                },
            }
        }
    }

    /// What removing an entry of the tree does and gives.
    pub open spec fn remove_from_slab(self, objects: Objects, parent: InodeId, name: Seq<char>) -> (
        KikiView,
        Result<(), ErrView>,
    ) {
        let (slab, r) = self.dirtied(objects, parent);
        match r {
            Err(e) => (self.with_slab(slab), Err(e)),
            Ok(()) => {
                let (rest, r) = removed(slab, objects, parent, name);
                (self.with_slab(rest), r)
            },
        }
    }

    /// What removing an entry does and gives.
    pub open spec fn remove(self, objects: Objects, parent: InodeId, name: Seq<char>) -> (
        KikiView,
        Result<(), ErrView>,
    ) {
        if self.is_git_file(parent, name) {
            (self, Err(ErrView::StoreError("cannot remove synthesized .git file"@)))
        } else if self.is_jj_root(parent, name) && self.jj_subtree is Some {
            let jj = self.jj_subtree->0;
            if !self.slab.has(jj) {
                (self, Err(ErrView::NotFound))
            } else if !self.slab.node(jj).is_dir() {
                (self, Err(ErrView::NotADirectory))
            } else {
                match droppable(self.slab, objects, jj) {
                    Err(e) => (self, Err(e)),
                    Ok(false) => (self, Err(ErrView::NotEmpty)),
                    Ok(true) => (KikiView { jj_subtree: None, ..self }, Ok(())),
                }
            }
        } else {
            self.remove_from_slab(objects, parent, name)
        }
    }

    /// What moving an entry does and gives.
    pub open spec fn rename(
        self,
        objects: Objects,
        parent: InodeId,
        name: Seq<char>,
        new_parent: InodeId,
        new_name: Seq<char>,
    ) -> (KikiView, Result<(), ErrView>) {
        if self.is_jj_root(parent, name) || self.is_jj_root(new_parent, new_name)
            || self.is_git_file(parent, name) || self.is_git_file(new_parent, new_name) {
            (self, Err(ErrView::AlreadyExists))
        } else {
            let (slab, r) = self.dirtied(objects, parent);
            let v = self.with_slab(slab);
            match r {
                Err(e) => (v, Err(e)),
                Ok(()) => {
                    let (slab, r) = if new_parent != parent {
                        v.dirtied(objects, new_parent)
                    } else {
                        (slab, Ok(()))
                    };
                    match r {
                        Err(e) => (v.with_slab(slab), Err(e)),
                        Ok(()) => {
                            let (slab, r) = moved(slab, objects, parent, name, new_parent, new_name);
                            match r {
                                Err(e) => (v.with_slab(slab), Err(e)),
                                Ok(None) => (v.with_slab(slab), Ok(())),
                                Ok(Some(child)) => (
                                    v.with_slab(slab.reparented(child, new_parent, new_name)),
                                    Ok(()),
                                ),
                            }
                        },
                    }
                },
            }
        }
    }
}

/// The names at the root that are no part of a snapshot.
pub open spec fn outside_tree() -> Set<Seq<char>> {
    Set::empty().insert(".jj"@).insert(".git"@)
}

impl KikiView {
    /// The id that a snapshot gives: that of everything below the root. The
    /// pinned `.jj` directory is stored along with it.
    pub open spec fn snapshot_id(self) -> Result<Id, StoreFault> {
        let n = self.slab.inodes.len();
        match content_id(self.slab, outside_tree(), ROOT_INODE, n) {
            Err(fault) => Err(fault),
            Ok(id) => match self.jj_subtree {
                None => Ok(id),
                Some(jj) => match content_id(self.slab, outside_tree(), jj, n) {
                    Err(fault) => Err(fault),
                    Ok(_) => Ok(id),
                },
            },
        }
    }
}

/// A snapshot reaches the inode `j`: it lies below the root or below the pinned
/// `.jj` directory, and nothing on the way is left out.
pub open spec fn reached(v: KikiView, j: InodeId) -> bool {
    exists|path: Seq<Seq<char>>|
        #![trigger walk(v.slab, outside_tree(), ROOT_INODE, path)]
        walk(v.slab, outside_tree(), ROOT_INODE, path) == Some(j) || (v.jj_subtree matches Some(jj)
            && walk(v.slab, outside_tree(), jj, path) == Some(j))
}

/// Every inode that changed was reached.
pub open spec fn only_reached(before: KikiView, after: KikiView) -> bool {
    forall|j: InodeId|
        before.slab.has(j) && #[trigger] after.slab.at(j) != before.slab.at(j) ==> reached(before, j)
}

/// What a snapshot does and gives. The content of every modified inode that it
/// covers is stored. What is covered as a whole is cleaned, under the id of its
/// content; a directory with an entry that is left out keeps its entries, and
/// nothing else changes. A snapshot that fails may have cleaned some inodes.
pub open spec fn snapshotted(
    before: KikiView,
    stored: Objects,
    after: KikiView,
    now_stored: Objects,
    r: Result<Id, ErrView>,
) -> bool {
    &&& after == before.with_slab(after.slab)
    &&& settled(before.slab, outside_tree(), after.slab)
    &&& only_reached(before, after)
    &&& finished(before.slab, outside_tree(), after.slab, now_stored)
    &&& grown(stored, now_stored)
    &&& only_content(before.slab, outside_tree(), stored, now_stored)
    &&& match before.snapshot_id() {
        Ok(id) => {
            let n = before.slab.inodes.len();
            &&& r == Ok::<Id, ErrView>(id)
            &&& complete(before.slab, outside_tree(), after.slab, now_stored, ROOT_INODE, n)
            &&& before.jj_subtree matches Some(jj) ==> complete(
                before.slab,
                outside_tree(),
                after.slab,
                now_stored,
                jj,
                n,
            )
        },
        Err(fault) => r == Err::<Id, ErrView>(fault_view(fault)),
    }
}

/// The state of one working copy. Its content store is passed to each request.
#[derive(Debug)]
pub struct KikiState {
    slab: InodeSlab,
    jj_subtree: Option<InodeId>,
    git_file: InodeId,
    rules: Option<Vec<u8>>,
    redirections: Vec<String>,
    scratch_dir: Option<String>,
    commit_mtime: i64,
}

impl View for KikiState {
    type V = KikiView;

    closed spec fn view(&self) -> KikiView {
        KikiView {
            slab: self.slab@,
            jj_subtree: self.jj_subtree,
            git_file: self.git_file,
            rules: match self.rules {
                Some(file) => Some(file@),
                None => None,
            },
            redirections: self.redirections@.map_values(|s: String| s@),
            scratch_dir: text_in(self.scratch_dir),
            commit_mtime: self.commit_mtime,
        }
    }
}

/// A working copy stays in order with a slab that was kept in order.
pub proof fn wf_kept(v: KikiView, slab: SlabView)
    requires
        v.wf(),
        keeps(v.slab, slab),
    ensures
        v.with_slab(slab).wf(),
{
    assert(nameless(v.slab, v.git_file));
    assert(nameless(slab, v.git_file));
    if let Some(jj) = v.jj_subtree {
        assert(nameless(v.slab, jj));
        assert(nameless(slab, jj));
    }
}

impl KikiState {
    /// Read a file at the root of a tree, if there is a readable one.
    fn load_root_file(store: &GitContentStore, tree: &Id, name: &str) -> (r: Option<Vec<u8>>)
        ensures
            match r {
                Some(content) => root_file(store@, *tree, name@) == Some(content@),
                None => root_file(store@, *tree, name@) is None,
            },
    {
        let entries = match store.read_tree(tree) {
            Ok(Some(entries)) => entries,
            _ => {
                return None;
            },
        };
        let ghost all = tree_view(entries@);
        let mut i: usize = 0;
        while i < entries.len()
            invariant
                i <= entries@.len(),
                all == tree_view(entries@),
                tree_at(store@, *tree) == Ok::<_, crate::git_store::StoreFault>(Some(all)),
                named_file(store@, all.take(i as int), name@) is None,
            decreases entries@.len() - i,
        {
            let e: &GitTreeEntry = &entries[i];
            proof {
                assert(all.take(i + 1).drop_last() =~= all.take(i as int));
                assert(all.take(i + 1).last() == e@);
            }
            let is_file = match e.kind {
                GitEntryKind::File { .. } => true,
                _ => false,
            };
            if same_str(e.name.as_str(), name) && is_file {
                match store.read_file(&e.id) {
                    Ok(Some(content)) => {
                        proof {
                            lemma_named_file_prefix(store@, all, i + 1, name@);
                        }
                        return Some(content);
                    },
                    _ => {},
                }
            }
            i = i + 1;
        }
        assert(all.take(i as int) =~= all);
        None
    }

    /// Read the redirections that a tree configures.
    fn load_redirections(store: &GitContentStore, tree: &Id) -> (r: Vec<String>)
        ensures
            r@.map_values(|s: String| s@) == tree_redirections(store@, *tree),
    {
        match Self::load_root_file(store, tree, ".kiki-redirections") {
            Some(content) => parse_redirections(content.as_slice()),
            None => {
                let none: Vec<String> = Vec::new();
                assert(none@.map_values(|s: String| s@) =~= seq![]);
                none
            },
        }
    }

    /// Make a working copy of a tree. `gitdir` is what its `.git` file points
    /// at, and `scratch_dir` where redirected directories go.
    pub fn new(
        store: &GitContentStore,
        root_tree: Id,
        scratch_dir: Option<String>,
        gitdir: &str,
        commit_mtime_secs: i64,
    ) -> (s: KikiState)
        ensures
            s@ == KikiView::fresh(
                store@,
                root_tree,
                gitdir@,
                text_in(scratch_dir),
                commit_mtime_secs,
            ),
            s@.wf(),
    {
        let ghost fresh = KikiView::fresh(
            store@,
            root_tree,
            gitdir@,
            text_in(scratch_dir),
            commit_mtime_secs,
        );
        let mut slab = InodeSlab::new(root_tree);
        let text = concat3("gitdir: ", gitdir, "\n");
        let content = copy_bytes(text.as_str().as_bytes());
        let ghost before = slab@;
        let git_file = slab.alloc_inode(
            ROOT_INODE,
            ".git".to_owned(),
            NodeRef::DirtyFile { content, executable: false },
        );
        proof {
            assert(before.has(ROOT_INODE));
            assert(tidy(before));
            keeps_with_inode(
                before,
                InodeView {
                    parent: ROOT_INODE,
                    name: ".git"@,
                    node: NodeView::DirtyFile { content: content@, executable: false },
                    ignored: false,
                },
            );
        }
        let rules = Self::load_root_file(store, &root_tree, ".gitignore");
        let redirections = Self::load_redirections(store, &root_tree);
        let s = KikiState {
            slab,
            jj_subtree: None,
            git_file,
            rules,
            redirections,
            scratch_dir,
            commit_mtime: commit_mtime_secs,
        };
        proof {
            assert(s@.slab.inodes =~= fresh.slab.inodes);
            assert(s@.slab.by_parent =~= fresh.slab.by_parent);
            assert(s@ == fresh);
        }
        s
    }

    /// `(parent, name)` is the place of the pinned `.jj` directory.
    fn is_jj_root(&self, parent: InodeId, name: &str) -> (r: bool)
        ensures
            r == self@.is_jj_root(parent, name@),
    {
        parent == ROOT_INODE && same_str(name, ".jj")
    }

    /// `(parent, name)` is the place of the `.git` file.
    fn is_git_file(&self, parent: InodeId, name: &str) -> (r: bool)
        ensures
            r == self@.is_git_file(parent, name@),
    {
        parent == ROOT_INODE && same_str(name, ".git")
    }

    /// Find an entry by name.
    pub fn lookup(&mut self, store: &GitContentStore, parent: InodeId, name: &str) -> (r: Result<
        InodeId,
        FsError,
    >)
        requires
            old(self)@.wf(),
        ensures
            (final(self)@, outcome(r)) == old(self)@.lookup(store@, parent, name@),
            final(self)@.wf(),
    {
        if self.is_git_file(parent, name) {
            return Ok(self.git_file);
        }
        if self.is_jj_root(parent, name) {
            if let Some(jj) = self.jj_subtree {
                return Ok(jj);
            }
        }
        let ghost before = self@;
        let r = lookup_entry(&mut self.slab, store, parent, name);
        proof {
            self.slab.lemma_ids_fit();
            keeps_looked_up(before.slab, store@, parent, name@);
            wf_kept(before, self.slab@);
            assert(self@ == before.with_slab(self.slab@));
        }
        r
    }

    /// The attributes of an inode.
    pub fn getattr(&self, store: &GitContentStore, ino: InodeId) -> (r: Result<Attr, FsError>)
        ensures
            outcome(r) == attr_result(self@.slab, store@, ino, self@.commit_mtime),
    {
        attr_for(&self.slab, store, ino, self.commit_mtime)
    }

    /// Read up to `count` bytes from `offset` on; the flag says whether the
    /// read reached the end of the file.
    pub fn read(
        &self,
        store: &GitContentStore,
        ino: InodeId,
        offset: u64,
        count: u32,
    ) -> (r: Result<
        (Vec<u8>, bool),
        FsError,
    >)
        ensures
            (match r {
                Ok((data, eof)) => Ok((data@, eof)),
                Err(e) => Err(e@),
            }) == read_result(self@.slab, store@, ino, offset, count),
    {
        read_node(&self.slab, store, ino, offset, count)
    }

    /// Read a symlink.
    pub fn readlink(&self, store: &GitContentStore, ino: InodeId) -> (r: Result<String, FsError>)
        ensures
            (match r {
                Ok(target) => Ok(target@),
                Err(e) => Err(e@),
            }) == readlink_result(self@.slab, store@, ino),
    {
        readlink_node(&self.slab, store, ino)
    }

    /// List a directory.
    pub fn readdir(&mut self, store: &GitContentStore, dir: InodeId) -> (r: Result<
        Vec<DirEntry>,
        FsError,
    >)
        requires
            old(self)@.wf(),
        ensures
            (
                final(self)@,
                match r {
                    Ok(out) => Ok(listing_view(out@)),
                    Err(e) => Err(e@),
                },
            ) == old(self)@.readdir(store@, dir),
            final(self)@.wf(),
    {
        let ghost before = self@;
        let mut hidden: Vec<&str> = Vec::new();
        let mut pinned: Vec<DirEntry> = Vec::new();
        if dir == ROOT_INODE {
            hidden.push(".git");
            if let Some(jj) = self.jj_subtree {
                hidden.push(".jj");
                pinned.push(
                    DirEntry { inode: jj, name: ".jj".to_owned(), kind: FileKind::Directory },
                );
            }
            pinned.push(
                DirEntry {
                    inode: self.git_file,
                    name: ".git".to_owned(),
                    kind: FileKind::Regular,
                },
            );
        }
        proof {
            lemma_hidden_set(hidden@);
            assert(hidden_set(hidden@) =~= before.shadowed(dir));
            assert(listing_view(pinned@) =~= before.pinned_entries(dir));
        }
        let r = list_dir(&mut self.slab, store, dir, &hidden);
        proof {
            self.slab.lemma_ids_fit();
            keeps_refl(before.slab);
            if before.slab.has(dir) {
                if let NodeView::Tree(id) = before.slab.node(dir) {
                    if let Ok(entries) = tree_result(store@, id) {
                        keeps_listed(before.slab, dir, entries, before.shadowed(dir));
                    }
                }
            }
            wf_kept(before, self.slab@);
            assert(self@ == before.with_slab(self.slab@));
        }
        match r {
            Ok(mut out) => {
                let ghost shown = out@;
                let ghost extra = pinned@;
                out.append(&mut pinned);
                assert(listing_view(out@) =~= listing_view(shown) + listing_view(extra));
                Ok(out)
            },
            Err(e) => Err(e),
        }
    }
}

impl KikiState {
    /// Whether `dir` is the pinned `.jj` directory or lies below it.
    fn inside_jj(&self, dir: InodeId, jj: InodeId) -> (r: Result<bool, FsError>)
        ensures
            outcome(r) == lies_under(self@.slab, dir, jj, self@.slab.inodes.len()),
    {
        let mut probe: InodeId = dir;
        let mut steps: usize = self.slab.len();
        loop
            invariant
                lies_under(self@.slab, probe, jj, steps as nat) == lies_under(
                    self@.slab,
                    dir,
                    jj,
                    self@.slab.inodes.len(),
                ),
            decreases steps,
        {
            if probe == jj {
                return Ok(true);
            }
            match self.slab.inode(probe) {
                None => {
                    return Err(FsError::NotFound);
                },
                Some(inode) => {
                    if inode.parent == probe || steps == 0 {
                        return Ok(false);
                    }
                    probe = inode.parent;
                },
            }
            steps = steps - 1;
        }
    }

    /// Open a directory for changes, and the directories above it, so that a
    /// snapshot finds the change. Inside the pinned `.jj` directory nothing
    /// above is opened.
    fn ensure_dirty_tree(&mut self, store: &GitContentStore, dir: InodeId) -> (r: Result<
        (),
        FsError,
    >)
        requires
            old(self)@.wf(),
        ensures
            outcome(r) == old(self)@.dirtied(store@, dir).1,
            final(self)@ == old(self)@.with_slab(old(self)@.dirtied(store@, dir).0),
            keeps(old(self)@.slab, final(self)@.slab),
            final(self)@.wf(),
    {
        let ghost before = self@;
        proof {
            keeps_refl(before.slab);
            assert(before.with_slab(before.slab) == before);
        }
        let inside = match self.jj_subtree {
            Some(jj) => match self.inside_jj(dir, jj) {
                Ok(inside) => inside,
                Err(e) => {
                    return Err(e);
                },
            },
            None => false,
        };
        let r = if inside {
            let r = materialize_single_tree(&mut self.slab, store, dir);
            proof {
                self.slab.lemma_ids_fit();
                keeps_opened(before.slab, store@, dir);
            }
            r
        } else {
            open_upward(&mut self.slab, store, dir)
        };
        proof {
            wf_kept(before, self.slab@);
            assert(self@ == before.with_slab(self.slab@));
        }
        r
    }

    /// The path of a new entry below the root.
    fn repo_path(&self, parent: InodeId, name: &str) -> (path: String)
        ensures
            path@ == self@.repo_path(parent, name@),
    {
        let mut tail = name.to_owned();
        let mut current: InodeId = parent;
        let mut steps: usize = self.slab.len();
        while current != ROOT_INODE && steps > 0
            invariant
                path_below_root(self@.slab, current, tail@, steps as nat) == self@.repo_path(
                    parent,
                    name@,
                ),
            decreases steps,
        {
            match self.slab.inode(current) {
                None => {
                    return tail;
                },
                Some(inode) => {
                    if inode.parent == current {
                        return tail;
                    }
                    tail = concat3(inode.name.as_str(), "/", tail.as_str());
                    current = inode.parent;
                },
            }
            steps = steps - 1;
        }
        tail
    }

    /// Whether a new entry is left out of snapshots.
    fn is_ignored(&self, parent: InodeId, name: &str, is_dir: bool) -> (r: bool)
        ensures
            r == self@.is_ignored(parent, name@, is_dir),
    {
        if let Some(inode) = self.slab.inode(parent) {
            if inode.ignored {
                return true;
            }
        }
        let path = self.repo_path(parent, name);
        if path.as_str().unicode_len() == 0 {
            return false;
        }
        if is_dir {
            let with_slash = concat3(path.as_str(), "/", "");
            proof {
                reveal_strlit("");
                assert(with_slash@ =~= path@ + "/"@);
            }
            is_ignored_by(&self.rules, with_slash.as_str())
        } else {
            is_ignored_by(&self.rules, path.as_str())
        }
    }

    /// Whether a new directory goes to scratch storage.
    fn is_redirection(&self, parent: InodeId, name: &str) -> (r: bool)
        ensures
            r == self@.is_redirection(parent, name@),
    {
        if parent != ROOT_INODE {
            return false;
        }
        let ghost names = self@.redirections;
        let mut i: usize = 0;
        while i < self.redirections.len()
            invariant
                i <= self.redirections@.len(),
                names == self.redirections@.map_values(|s: String| s@),
                names == self@.redirections,
                parent == ROOT_INODE,
                forall|j: int| 0 <= j < i ==> names[j] != name@,
            decreases self.redirections@.len() - i,
        {
            if same_str(self.redirections[i].as_str(), name) {
                assert(names[i as int] == name@);
                return true;
            }
            i = i + 1;
        }
        false
    }

    /// Whether a name is taken.
    fn child_exists(&self, store: &GitContentStore, parent: InodeId, name: &str) -> (r: Result<
        bool,
        FsError,
    >)
        ensures
            outcome(r) == self@.child_exists(store@, parent, name@),
    {
        if self.is_jj_root(parent, name) && self.jj_subtree.is_some() {
            return Ok(true);
        }
        if self.is_git_file(parent, name) {
            return Ok(true);
        }
        entry_exists(&self.slab, store, parent, name)
    }

    /// Make sure that a name is free, and open its directory for changes.
    fn make_room(&mut self, store: &GitContentStore, parent: InodeId, name: &str) -> (r: Result<
        (),
        FsError,
    >)
        requires
            old(self)@.wf(),
        ensures
            (final(self)@, outcome(r)) == old(self)@.make_room(store@, parent, name@),
            final(self)@.wf(),
    {
        match self.child_exists(store, parent, name) {
            Err(e) => Err(e),
            Ok(true) => Err(FsError::AlreadyExists),
            Ok(false) => self.ensure_dirty_tree(store, parent),
        }
    }

    /// Attach a new inode.
    fn attach_new(
        &mut self,
        store: &GitContentStore,
        parent: InodeId,
        name: &str,
        node: NodeRef,
        ignored: bool,
    ) -> (r: Result<(InodeId, Attr), FsError>)
        requires
            old(self)@.wf(),
            crate::vfs::tidy::childless(node@),
        ensures
            (final(self)@, outcome(r)) == old(self)@.attach_new(
                store@,
                parent,
                name@,
                node@,
                ignored,
            ),
            final(self)@.wf(),
    {
        let ghost before = self@;
        let ghost inode = InodeView { parent, name: name@, node: node@, ignored };
        let child: InodeId = self.slab.alloc_with_ignored(parent, name.to_owned(), node, ignored);
        let ghost more = self.slab@;
        proof {
            self.slab.lemma_ids_fit();
            keeps_with_inode(before.slab, inode);
            wf_kept(before, more);
            assert(self@ == before.with_slab(more));
        }
        if !self.slab.attach_child(parent, name.to_owned(), child) {
            return Err(FsError::AlreadyExists);
        }
        proof {
            let after = self.slab@;
            keeps_with_child(more, parent, name@, child);
            assert(nameless(more, before.git_file));
            assert(nameless(after, before.git_file));
            if let Some(jj) = before.jj_subtree {
                assert(nameless(more, jj));
                assert(nameless(after, jj));
            }
            assert(self@ == before.with_slab(after));
            assert(more.at(child) == inode);
        }
        match attr_for(&self.slab, store, child, self.commit_mtime) {
            Ok(attr) => Ok((child, attr)),
            Err(e) => Err(e),
        }
    }

    /// Make a new entry.
    fn add_entry(
        &mut self,
        store: &GitContentStore,
        parent: InodeId,
        name: &str,
        node: NodeRef,
    ) -> (r: Result<(InodeId, Attr), FsError>)
        requires
            old(self)@.wf(),
            crate::vfs::tidy::childless(node@),
        ensures
            (final(self)@, outcome(r)) == old(self)@.add_entry(store@, parent, name@, node@),
            final(self)@.wf(),
    {
        match self.make_room(store, parent, name) {
            Err(e) => Err(e),
            Ok(()) => {
                let is_dir = matches!(node, NodeRef::DirtyTree { .. });
                let ignored = self.is_ignored(parent, name, is_dir);
                self.attach_new(store, parent, name, node, ignored)
            },
        }
    }

    /// Create an empty file.
    pub fn create_file(
        &mut self,
        store: &GitContentStore,
        parent: InodeId,
        name: &str,
        executable: bool,
    ) -> (r: Result<(InodeId, Attr), FsError>)
        requires
            old(self)@.wf(),
        ensures
            (final(self)@, outcome(r)) == old(self)@.add_entry(
                store@,
                parent,
                name@,
                NodeView::DirtyFile { content: seq![], executable },
            ),
            final(self)@.wf(),
    {
        let content: Vec<u8> = Vec::new();
        assert(content@ =~= seq![]);
        self.add_entry(store, parent, name, NodeRef::DirtyFile { content, executable })
    }

    /// Create a symlink.
    pub fn symlink(
        &mut self,
        store: &GitContentStore,
        parent: InodeId,
        name: &str,
        target: &str,
    ) -> (r:
        Result<(InodeId, Attr), FsError>)
        requires
            old(self)@.wf(),
        ensures
            (final(self)@, outcome(r)) == old(self)@.add_entry(
                store@,
                parent,
                name@,
                NodeView::DirtySymlink(target@),
            ),
            final(self)@.wf(),
    {
        self.add_entry(store, parent, name, NodeRef::DirtySymlink { target: target.to_owned() })
    }
}

impl KikiState {
    /// The scratch directory that has to exist before [`Self::mkdir`] makes a
    /// redirected directory.
    pub fn redirect_target(
        &self,
        store: &GitContentStore,
        parent: InodeId,
        name: &str,
    ) -> (r: Option<
        String,
    >)
        ensures
            text_in(r) == self@.redirect_target(store@, parent, name@),
    {
        if self.is_jj_root(parent, name) || !self.is_redirection(parent, name) {
            return None;
        }
        match &self.scratch_dir {
            None => None,
            Some(dir) => match self.child_exists(store, parent, name) {
                Ok(false) => Some(join_path(dir.as_str(), name)),
                _ => None,
            },
        }
    }

    /// Pin the `.jj` directory.
    fn pin_jj(&mut self, store: &GitContentStore, parent: InodeId, name: &str) -> (r: Result<
        (InodeId, Attr),
        FsError,
    >)
        requires
            old(self)@.wf(),
            old(self)@.is_jj_root(parent, name@),
        ensures
            forall|fault: Option<Seq<char>>|
                (final(self)@, outcome(r)) == #[trigger] old(self)@.mkdir(
                    store@,
                    parent,
                    name@,
                    fault,
                ),
            final(self)@.wf(),
    {
        let ghost before = self@;
        if self.jj_subtree.is_some() {
            return Err(FsError::AlreadyExists);
        }
        match self.slab.inode(parent) {
            None => {
                return Err(FsError::NotFound);
            },
            Some(inode) => {
                if !inode.node.is_dir() {
                    return Err(FsError::NotADirectory);
                }
            },
        }
        let children: NameMap<u64> = NameMap::new();
        let ghost inode = InodeView {
            parent,
            name: name@,
            node: NodeView::DirtyTree(Map::empty()),
            ignored: false,
        };
        let child: InodeId = self.slab.alloc_inode(
            parent,
            name.to_owned(),
            NodeRef::DirtyTree { children },
        );
        proof {
            self.slab.lemma_ids_fit();
            assert(self.slab@ == before.slab.with_inode(inode));
            keeps_with_inode(before.slab, inode);
            wf_kept(before, self.slab@);
        }
        self.jj_subtree = Some(child);
        assert(self@ == (KikiView {
            slab: before.slab.with_inode(inode),
            jj_subtree: Some(child),
            ..before
        }));
        match attr_for(&self.slab, store, child, self.commit_mtime) {
            Ok(attr) => Ok((child, attr)),
            Err(e) => Err(e),
        }
    }

    /// Create a directory. At the root, `.jj` is pinned outside the tree, and a
    /// redirected name becomes a symlink to its scratch directory;
    /// `scratch_fault` says why that directory could not be made.
    pub fn mkdir(
        &mut self,
        store: &GitContentStore,
        parent: InodeId,
        name: &str,
        scratch_fault: Option<String>,
    ) -> (r: Result<(InodeId, Attr), FsError>)
        requires
            old(self)@.wf(),
        ensures
            (final(self)@, outcome(r)) == old(self)@.mkdir(
                store@,
                parent,
                name@,
                text_in(scratch_fault),
            ),
            final(self)@.wf(),
    {
        if self.is_jj_root(parent, name) {
            return self.pin_jj(store, parent, name);
        }
        if self.is_redirection(parent, name) {
            let target = match &self.scratch_dir {
                None => None,
                Some(dir) => Some(join_path(dir.as_str(), name)),
            };
            if let Some(target) = target {
                return match self.make_room(store, parent, name) {
                    Err(e) => Err(e),
                    Ok(()) => match scratch_fault {
                        Some(why) => {
                            let text = concat3("creating scratch dir: ", why.as_str(), "");
                            proof {
                                reveal_strlit("");
                                assert(text@ =~= "creating scratch dir: "@ + why@);
                            }
                            Err(FsError::StoreError(text))
                        },
                        None => self.attach_new(
                            store,
                            parent,
                            name,
                            NodeRef::DirtySymlink { target },
                            true,
                        ),
                    },
                };
            }
        }
        let children: NameMap<u64> = NameMap::new();
        self.add_entry(store, parent, name, NodeRef::DirtyTree { children })
    }

    /// Open a file and the directories above it for changes.
    fn ensure_dirty_file(&mut self, store: &GitContentStore, ino: InodeId) -> (r: Result<
        (),
        FsError,
    >)
        requires
            old(self)@.wf(),
        ensures
            (final(self)@, outcome(r)) == old(self)@.file_dirtied(store@, ino),
            final(self)@.wf(),
            r is Ok ==> final(self)@.slab.has(ino),
    {
        let ghost before = self@;
        let r = ensure_dirty_file(&mut self.slab, store, ino);
        proof {
            keeps_refl(before.slab);
            if before.slab.has(ino) {
                if let NodeView::File { id, executable } = before.slab.node(ino) {
                    if self.slab@ != before.slab {
                        keeps_with_node(before.slab, ino, self.slab@.node(ino));
                    }
                }
            }
            wf_kept(before, self.slab@);
            assert(self@ == before.with_slab(self.slab@));
        }
        if r.is_err() {
            return r;
        }
        match self.slab.inode(ino) {
            None => Err(FsError::NotFound),
            Some(inode) => {
                let parent: InodeId = inode.parent;
                self.ensure_dirty_tree(store, parent)
            },
        }
    }

    /// Take over the content of a rule file.
    fn reload_rules(&mut self, name: &str, content: &[u8])
        ensures
            final(self)@ == old(self)@.reloaded(name@, content@),
    {
        if same_str(name, ".gitignore") {
            self.rules = Some(copy_bytes(content));
        } else if same_str(name, ".kiki-redirections") {
            self.redirections = parse_redirections(content);
        }
    }

    /// Write into a file. Returns the number of bytes written.
    pub fn write(&mut self, store: &GitContentStore, ino: InodeId, offset: u64, data: &[u8]) -> (r:
        Result<u32, FsError>)
        requires
            old(self)@.wf(),
            offset + data@.len() <= usize::MAX,
        ensures
            (final(self)@, outcome(r)) == old(self)@.write(store@, ino, offset, data@),
            final(self)@.wf(),
    {
        if ino == self.git_file {
            return Err(FsError::StoreError("read-only synthesized .git file".to_owned()));
        }
        match self.ensure_dirty_file(store, ino) {
            Err(e) => {
                return Err(e);
            },
            Ok(()) => {},
        }
        let ghost v = self@;
        let open = match self.slab.inode(ino) {
            None => false,
            Some(inode) => matches!(inode.node, NodeRef::DirtyFile { .. }),
        };
        if !open {
            return Err(FsError::NotAFile);
        }
        write_opened(&mut self.slab, ino, offset as usize, data);
        proof {
            keeps_with_node(v.slab, ino, self.slab@.node(ino));
            wf_kept(v, self.slab@);
            assert(self@ == v.with_slab(self.slab@));
        }
        let ghost done = self@;
        let written = match self.slab.inode(ino) {
            None => None,
            Some(inode) => match &inode.node {
                NodeRef::DirtyFile { content, .. } => if same_str(
                    inode.name.as_str(),
                    ".gitignore",
                ) || same_str(inode.name.as_str(), ".kiki-redirections") {
                    Some((inode.name.clone(), copy_bytes(content.as_slice())))
                } else {
                    None
                },
                _ => None,
            },
        };
        if let Some((name, content)) = written {
            self.reload_rules(name.as_str(), content.as_slice());
        }
        Ok(data.len() as u32)
    }

    /// Change the length or the mode of a file. Returns its attributes.
    pub fn setattr(
        &mut self,
        store: &GitContentStore,
        ino: InodeId,
        size: Option<u64>,
        executable: Option<bool>,
    ) -> (r: Result<Attr, FsError>)
        requires
            old(self)@.wf(),
            size matches Some(len) ==> len <= usize::MAX,
        ensures
            (final(self)@, outcome(r)) == old(self)@.setattr(store@, ino, size, executable),
            final(self)@.wf(),
    {
        if ino == self.git_file {
            return Err(FsError::StoreError("read-only synthesized .git file".to_owned()));
        }
        if size.is_none() && executable.is_none() {
            return self.getattr(store, ino);
        }
        match self.ensure_dirty_file(store, ino) {
            Err(e) => {
                return Err(e);
            },
            Ok(()) => {},
        }
        let ghost v = self@;
        let open = match self.slab.inode(ino) {
            None => false,
            Some(inode) => matches!(inode.node, NodeRef::DirtyFile { .. }),
        };
        if !open {
            return Err(FsError::NotAFile);
        }
        change_opened(&mut self.slab, ino, size, executable);
        proof {
            keeps_with_node(v.slab, ino, self.slab@.node(ino));
            wf_kept(v, self.slab@);
            assert(self@ == v.with_slab(self.slab@));
        }
        self.getattr(store, ino)
    }

    /// Remove an entry of the tree.
    fn remove_from_slab(
        &mut self,
        store: &GitContentStore,
        parent: InodeId,
        name: &str,
    ) -> (r: Result<
        (),
        FsError,
    >)
        requires
            old(self)@.wf(),
        ensures
            (final(self)@, outcome(r)) == old(self)@.remove_from_slab(store@, parent, name@),
            final(self)@.wf(),
    {
        match self.ensure_dirty_tree(store, parent) {
            Err(e) => {
                return Err(e);
            },
            Ok(()) => {},
        }
        let ghost v = self@;
        let r = remove_entry(&mut self.slab, store, parent, name);
        proof {
            keeps_refl(v.slab);
            if r is Ok {
                let child = v.slab.node(parent)->DirtyTree_0[name@];
                assert(v.slab.attached(parent, name@, child));
                keeps_without_child(v.slab, parent, name@, child);
            }
            wf_kept(v, self.slab@);
            assert(self@ == v.with_slab(self.slab@));
        }
        r
    }

    /// Remove an entry: a file, a symlink or an empty directory.
    pub fn remove(&mut self, store: &GitContentStore, parent: InodeId, name: &str) -> (r: Result<
        (),
        FsError,
    >)
        requires
            old(self)@.wf(),
        ensures
            (final(self)@, outcome(r)) == old(self)@.remove(store@, parent, name@),
            final(self)@.wf(),
    {
        if self.is_git_file(parent, name) {
            return Err(FsError::StoreError("cannot remove synthesized .git file".to_owned()));
        }
        let ghost before = self@;
        if self.is_jj_root(parent, name) {
            if let Some(jj) = self.jj_subtree {
                match self.slab.inode(jj) {
                    None => {
                        return Err(FsError::NotFound);
                    },
                    Some(inode) => {
                        if !inode.node.is_dir() {
                            return Err(FsError::NotADirectory);
                        }
                    },
                }
                return match can_drop(&self.slab, store, jj) {
                    Err(e) => Err(e),
                    Ok(false) => Err(FsError::NotEmpty),
                    Ok(true) => {
                        self.jj_subtree = None;
                        assert(self@ == (KikiView { jj_subtree: None, ..before }));
                        Ok(())
                    },
                };
            }
        }
        self.remove_from_slab(store, parent, name)
    }

    /// Move an entry, replacing what stands under the new name.
    pub fn rename(
        &mut self,
        store: &GitContentStore,
        parent: InodeId,
        name: &str,
        new_parent: InodeId,
        new_name: &str,
    ) -> (r: Result<(), FsError>)
        requires
            old(self)@.wf(),
        ensures
            (final(self)@, outcome(r)) == old(self)@.rename(
                store@,
                parent,
                name@,
                new_parent,
                new_name@,
            ),
            final(self)@.wf(),
    {
        if self.is_jj_root(parent, name) || self.is_jj_root(new_parent, new_name)
            || self.is_git_file(parent, name) || self.is_git_file(new_parent, new_name) {
            return Err(FsError::AlreadyExists);
        }
        let ghost start = self@;
        match self.ensure_dirty_tree(store, parent) {
            Err(e) => {
                return Err(e);
            },
            Ok(()) => {},
        }
        let ghost first = self@;
        if new_parent != parent {
            match self.ensure_dirty_tree(store, new_parent) {
                Err(e) => {
                    return Err(e);
                },
                Ok(()) => {},
            }
        }
        let ghost v = self@;
        proof {
            assert(first.with_slab(v.slab) == v);
            keeps_moved(v.slab, store@, parent, name@, new_parent, new_name@);
        }
        match move_entry(&mut self.slab, store, parent, name, new_parent, new_name) {
            Err(e) => {
                assert(self@ == v);
                Err(e)
            },
            Ok(None) => {
                assert(self@ == v);
                Ok(())
            },
            Ok(Some(child)) => {
                let _ = self.slab.reparent(child, new_parent, new_name.to_owned());
                proof {
                    wf_kept(v, self.slab@);
                    assert(self@ == v.with_slab(self.slab@));
                }
                Ok(())
            },
        }
    }

    /// Switch to another tree. The pinned `.jj` directory stays.
    pub fn check_out(
        &mut self,
        store: &GitContentStore,
        new_root_tree: Id,
        commit_mtime_secs: i64,
    ) -> (r:
        Result<(), FsError>)
        requires
            old(self)@.wf(),
        ensures
            (final(self)@, outcome(r)) == old(self)@.check_out(
                store@,
                new_root_tree,
                commit_mtime_secs,
            ),
            final(self)@.wf(),
    {
        match read_tree(store, &new_root_tree) {
            Err(e) => {
                return Err(e);
            },
            Ok(_) => {},
        }
        let ghost before = self@;
        self.slab.swap_root(new_root_tree);
        proof {
            keeps_rerooted(before.slab, new_root_tree);
            wf_kept(before, self.slab@);
        }
        if commit_mtime_secs != 0 {
            self.commit_mtime = commit_mtime_secs;
        }
        self.rules = Self::load_root_file(store, &new_root_tree, ".gitignore");
        self.redirections = Self::load_redirections(store, &new_root_tree);
        Ok(())
    }

    /// Write everything modified into the store and return the id of the root
    /// tree. Inodes keep their ids.
    pub fn snapshot(&mut self, store: &mut GitContentStore) -> (r: Result<Id, FsError>)
        requires
            old(self)@.wf(),
        ensures
            snapshotted(old(self)@, old(store)@, final(self)@, final(store)@, outcome(r)),
            final(self)@.wf(),
            final(store).path() == old(store).path(),
    {
        let ghost before = self@;
        let ghost first = store@;
        let ghost n = before.slab.inodes.len();
        let hidden: Vec<&str> = vec![".jj", ".git"];
        proof {
            lemma_hidden_set(hidden@);
            assert(hidden_set(hidden@) =~= outside_tree());
            root_nameless(before.slab);
            deep_below_nameless(before.slab, outside_tree(), ROOT_INODE);
            if let Some(jj) = before.jj_subtree {
                deep_below_nameless(before.slab, outside_tree(), jj);
            }
            begin(before.slab, outside_tree(), first);
        }
        let root = snapshot_node(
            &mut self.slab,
            store,
            &hidden,
            ROOT_INODE,
            Ghost(before.slab),
            Ghost(first),
            Ghost(n),
        );
        proof {
            lemma_in_progress(before.slab, outside_tree(), first, self.slab@, store@);
            keeps_settled(before.slab, outside_tree(), self.slab@);
            wf_kept(before, self.slab@);
            assert(self@ == before.with_slab(self.slab@));
            assert(only_reached(before, self@)) by {
                assert forall|j: InodeId|
                    before.slab.has(j) && #[trigger] self@.slab.at(j) != before.slab.at(
                        j,
                    ) implies reached(before, j) by {
                    let path = choose|path: Seq<Seq<char>>|
                        walk(before.slab, outside_tree(), ROOT_INODE, path) == Some(j);
                    assert(walk(before.slab, outside_tree(), ROOT_INODE, path) == Some(j));
                }
            }
        }
        let id = match root {
            Ok(id) => id,
            Err(e) => {
                return Err(e);
            },
        };
        if let Some(jj) = self.jj_subtree {
            let ghost mid = self.slab@;
            let ghost mid_store = store@;
            let pinned = snapshot_node(
                &mut self.slab,
                store,
                &hidden,
                jj,
                Ghost(before.slab),
                Ghost(first),
                Ghost(n),
            );
            proof {
                lemma_in_progress(before.slab, outside_tree(), first, self.slab@, store@);
                lemma_stays_complete(
                    before.slab,
                    outside_tree(),
                    first,
                    mid,
                    mid_store,
                    self.slab@,
                    store@,
                    ROOT_INODE,
                    n,
                );
                keeps_settled(before.slab, outside_tree(), self.slab@);
                wf_kept(before, self.slab@);
                assert(self@ == before.with_slab(self.slab@));
                assert(only_reached(before, self@)) by {
                    assert forall|j: InodeId|
                        before.slab.has(j) && #[trigger] self@.slab.at(j) != before.slab.at(
                            j,
                        ) implies reached(before, j) by {
                        if self@.slab.at(j) != mid.at(j) {
                            let path = choose|path: Seq<Seq<char>>|
                                walk(before.slab, outside_tree(), jj, path) == Some(j);
                            assert(walk(before.slab, outside_tree(), jj, path) == Some(j));
                            assert(walk(before.slab, outside_tree(), ROOT_INODE, path)
                                == walk(before.slab, outside_tree(), ROOT_INODE, path));
                        } else {
                            assert(mid.at(j) != before.slab.at(j));
                        }
                    }
                }
            }
            match pinned {
                Ok(_) => {},
                Err(e) => {
                    return Err(e);
                },
            }
        }
        Ok(id)
    }
}

/// The content of a clean node is missing from the store.
pub open spec fn lacks(objects: Objects, node: NodeView) -> bool {
    match node {
        NodeView::Tree(id) => tree_at(objects, id) == Ok::<Option<Seq<EntryView>>, StoreFault>(None),
        NodeView::File { id, .. } => file_at(objects, id) == Ok::<Option<Seq<u8>>, StoreFault>(None),
        NodeView::Symlink(id) => link_at(objects, id) == Ok::<Option<Seq<char>>, StoreFault>(None),
        _ => false,
    }
}

/// The first object that is missing from the store on the way from `ino` up to
/// the root, and whether it is a tree.
pub open spec fn missing_above(
    slab: SlabView,
    objects: Objects,
    ino: InodeId,
    steps: nat,
) -> Option<
    (Id, bool),
>
    decreases steps,
{
    if !slab.has(ino) {
        None
    } else {
        let node = slab.node(ino);
        if lacks(objects, node) {
            Some((node_id(node), node.is_dir()))
        } else if slab.at(ino).parent == ino || steps == 0 {
            None
        } else {
            missing_above(slab, objects, slab.at(ino).parent, (steps - 1) as nat)
        }
    }
}

impl KikiState {
    /// The first object that is missing from the store on the way from `ino`
    /// up to the root, and whether it is a tree. Bringing it in lets a request
    /// that missed it go on.
    pub fn missing_object(&self, store: &GitContentStore, ino: InodeId) -> (r: Option<(Id, bool)>)
        ensures
            r == missing_above(self@.slab, store@, ino, self@.slab.inodes.len()),
    {
        let mut current: InodeId = ino;
        let mut steps: usize = self.slab.len();
        loop
            invariant
                missing_above(self@.slab, store@, current, steps as nat) == missing_above(
                    self@.slab,
                    store@,
                    ino,
                    self@.slab.inodes.len(),
                ),
            decreases steps,
        {
            match self.slab.inode(current) {
                None => {
                    return None;
                },
                Some(inode) => {
                    match &inode.node {
                        NodeRef::Tree(id) => {
                            if let Ok(None) = store.read_tree(id) {
                                return Some((*id, true));
                            }
                        },
                        NodeRef::File { id, .. } => {
                            if let Ok(None) = store.read_file(id) {
                                return Some((*id, false));
                            }
                        },
                        NodeRef::Symlink(id) => {
                            if let Ok(None) = store.read_symlink(id) {
                                return Some((*id, false));
                            }
                        },
                        _ => {},
                    }
                    if inode.parent == current || steps == 0 {
                        return None;
                    }
                    current = inode.parent;
                },
            }
            steps = steps - 1;
        }
    }
}

/// What the adapters serve: a filesystem of inodes that can be read, changed
/// and snapshotted.
pub trait JjKikiFs: Sized {
    /// What requests change.
    type State;

    /// The present state.
    spec fn state(&self) -> Self::State;

    /// The filesystem is in order.
    spec fn in_order(&self) -> bool;

    /// What a lookup does and gives.
    spec fn lookup_step(s: Self::State, parent: InodeId, name: Seq<char>) -> (
        Self::State,
        Result<InodeId, ErrView>,
    );

    /// What asking for attributes does and gives.
    spec fn getattr_step(s: Self::State, ino: InodeId) -> (Self::State, Result<Attr, ErrView>);

    /// What a read does and gives.
    spec fn read_step(s: Self::State, ino: InodeId, offset: u64, count: u32) -> (
        Self::State,
        Result<(Seq<u8>, bool), ErrView>,
    );

    /// What listing a directory does and gives.
    spec fn readdir_step(s: Self::State, dir: InodeId) -> (
        Self::State,
        Result<Seq<DirEntryView>, ErrView>,
    );

    /// What reading a symlink does and gives.
    spec fn readlink_step(s: Self::State, ino: InodeId) -> (
        Self::State,
        Result<Seq<char>, ErrView>,
    );

    /// What switching to another tree does and gives.
    spec fn check_out_step(s: Self::State, tree: Id, mtime: i64) -> (
        Self::State,
        Result<(), ErrView>,
    );

    /// What creating a file does and gives.
    spec fn create_step(
        s: Self::State,
        parent: InodeId,
        name: Seq<char>,
        executable: bool,
    ) -> (Self::State, Result<(InodeId, Attr), ErrView>);

    /// What asking for the scratch directory of a redirected one does and gives.
    spec fn redirect_step(s: Self::State, parent: InodeId, name: Seq<char>) -> (
        Self::State,
        Option<Seq<char>>,
    );

    /// What making a directory does and gives.
    spec fn mkdir_step(
        s: Self::State,
        parent: InodeId,
        name: Seq<char>,
        fault: Option<Seq<char>>,
    ) -> (Self::State, Result<(InodeId, Attr), ErrView>);

    /// What creating a symlink does and gives.
    spec fn symlink_step(
        s: Self::State,
        parent: InodeId,
        name: Seq<char>,
        target: Seq<char>,
    ) -> (Self::State, Result<(InodeId, Attr), ErrView>);

    /// What a write does and gives.
    spec fn write_step(s: Self::State, ino: InodeId, offset: u64, data: Seq<u8>) -> (
        Self::State,
        Result<u32, ErrView>,
    );

    /// What changing a file's length or mode does and gives.
    spec fn setattr_step(
        s: Self::State,
        ino: InodeId,
        size: Option<u64>,
        executable: Option<bool>,
    ) -> (Self::State, Result<Attr, ErrView>);

    /// What removing an entry does and gives.
    spec fn remove_step(s: Self::State, parent: InodeId, name: Seq<char>) -> (
        Self::State,
        Result<(), ErrView>,
    );

    /// What moving an entry does and gives.
    spec fn rename_step(
        s: Self::State,
        parent: InodeId,
        name: Seq<char>,
        new_parent: InodeId,
        new_name: Seq<char>,
    ) -> (Self::State, Result<(), ErrView>);

    /// The inode of the root directory.
    fn root(&self) -> (r: InodeId)
        ensures
            r == ROOT_INODE,
    {
        ROOT_INODE
    }

    /// Find an entry by name. Its inode stays the same as long as the
    /// filesystem lives.
    fn lookup(&mut self, parent: InodeId, name: &str) -> (r: Result<InodeId, FsError>)
        requires
            old(self).in_order(),
        ensures
            final(self).in_order(),
            (final(self).state(), outcome(r)) == Self::lookup_step(
                old(self).state(),
                parent,
                name@,
            ),
    ;

    /// The attributes of an inode.
    fn getattr(&mut self, ino: InodeId) -> (r: Result<Attr, FsError>)
        requires
            old(self).in_order(),
        ensures
            final(self).in_order(),
            (final(self).state(), outcome(r)) == Self::getattr_step(old(self).state(), ino),
    ;

    /// Read up to `count` bytes from `offset` on; the flag says whether the
    /// read reached the end of the file.
    fn read(&mut self, ino: InodeId, offset: u64, count: u32) -> (r: Result<
        (Vec<u8>, bool),
        FsError,
    >)
        requires
            old(self).in_order(),
        ensures
            final(self).in_order(),
            (final(self).state(), read_outcome(r)) == Self::read_step(
                old(self).state(),
                ino,
                offset,
                count,
            ),
    ;

    /// List a directory.
    fn readdir(&mut self, dir: InodeId) -> (r: Result<Vec<DirEntry>, FsError>)
        requires
            old(self).in_order(),
        ensures
            final(self).in_order(),
            (final(self).state(), listing_outcome(r)) == Self::readdir_step(old(self).state(), dir),
    ;

    /// Read a symlink.
    fn readlink(&mut self, ino: InodeId) -> (r: Result<String, FsError>)
        requires
            old(self).in_order(),
        ensures
            final(self).in_order(),
            (final(self).state(), text_outcome(r)) == Self::readlink_step(old(self).state(), ino),
    ;

    /// Switch to another tree, which the store must hold. A time of 0 leaves
    /// the modification time as it was.
    fn check_out(&mut self, new_root_tree: Id, commit_mtime_secs: i64) -> (r: Result<(), FsError>)
        requires
            old(self).in_order(),
        ensures
            final(self).in_order(),
            (final(self).state(), outcome(r)) == Self::check_out_step(
                old(self).state(),
                new_root_tree,
                commit_mtime_secs,
            ),
    ;

    /// Create an empty file.
    fn create_file(&mut self, parent: InodeId, name: &str, executable: bool) -> (r: Result<
        (InodeId, Attr),
        FsError,
    >)
        requires
            old(self).in_order(),
        ensures
            final(self).in_order(),
            (final(self).state(), outcome(r)) == Self::create_step(
                old(self).state(),
                parent,
                name@,
                executable,
            ),
    ;

    /// The scratch directory that has to exist before a redirected directory
    /// is made.
    fn redirect_target(&mut self, parent: InodeId, name: &str) -> (r: Option<String>)
        requires
            old(self).in_order(),
        ensures
            final(self).in_order(),
            (final(self).state(), text_in(r)) == Self::redirect_step(
                old(self).state(),
                parent,
                name@,
            ),
    ;

    /// Create a directory. `scratch_fault` says why the scratch directory of a
    /// redirected one could not be made.
    fn mkdir(&mut self, parent: InodeId, name: &str, scratch_fault: Option<String>) -> (r: Result<
        (InodeId, Attr),
        FsError,
    >)
        requires
            old(self).in_order(),
        ensures
            final(self).in_order(),
            (final(self).state(), outcome(r)) == Self::mkdir_step(
                old(self).state(),
                parent,
                name@,
                text_in(scratch_fault),
            ),
    ;

    /// Create a symlink.
    fn symlink(&mut self, parent: InodeId, name: &str, target: &str) -> (r: Result<
        (InodeId, Attr),
        FsError,
    >)
        requires
            old(self).in_order(),
        ensures
            final(self).in_order(),
            (final(self).state(), outcome(r)) == Self::symlink_step(
                old(self).state(),
                parent,
                name@,
                target@,
            ),
    ;

    /// Write into a file, which grows as needed. Returns the number of bytes
    /// written.
    fn write(&mut self, ino: InodeId, offset: u64, data: &[u8]) -> (r: Result<u32, FsError>)
        requires
            old(self).in_order(),
            offset + data@.len() <= usize::MAX,
        ensures
            final(self).in_order(),
            (final(self).state(), outcome(r)) == Self::write_step(
                old(self).state(),
                ino,
                offset,
                data@,
            ),
    ;

    /// Change the length or the mode of a file.
    fn setattr(&mut self, ino: InodeId, size: Option<u64>, executable: Option<bool>) -> (r: Result<
        Attr,
        FsError,
    >)
        requires
            old(self).in_order(),
            size matches Some(len) ==> len <= usize::MAX,
        ensures
            final(self).in_order(),
            (final(self).state(), outcome(r)) == Self::setattr_step(
                old(self).state(),
                ino,
                size,
                executable,
            ),
    ;

    /// Remove a file, a symlink or an empty directory.
    fn remove(&mut self, parent: InodeId, name: &str) -> (r: Result<(), FsError>)
        requires
            old(self).in_order(),
        ensures
            final(self).in_order(),
            (final(self).state(), outcome(r)) == Self::remove_step(
                old(self).state(),
                parent,
                name@,
            ),
    ;

    /// Move an entry, replacing what stands under the new name.
    fn rename(&mut self, parent: InodeId, name: &str, new_parent: InodeId, new_name: &str) -> (r:
        Result<(), FsError>)
        requires
            old(self).in_order(),
        ensures
            final(self).in_order(),
            (final(self).state(), outcome(r)) == Self::rename_step(
                old(self).state(),
                parent,
                name@,
                new_parent,
                new_name@,
            ),
    ;

    /// Write everything modified into the store and return the id of the root
    /// tree. Inodes keep their ids.
    fn snapshot(&mut self) -> (r: Result<Id, FsError>)
        requires
            old(self).in_order(),
        ensures
            final(self).in_order(),
    ;
}

/// The filesystem of one working copy over its own content store.
#[derive(Debug)]
pub struct KikiFs {
    store: GitContentStore,
    state: KikiState,
}

impl KikiFs {
    /// The working copy.
    pub closed spec fn tree(&self) -> KikiView {
        self.state@
    }

    /// The objects of the content store.
    pub closed spec fn objects(&self) -> Objects {
        self.store@
    }

    /// Where the git repository of the store is.
    pub closed spec fn git_path(&self) -> Seq<char> {
        self.store.path()
    }

    /// Make the filesystem of a tree. The `.git` file points at
    /// `worktree_gitdir`, or without one at the repository of the store.
    pub fn new(
        store: GitContentStore,
        root_tree: Id,
        scratch_dir: Option<String>,
        worktree_gitdir: Option<String>,
        commit_mtime_secs: i64,
    ) -> (fs: KikiFs)
        ensures
            fs.objects() == store@,
            fs.git_path() == store.path(),
            fs.tree() == KikiView::fresh(
                store@,
                root_tree,
                match worktree_gitdir {
                    Some(dir) => dir@,
                    None => store.path(),
                },
                text_in(scratch_dir),
                commit_mtime_secs,
            ),
            fs.tree().wf(),
    {
        let state = match &worktree_gitdir {
            Some(dir) => KikiState::new(
                &store,
                root_tree,
                scratch_dir,
                dir.as_str(),
                commit_mtime_secs,
            ),
            None => KikiState::new(
                &store,
                root_tree,
                scratch_dir,
                store.git_repo_path(),
                commit_mtime_secs,
            ),
        };
        KikiFs { store, state }
    }

    /// The content store.
    pub fn store(&self) -> (s: &GitContentStore)
        ensures
            s@ == self.objects(),
            s.path() == self.git_path(),
    {
        &self.store
    }

    /// The first object that is missing from the store on the way from `ino`
    /// up to the root, and whether it is a tree.
    pub fn missing_object(&self, ino: InodeId) -> (r: Option<(Id, bool)>)
        ensures
            r == missing_above(
                self.tree().slab,
                self.objects(),
                ino,
                self.tree().slab.inodes.len(),
            ),
    {
        self.state.missing_object(&self.store, ino)
    }

    /// Take in an object that was fetched from elsewhere. It is stored only if
    /// its bytes have the id.
    pub fn import_object(&mut self, id: Id, kind: GitObjectKind, data: Vec<u8>) -> (r: Result<
        (),
        StoreFault,
    >)
        ensures
            final(self).tree() == old(self).tree(),
            final(self).git_path() == old(self).git_path(),
            final(self).objects() == (if r is Ok {
                written(old(self).objects(), kind, data@)
            } else {
                old(self).objects()
            }),
            r is Ok <==> object_id(kind, data@) == Some(id),
            r matches Err(e) ==> e == (if object_id(kind, data@) is None {
                StoreFault::HashRefused
            } else {
                StoreFault::IdMismatch
            }),
    {
        self.store.import_object(id, kind, data)
    }

    /// Store an object next to the working copy.
    pub fn write_object(
        &mut self,
        kind: GitObjectKind,
        data: Vec<u8>,
    ) -> (r: Result<Id, StoreFault>)
        ensures
            final(self).state() == (KikiFsView {
                objects: written(old(self).objects(), kind, data@),
                ..old(self).state()
            }),
            match r {
                Ok(id) => object_id(kind, data@) == Some(id),
                Err(e) => object_id(kind, data@) is None && e == StoreFault::HashRefused,
            },
    {
        self.store.write_object(kind, data)
    }

    /// Store a tree next to the working copy. The entries may come in any order.
    pub fn write_tree(&mut self, entries: &Vec<GitTreeEntry>) -> (r: Result<Id, StoreFault>)
        ensures
            r == tree_id(tree_view(entries@)),
            final(self).state() == (KikiFsView {
                objects: if names_fit(tree_view(entries@)) {
                    written(
                        old(self).objects(),
                        GitObjectKind::Tree,
                        tree_data(tree_view(entries@)),
                    )
                } else {
                    old(self).objects()
                },
                ..old(self).state()
            }),
    {
        self.store.write_tree(entries)
    }
}

/// The state of a [`KikiFs`].
pub struct KikiFsView {
    pub tree: KikiView,
    pub objects: Objects,
    pub git_path: Seq<char>,
}

impl KikiFsView {
    /// The state with another working copy, and a result.
    pub open spec fn stepped<T>(self, step: (KikiView, Result<T, ErrView>)) -> (
        KikiFsView,
        Result<T, ErrView>,
    ) {
        (KikiFsView { tree: step.0, ..self }, step.1)
    }
}

impl JjKikiFs for KikiFs {
    type State = KikiFsView;

    open spec fn state(&self) -> KikiFsView {
        KikiFsView { tree: self.tree(), objects: self.objects(), git_path: self.git_path() }
    }

    open spec fn in_order(&self) -> bool {
        self.tree().wf()
    }

    open spec fn lookup_step(s: KikiFsView, parent: InodeId, name: Seq<char>) -> (
        KikiFsView,
        Result<InodeId, ErrView>,
    ) {
        s.stepped(s.tree.lookup(s.objects, parent, name))
    }

    open spec fn getattr_step(s: KikiFsView, ino: InodeId) -> (KikiFsView, Result<Attr, ErrView>) {
        (s, attr_result(s.tree.slab, s.objects, ino, s.tree.commit_mtime))
    }

    open spec fn read_step(s: KikiFsView, ino: InodeId, offset: u64, count: u32) -> (
        KikiFsView,
        Result<(Seq<u8>, bool), ErrView>,
    ) {
        (s, read_result(s.tree.slab, s.objects, ino, offset, count))
    }

    open spec fn readdir_step(s: KikiFsView, dir: InodeId) -> (
        KikiFsView,
        Result<Seq<DirEntryView>, ErrView>,
    ) {
        s.stepped(s.tree.readdir(s.objects, dir))
    }

    open spec fn readlink_step(s: KikiFsView, ino: InodeId) -> (
        KikiFsView,
        Result<Seq<char>, ErrView>,
    ) {
        (s, readlink_result(s.tree.slab, s.objects, ino))
    }

    open spec fn check_out_step(s: KikiFsView, tree: Id, mtime: i64) -> (
        KikiFsView,
        Result<(), ErrView>,
    ) {
        s.stepped(s.tree.check_out(s.objects, tree, mtime))
    }

    open spec fn create_step(
        s: KikiFsView,
        parent: InodeId,
        name: Seq<char>,
        executable: bool,
    ) -> (KikiFsView, Result<(InodeId, Attr), ErrView>) {
        s.stepped(
            s.tree.add_entry(
                s.objects,
                parent,
                name,
                NodeView::DirtyFile { content: seq![], executable },
            ),
        )
    }

    open spec fn redirect_step(s: KikiFsView, parent: InodeId, name: Seq<char>) -> (
        KikiFsView,
        Option<Seq<char>>,
    ) {
        (s, s.tree.redirect_target(s.objects, parent, name))
    }

    open spec fn mkdir_step(
        s: KikiFsView,
        parent: InodeId,
        name: Seq<char>,
        fault: Option<Seq<char>>,
    ) -> (KikiFsView, Result<(InodeId, Attr), ErrView>) {
        s.stepped(s.tree.mkdir(s.objects, parent, name, fault))
    }

    open spec fn symlink_step(
        s: KikiFsView,
        parent: InodeId,
        name: Seq<char>,
        target: Seq<char>,
    ) -> (KikiFsView, Result<(InodeId, Attr), ErrView>) {
        s.stepped(s.tree.add_entry(s.objects, parent, name, NodeView::DirtySymlink(target)))
    }

    open spec fn write_step(s: KikiFsView, ino: InodeId, offset: u64, data: Seq<u8>) -> (
        KikiFsView,
        Result<u32, ErrView>,
    ) {
        s.stepped(s.tree.write(s.objects, ino, offset, data))
    }

    open spec fn setattr_step(
        s: KikiFsView,
        ino: InodeId,
        size: Option<u64>,
        executable: Option<bool>,
    ) -> (KikiFsView, Result<Attr, ErrView>) {
        s.stepped(s.tree.setattr(s.objects, ino, size, executable))
    }

    open spec fn remove_step(s: KikiFsView, parent: InodeId, name: Seq<char>) -> (
        KikiFsView,
        Result<(), ErrView>,
    ) {
        s.stepped(s.tree.remove(s.objects, parent, name))
    }

    open spec fn rename_step(
        s: KikiFsView,
        parent: InodeId,
        name: Seq<char>,
        new_parent: InodeId,
        new_name: Seq<char>,
    ) -> (KikiFsView, Result<(), ErrView>) {
        s.stepped(s.tree.rename(s.objects, parent, name, new_parent, new_name))
    }

    fn lookup(&mut self, parent: InodeId, name: &str) -> (r: Result<InodeId, FsError>)
    {
        self.state.lookup(&self.store, parent, name)
    }

    fn getattr(&mut self, ino: InodeId) -> (r: Result<Attr, FsError>)
    {
        self.state.getattr(&self.store, ino)
    }

    fn read(
        &mut self,
        ino: InodeId,
        offset: u64,
        count: u32,
    ) -> (r: Result<(Vec<u8>, bool), FsError>)
    {
        self.state.read(&self.store, ino, offset, count)
    }

    fn readdir(&mut self, dir: InodeId) -> (r: Result<Vec<DirEntry>, FsError>)
    {
        self.state.readdir(&self.store, dir)
    }

    fn readlink(&mut self, ino: InodeId) -> (r: Result<String, FsError>)
    {
        self.state.readlink(&self.store, ino)
    }

    fn check_out(&mut self, new_root_tree: Id, commit_mtime_secs: i64) -> (r: Result<(), FsError>)
    {
        self.state.check_out(&self.store, new_root_tree, commit_mtime_secs)
    }

    fn create_file(
        &mut self,
        parent: InodeId,
        name: &str,
        executable: bool,
    ) -> (r: Result<(InodeId, Attr), FsError>)
    {
        self.state.create_file(&self.store, parent, name, executable)
    }

    fn redirect_target(&mut self, parent: InodeId, name: &str) -> (r: Option<String>)
    {
        self.state.redirect_target(&self.store, parent, name)
    }

    fn mkdir(
        &mut self,
        parent: InodeId,
        name: &str,
        scratch_fault: Option<String>,
    ) -> (r: Result<(InodeId, Attr), FsError>)
    {
        self.state.mkdir(&self.store, parent, name, scratch_fault)
    }

    fn symlink(
        &mut self,
        parent: InodeId,
        name: &str,
        target: &str,
    ) -> (r: Result<(InodeId, Attr), FsError>)
    {
        self.state.symlink(&self.store, parent, name, target)
    }

    fn write(&mut self, ino: InodeId, offset: u64, data: &[u8]) -> (r: Result<u32, FsError>)
    {
        self.state.write(&self.store, ino, offset, data)
    }

    fn setattr(
        &mut self,
        ino: InodeId,
        size: Option<u64>,
        executable: Option<bool>,
    ) -> (r: Result<Attr, FsError>)
    {
        self.state.setattr(&self.store, ino, size, executable)
    }

    fn remove(&mut self, parent: InodeId, name: &str) -> (r: Result<(), FsError>)
    {
        self.state.remove(&self.store, parent, name)
    }

    fn rename(
        &mut self,
        parent: InodeId,
        name: &str,
        new_parent: InodeId,
        new_name: &str,
    ) -> (r: Result<(), FsError>)
    {
        self.state.rename(&self.store, parent, name, new_parent, new_name)
    }

    fn snapshot(&mut self) -> (r: Result<Id, FsError>)
        ensures
            final(self).git_path() == old(self).git_path(),
            snapshotted(
                old(self).tree(),
                old(self).objects(),
                final(self).tree(),
                final(self).objects(),
                outcome(r),
            ),
    {
        self.state.snapshot(&mut self.store)
    }
}

proof fn lemma_named_file_prefix(
    objects: Objects,
    entries: Seq<EntryView>,
    n: int,
    name: Seq<char>,
)
    requires
        0 <= n <= entries.len(),
        named_file(objects, entries.take(n), name) is Some,
    ensures
        named_file(objects, entries, name) == named_file(objects, entries.take(n), name),
    decreases entries.len(),
{
    if n < entries.len() {
        assert(entries.drop_last().take(n) =~= entries.take(n));
        lemma_named_file_prefix(objects, entries.drop_last(), n, name);
    } else {
        assert(entries.take(n) =~= entries);
    }
}

proof fn lemma_hidden_set(hidden: Seq<&str>)
    ensures
        hidden.len() == 0 ==> hidden_set(hidden) =~= Set::<Seq<char>>::empty(),
        hidden.len() == 1 ==> hidden_set(hidden) =~= Set::<Seq<char>>::empty().insert(hidden[0]@),
        hidden.len() == 2 ==> hidden_set(hidden) =~= Set::<Seq<char>>::empty().insert(
            hidden[0]@,
        ).insert(hidden[1]@),
{
    if hidden.len() == 1 {
        assert forall|n: Seq<char>| hidden_set(hidden).contains(n) <==> n == hidden[0]@ by {
            assert(hidden[0]@ == hidden[0]@);
        }
    }
    if hidden.len() == 2 {
        assert forall|n: Seq<char>|
            hidden_set(hidden).contains(n) <==> (n == hidden[0]@ || n == hidden[1]@) by {
            assert(hidden[0]@ == hidden[0]@);
            assert(hidden[1]@ == hidden[1]@);
        }
    }
}

} // verus!
