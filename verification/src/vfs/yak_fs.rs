//! The plain filesystem of a tree: no pinned entries, no ignore rules.
//!
//! A request that changes something opens the directories above it for changes,
//! so that the next snapshot finds it.
use vstd::prelude::*;
use crate::git_store::{GitContentStore, Objects};
use crate::ty::Id;
use crate::vfs::inode::{InodeId, InodeSlab, InodeView, NodeRef, NodeView, SlabView, ROOT_INODE};
use crate::vfs::name_map::NameMap;
use crate::vfs::snapshot::{
    begin, changed_below, complete, content_id, finished, grown, lemma_in_progress, only_content,
    settled, snapshot_node,
};
use crate::vfs::tidy::{
    childless, deep_below_nameless, keeps_listed, keeps_looked_up, keeps_moved, keeps_refl,
    keeps_rerooted, keeps_settled, keeps_with_child, keeps_with_inode, keeps_with_node,
    keeps_without_child, placed, root_nameless, tidy,
};
use crate::vfs::tree_ops::{
    attr_for, attr_result, change_opened, ensure_dirty_file, entry_exists, file_changed,
    file_opened, file_written, has_entry, hidden_set, list_dir, listing, looked_up, lookup_entry,
    move_entry, moved, read_node, read_result, read_tree, readlink_node, readlink_result,
    remove_entry, removed, tree_result, write_opened,
};
use crate::vfs::types::{fault_view, listing_view, outcome, Attr, DirEntry, ErrView, FsError};
use crate::vfs::yak_open::{lemma_upward_stays, open_upward, opened_upward};

verus! {

broadcast use vstd::string::group_string_axioms;

/// The inodes are in order, and every inode that a name leads to knows its place.
pub open spec fn in_place(slab: SlabView) -> bool {
    tidy(slab) && placed(slab)
}

/// What making an entry does and gives.
pub open spec fn entry_added(
    slab: SlabView,
    objects: Objects,
    parent: InodeId,
    name: Seq<char>,
    node: NodeView,
) -> (SlabView, Result<(InodeId, Attr), ErrView>) {
    match has_entry(slab, objects, parent, name) {
        Err(e) => (slab, Err(e)),
        Ok(true) => (slab, Err(ErrView::AlreadyExists)),
        Ok(false) => {
            let (open, r) = opened_upward(slab, objects, parent);
            match r {
                Err(e) => (open, Err(e)),
                Ok(()) => {
                    let child = open.next_id() as InodeId;
                    let more = open.with_inode(InodeView { parent, name, node, ignored: false });
                    if !more.can_attach(parent, name) {
                        (more, Err(ErrView::AlreadyExists))
                    } else {
                        let after = more.with_child(parent, name, child);
                        (
                            after,
                            match attr_result(after, objects, child, 0) {
                                Ok(attr) => Ok((child, attr)),
                                Err(e) => Err(e),
                            },
                        )
                    }
                },
            }
        },
    }
}

/// The slab after a file and the directories above it were opened for changes.
pub open spec fn file_opened_upward(slab: SlabView, objects: Objects, ino: InodeId) -> (
    SlabView,
    Result<(), ErrView>,
) {
    let (open, r) = file_opened(slab, objects, ino);
    match r {
        Err(e) => (open, Err(e)),
        Ok(()) => opened_upward(open, objects, open.at(ino).parent),
    }
}

/// What a write does and gives.
pub open spec fn bytes_written(
    slab: SlabView,
    objects: Objects,
    ino: InodeId,
    offset: u64,
    data: Seq<u8>,
) -> (SlabView, Result<u32, ErrView>) {
    let (open, r) = file_opened_upward(slab, objects, ino);
    match r {
        Err(e) => (open, Err(e)),
        Ok(()) => (file_written(open, ino, offset, data), Ok(data.len() as u32)),
    }
}

/// What changing a file's length or mode does and gives.
pub open spec fn attr_changed(
    slab: SlabView,
    objects: Objects,
    ino: InodeId,
    size: Option<u64>,
    executable: Option<bool>,
) -> (SlabView, Result<Attr, ErrView>) {
    if size is None && executable is None {
        (slab, attr_result(slab, objects, ino, 0))
    } else {
        let (open, r) = file_opened_upward(slab, objects, ino);
        match r {
            Err(e) => (open, Err(e)),
            Ok(()) => {
                let after = file_changed(open, ino, size, executable);
                (after, attr_result(after, objects, ino, 0))
            },
        }
    }
}

/// What removing an entry does and gives.
pub open spec fn entry_removed(
    slab: SlabView,
    objects: Objects,
    parent: InodeId,
    name: Seq<char>,
) -> (
    SlabView,
    Result<(), ErrView>,
) {
    let (open, r) = opened_upward(slab, objects, parent);
    match r {
        Err(e) => (open, Err(e)),
        Ok(()) => removed(open, objects, parent, name),
    }
}

/// What moving an entry does and gives.
pub open spec fn entry_moved(
    slab: SlabView,
    objects: Objects,
    parent: InodeId,
    name: Seq<char>,
    new_parent: InodeId,
    new_name: Seq<char>,
) -> (SlabView, Result<(), ErrView>) {
    let (first, r) = opened_upward(slab, objects, parent);
    match r {
        Err(e) => (first, Err(e)),
        Ok(()) => {
            let (open, r) = if new_parent != parent {
                opened_upward(first, objects, new_parent)
            } else {
                (first, Ok(()))
            };
            match r {
                Err(e) => (open, Err(e)),
                Ok(()) => {
                    let (after, r) = moved(open, objects, parent, name, new_parent, new_name);
                    match r {
                        Err(e) => (after, Err(e)),
                        Ok(None) => (after, Ok(())),
                        Ok(Some(child)) => (after.reparented(child, new_parent, new_name), Ok(())),
                    }
                },
            }
        },
    }
}

/// What switching to another tree does and gives.
pub open spec fn switched(slab: SlabView, objects: Objects, tree: Id) -> (
    SlabView,
    Result<(), ErrView>,
) {
    match tree_result(objects, tree) {
        Err(e) => (slab, Err(e)),
        Ok(_) => (slab.rerooted(tree), Ok(())),
    }
}

/// What a snapshot does and gives: the content of every modified inode below the
/// root is stored, and the inodes are cleaned, each under the id of its content.
pub open spec fn stored_below_root(
    before: SlabView,
    objects: Objects,
    after: SlabView,
    now: Objects,
    r: Result<Id, ErrView>,
) -> bool {
    let none = Set::<Seq<char>>::empty();
    &&& settled(before, none, after)
    &&& finished(before, none, after, now)
    &&& changed_below(before, none, before, after, ROOT_INODE)
    &&& grown(objects, now)
    &&& only_content(before, none, objects, now)
    &&& match content_id(before, none, ROOT_INODE, before.inodes.len()) {
        Ok(id) => r == Ok::<Id, ErrView>(id) && complete(
            before,
            none,
            after,
            now,
            ROOT_INODE,
            before.inodes.len(),
        ),
        Err(fault) => r == Err::<Id, ErrView>(fault_view(fault)),
    }
}

/// What the adapters serve.
pub trait JjYakFs: Sized {
    /// The filesystem is in order.
    spec fn in_order(&self) -> bool;

    /// The inode of the root directory.
    fn root(&self) -> (r: InodeId)
        ensures
            r == ROOT_INODE,
    {
        ROOT_INODE
    }

    /// Find an entry by name.
    fn lookup(&mut self, parent: InodeId, name: &str) -> (r: Result<InodeId, FsError>)
        requires
            old(self).in_order(),
        ensures
            final(self).in_order(),
    ;

    /// The attributes of an inode.
    fn getattr(&mut self, ino: InodeId) -> (r: Result<Attr, FsError>)
        requires
            old(self).in_order(),
        ensures
            final(self).in_order(),
    ;

    /// Read up to `count` bytes from `offset` on; the flag says whether the
    /// read reached the end of the file.
    fn read(
        &mut self,
        ino: InodeId,
        offset: u64,
        count: u32,
    ) -> (r: Result<(Vec<u8>, bool), FsError>)
        requires
            old(self).in_order(),
        ensures
            final(self).in_order(),
    ;

    /// List a directory.
    fn readdir(&mut self, dir: InodeId) -> (r: Result<Vec<DirEntry>, FsError>)
        requires
            old(self).in_order(),
        ensures
            final(self).in_order(),
    ;

    /// Read a symlink.
    fn readlink(&mut self, ino: InodeId) -> (r: Result<String, FsError>)
        requires
            old(self).in_order(),
        ensures
            final(self).in_order(),
    ;

    /// Switch to another tree, which the store must hold.
    fn check_out(&mut self, new_root_tree: Id) -> (r: Result<(), FsError>)
        requires
            old(self).in_order(),
        ensures
            final(self).in_order(),
    ;

    /// Create an empty file.
    fn create_file(
        &mut self,
        parent: InodeId,
        name: &str,
        executable: bool,
    ) -> (r: Result<(InodeId, Attr), FsError>)
        requires
            old(self).in_order(),
        ensures
            final(self).in_order(),
    ;

    /// Create a directory.
    fn mkdir(&mut self, parent: InodeId, name: &str) -> (r: Result<(InodeId, Attr), FsError>)
        requires
            old(self).in_order(),
        ensures
            final(self).in_order(),
    ;

    /// Create a symlink.
    fn symlink(
        &mut self,
        parent: InodeId,
        name: &str,
        target: &str,
    ) -> (r: Result<(InodeId, Attr), FsError>)
        requires
            old(self).in_order(),
        ensures
            final(self).in_order(),
    ;

    /// Write into a file, which grows as needed. Returns the number of bytes
    /// written.
    fn write(&mut self, ino: InodeId, offset: u64, data: &[u8]) -> (r: Result<u32, FsError>)
        requires
            old(self).in_order(),
            offset + data@.len() <= usize::MAX,
        ensures
            final(self).in_order(),
    ;

    /// Change the length or the mode of a file.
    fn setattr(
        &mut self,
        ino: InodeId,
        size: Option<u64>,
        executable: Option<bool>,
    ) -> (r: Result<Attr, FsError>)
        requires
            old(self).in_order(),
            size matches Some(len) ==> len <= usize::MAX,
        ensures
            final(self).in_order(),
    ;

    /// Remove a file, a symlink or an empty directory.
    fn remove(&mut self, parent: InodeId, name: &str) -> (r: Result<(), FsError>)
        requires
            old(self).in_order(),
        ensures
            final(self).in_order(),
    ;

    /// Move an entry, replacing what stands under the new name.
    fn rename(
        &mut self,
        parent: InodeId,
        name: &str,
        new_parent: InodeId,
        new_name: &str,
    ) -> (r: Result<(), FsError>)
        requires
            old(self).in_order(),
        ensures
            final(self).in_order(),
    ;

    /// Write everything modified into the store and return the id of the root
    /// tree.
    fn snapshot(&mut self) -> (r: Result<Id, FsError>)
        requires
            old(self).in_order(),
        ensures
            final(self).in_order(),
    ;
}

/// The plain filesystem of a tree over its own content store.
#[derive(Debug)]
pub struct YakFs {
    store: GitContentStore,
    slab: InodeSlab,
}

impl YakFs {
    /// The inodes.
    pub closed spec fn slab(&self) -> SlabView {
        self.slab@
    }

    /// The objects of the content store.
    pub closed spec fn objects(&self) -> Objects {
        self.store@
    }

    /// Make the filesystem of a tree.
    pub fn new(store: GitContentStore, root_tree: Id) -> (fs: YakFs)
        ensures
            fs.objects() == store@,
            fs.slab().inodes == seq![
                InodeView {
                    parent: ROOT_INODE,
                    name: Seq::empty(),
                    node: NodeView::Tree(root_tree),
                    ignored: false,
                },
            ],
            fs.slab().by_parent == Map::<(InodeId, Seq<char>), InodeId>::empty(),
            in_place(fs.slab()),
    {
        let slab = InodeSlab::new(root_tree);
        assert(slab@.has(ROOT_INODE));
        YakFs { store, slab }
    }

    /// The content store.
    pub fn store(&self) -> (s: &GitContentStore)
        ensures
            s@ == self.objects(),
    {
        &self.store
    }

    /// Open a file and the directories above it for changes.
    fn open_file(&mut self, ino: InodeId) -> (r: Result<(), FsError>)
        requires
            in_place(old(self).slab()),
        ensures
            in_place(final(self).slab()),
            final(self).objects() == old(self).objects(),
            (final(self).slab(), outcome(r)) == file_opened_upward(
                old(self).slab(),
                old(self).objects(),
                ino,
            ),
            r is Ok ==> final(self).slab().has(ino) && final(self).slab().node(ino) is DirtyFile,
    {
        let ghost before = self.slab@;
        let r = ensure_dirty_file(&mut self.slab, &self.store, ino);
        proof {
            if self.slab@ != before {
                keeps_with_node(before, ino, self.slab@.node(ino));
            }
        }
        if r.is_err() {
            return r;
        }
        match self.slab.inode(ino) {
            None => Err(FsError::NotFound),
            Some(inode) => {
                let parent: InodeId = inode.parent;
                proof {
                    lemma_upward_stays(self.slab@, self.store@, parent, ino);
                }
                open_upward(&mut self.slab, &self.store, parent)
            },
        }
    }

    fn add_entry(&mut self, parent: InodeId, name: &str, node: NodeRef) -> (r: Result<
        (InodeId, Attr),
        FsError,
    >)
        requires
            in_place(old(self).slab()),
            childless(node@),
        ensures
            in_place(final(self).slab()),
            final(self).objects() == old(self).objects(),
            (final(self).slab(), outcome(r)) == entry_added(
                old(self).slab(),
                old(self).objects(),
                parent,
                name@,
                node@,
            ),
    {
        let ghost before = self.slab@;
        match entry_exists(&self.slab, &self.store, parent, name) {
            Err(e) => {
                return Err(e);
            },
            Ok(true) => {
                return Err(FsError::AlreadyExists);
            },
            Ok(false) => {},
        }
        match open_upward(&mut self.slab, &self.store, parent) {
            Err(e) => {
                return Err(e);
            },
            Ok(()) => {},
        }
        let ghost open = self.slab@;
        let ghost inode = InodeView { parent, name: name@, node: node@, ignored: false };
        let child: InodeId = self.slab.alloc_inode(parent, name.to_owned(), node);
        let ghost more = self.slab@;
        proof {
            self.slab.lemma_ids_fit();
            keeps_with_inode(open, inode);
        }
        if !self.slab.attach_child(parent, name.to_owned(), child) {
            return Err(FsError::AlreadyExists);
        }
        proof {
            keeps_with_child(more, parent, name@, child);
        }
        match attr_for(&self.slab, &self.store, child, 0) {
            Ok(attr) => Ok((child, attr)),
            Err(e) => Err(e),
        }
    }
}

impl JjYakFs for YakFs {
    open spec fn in_order(&self) -> bool {
        in_place(self.slab())
    }

    fn lookup(&mut self, parent: InodeId, name: &str) -> (r: Result<InodeId, FsError>)
        ensures
            final(self).objects() == old(self).objects(),
            (final(self).slab(), outcome(r)) == looked_up(
                old(self).slab(),
                old(self).objects(),
                parent,
                name@,
            ),
    {
        let ghost before = self.slab@;
        let r = lookup_entry(&mut self.slab, &self.store, parent, name);
        proof {
            self.slab.lemma_ids_fit();
            keeps_looked_up(before, self.store@, parent, name@);
        }
        r
    }

    fn getattr(&mut self, ino: InodeId) -> (r: Result<Attr, FsError>)
        ensures
            final(self).objects() == old(self).objects(),
            final(self).slab() == old(self).slab(),
            outcome(r) == attr_result(old(self).slab(), old(self).objects(), ino, 0),
    {
        attr_for(&self.slab, &self.store, ino, 0)
    }

    fn read(
        &mut self,
        ino: InodeId,
        offset: u64,
        count: u32,
    ) -> (r: Result<(Vec<u8>, bool), FsError>)
        ensures
            final(self).objects() == old(self).objects(),
            final(self).slab() == old(self).slab(),
            (match r {
                Ok((data, eof)) => Ok((data@, eof)),
                Err(e) => Err(e@),
            }) == read_result(old(self).slab(), old(self).objects(), ino, offset, count),
    {
        read_node(&self.slab, &self.store, ino, offset, count)
    }

    fn readdir(&mut self, dir: InodeId) -> (r: Result<Vec<DirEntry>, FsError>)
        ensures
            final(self).objects() == old(self).objects(),
            (
                final(self).slab(),
                match r {
                    Ok(out) => Ok(listing_view(out@)),
                    Err(e) => Err(e@),
                },
            ) == listing(old(self).slab(), old(self).objects(), dir, Set::empty()),
    {
        let ghost before = self.slab@;
        let hidden: Vec<&str> = Vec::new();
        assert(hidden_set(hidden@) =~= Set::empty());
        let r = list_dir(&mut self.slab, &self.store, dir, &hidden);
        proof {
            self.slab.lemma_ids_fit();
            keeps_refl(before);
            if before.has(dir) {
                if let NodeView::Tree(id) = before.node(dir) {
                    if let Ok(entries) = tree_result(self.store@, id) {
                        keeps_listed(before, dir, entries, Set::empty());
                    }
                }
            }
        }
        r
    }

    fn readlink(&mut self, ino: InodeId) -> (r: Result<String, FsError>)
        ensures
            final(self).objects() == old(self).objects(),
            final(self).slab() == old(self).slab(),
            (match r {
                Ok(target) => Ok(target@),
                Err(e) => Err(e@),
            }) == readlink_result(old(self).slab(), old(self).objects(), ino),
    {
        readlink_node(&self.slab, &self.store, ino)
    }

    fn check_out(&mut self, new_root_tree: Id) -> (r: Result<(), FsError>)
        ensures
            final(self).objects() == old(self).objects(),
            (final(self).slab(), outcome(r)) == switched(
                old(self).slab(),
                old(self).objects(),
                new_root_tree,
            ),
    {
        match read_tree(&self.store, &new_root_tree) {
            Err(e) => {
                return Err(e);
            },
            Ok(_) => {},
        }
        proof {
            keeps_rerooted(self.slab@, new_root_tree);
        }
        self.slab.swap_root(new_root_tree);
        Ok(())
    }

    fn create_file(
        &mut self,
        parent: InodeId,
        name: &str,
        executable: bool,
    ) -> (r: Result<(InodeId, Attr), FsError>)
        ensures
            final(self).objects() == old(self).objects(),
            (final(self).slab(), outcome(r)) == entry_added(
                old(self).slab(),
                old(self).objects(),
                parent,
                name@,
                NodeView::DirtyFile { content: seq![], executable },
            ),
    {
        let content: Vec<u8> = Vec::new();
        assert(content@ =~= seq![]);
        self.add_entry(parent, name, NodeRef::DirtyFile { content, executable })
    }

    fn mkdir(&mut self, parent: InodeId, name: &str) -> (r: Result<(InodeId, Attr), FsError>)
        ensures
            final(self).objects() == old(self).objects(),
            (final(self).slab(), outcome(r)) == entry_added(
                old(self).slab(),
                old(self).objects(),
                parent,
                name@,
                NodeView::DirtyTree(Map::empty()),
            ),
    {
        let children: NameMap<u64> = NameMap::new();
        self.add_entry(parent, name, NodeRef::DirtyTree { children })
    }

    fn symlink(
        &mut self,
        parent: InodeId,
        name: &str,
        target: &str,
    ) -> (r: Result<(InodeId, Attr), FsError>)
        ensures
            final(self).objects() == old(self).objects(),
            (final(self).slab(), outcome(r)) == entry_added(
                old(self).slab(),
                old(self).objects(),
                parent,
                name@,
                NodeView::DirtySymlink(target@),
            ),
    {
        self.add_entry(parent, name, NodeRef::DirtySymlink { target: target.to_owned() })
    }

    fn write(&mut self, ino: InodeId, offset: u64, data: &[u8]) -> (r: Result<u32, FsError>)
        ensures
            final(self).objects() == old(self).objects(),
            (final(self).slab(), outcome(r)) == bytes_written(
                old(self).slab(),
                old(self).objects(),
                ino,
                offset,
                data@,
            ),
    {
        match self.open_file(ino) {
            Err(e) => {
                return Err(e);
            },
            Ok(()) => {},
        }
        let ghost open = self.slab@;
        write_opened(&mut self.slab, ino, offset as usize, data);
        proof {
            keeps_with_node(open, ino, self.slab@.node(ino));
        }
        Ok(data.len() as u32)
    }

    fn setattr(
        &mut self,
        ino: InodeId,
        size: Option<u64>,
        executable: Option<bool>,
    ) -> (r: Result<Attr, FsError>)
        ensures
            final(self).objects() == old(self).objects(),
            (final(self).slab(), outcome(r)) == attr_changed(
                old(self).slab(),
                old(self).objects(),
                ino,
                size,
                executable,
            ),
    {
        if size.is_none() && executable.is_none() {
            return attr_for(&self.slab, &self.store, ino, 0);
        }
        match self.open_file(ino) {
            Err(e) => {
                return Err(e);
            },
            Ok(()) => {},
        }
        let ghost open = self.slab@;
        change_opened(&mut self.slab, ino, size, executable);
        proof {
            keeps_with_node(open, ino, self.slab@.node(ino));
        }
        attr_for(&self.slab, &self.store, ino, 0)
    }

    fn remove(&mut self, parent: InodeId, name: &str) -> (r: Result<(), FsError>)
        ensures
            final(self).objects() == old(self).objects(),
            (final(self).slab(), outcome(r)) == entry_removed(
                old(self).slab(),
                old(self).objects(),
                parent,
                name@,
            ),
    {
        match open_upward(&mut self.slab, &self.store, parent) {
            Err(e) => {
                return Err(e);
            },
            Ok(()) => {},
        }
        let ghost open = self.slab@;
        let r = remove_entry(&mut self.slab, &self.store, parent, name);
        proof {
            if r is Ok {
                let child = open.node(parent)->DirtyTree_0[name@];
                assert(open.attached(parent, name@, child));
                keeps_without_child(open, parent, name@, child);
            }
        }
        r
    }

    fn rename(
        &mut self,
        parent: InodeId,
        name: &str,
        new_parent: InodeId,
        new_name: &str,
    ) -> (r: Result<(), FsError>)
        ensures
            final(self).objects() == old(self).objects(),
            (final(self).slab(), outcome(r)) == entry_moved(
                old(self).slab(),
                old(self).objects(),
                parent,
                name@,
                new_parent,
                new_name@,
            ),
    {
        match open_upward(&mut self.slab, &self.store, parent) {
            Err(e) => {
                return Err(e);
            },
            Ok(()) => {},
        }
        if new_parent != parent {
            match open_upward(&mut self.slab, &self.store, new_parent) {
                Err(e) => {
                    return Err(e);
                },
                Ok(()) => {},
            }
        }
        proof {
            keeps_moved(self.slab@, self.store@, parent, name@, new_parent, new_name@);
        }
        match move_entry(&mut self.slab, &self.store, parent, name, new_parent, new_name) {
            Err(e) => Err(e),
            Ok(None) => Ok(()),
            Ok(Some(child)) => {
                let _ = self.slab.reparent(child, new_parent, new_name.to_owned());
                Ok(())
            },
        }
    }

    fn snapshot(&mut self) -> (r: Result<Id, FsError>)
        ensures
            stored_below_root(
                old(self).slab(),
                old(self).objects(),
                final(self).slab(),
                final(self).objects(),
                outcome(r),
            ),
    {
        let ghost before = self.slab@;
        let ghost first = self.store@;
        let ghost none = Set::<Seq<char>>::empty();
        let hidden: Vec<&str> = Vec::new();
        proof {
            assert(hidden_set(hidden@) =~= none);
            root_nameless(before);
            deep_below_nameless(before, none, ROOT_INODE);
            begin(before, none, first);
        }
        let r = snapshot_node(
            &mut self.slab,
            &mut self.store,
            &hidden,
            ROOT_INODE,
            Ghost(before),
            Ghost(first),
            Ghost(before.inodes.len()),
        );
        proof {
            lemma_in_progress(before, none, first, self.slab@, self.store@);
            keeps_settled(before, none, self.slab@);
        }
        r
    }
}

} // verus!
