//! The plain filesystem behind the adapters.
use vstd::prelude::*;
use crate::git_store::Objects;
use crate::ty::Id;
use crate::vfs::inode::{InodeId, NodeView, SlabView};
use crate::vfs::kiki_fs::JjKikiFs;
use crate::vfs::tree_ops::{attr_result, listing, looked_up, read_result, readlink_result};
use crate::vfs::types::{outcome, Attr, DirEntry, DirEntryView, ErrView, FsError};
use crate::vfs::yak_fs::{
    attr_changed, bytes_written, entry_added, entry_moved, entry_removed, in_place,
    stored_below_root, switched, YakFs,
};

verus! {

/// The state of a [`YakFs`].
pub struct YakView {
    pub slab: SlabView,
    pub objects: Objects,
}

impl YakView {
    /// The state with other inodes, and a result.
    pub open spec fn stepped<T>(self, step: (SlabView, Result<T, ErrView>)) -> (
        YakView,
        Result<T, ErrView>,
    ) {
        (YakView { slab: step.0, ..self }, step.1)
    }
}

/// The adapters serve it like any other filesystem. It redirects nothing and
/// has no modification times.
impl JjKikiFs for YakFs {
    type State = YakView;

    open spec fn state(&self) -> YakView {
        YakView { slab: self.slab(), objects: self.objects() }
    }

    open spec fn in_order(&self) -> bool {
        in_place(self.slab())
    }

    open spec fn lookup_step(s: YakView, parent: InodeId, name: Seq<char>) -> (
        YakView,
        Result<InodeId, ErrView>,
    ) {
        s.stepped(looked_up(s.slab, s.objects, parent, name))
    }

    open spec fn getattr_step(s: YakView, ino: InodeId) -> (YakView, Result<Attr, ErrView>) {
        (s, attr_result(s.slab, s.objects, ino, 0))
    }

    open spec fn read_step(s: YakView, ino: InodeId, offset: u64, count: u32) -> (
        YakView,
        Result<(Seq<u8>, bool), ErrView>,
    ) {
        (s, read_result(s.slab, s.objects, ino, offset, count))
    }

    open spec fn readdir_step(s: YakView, dir: InodeId) -> (
        YakView,
        Result<Seq<DirEntryView>, ErrView>,
    ) {
        s.stepped(listing(s.slab, s.objects, dir, Set::empty()))
    }

    open spec fn readlink_step(s: YakView, ino: InodeId) -> (YakView, Result<Seq<char>, ErrView>) {
        (s, readlink_result(s.slab, s.objects, ino))
    }

    open spec fn check_out_step(
        s: YakView,
        tree: Id,
        mtime: i64,
    ) -> (YakView, Result<(), ErrView>) {
        s.stepped(switched(s.slab, s.objects, tree))
    }

    open spec fn create_step(s: YakView, parent: InodeId, name: Seq<char>, executable: bool) -> (
        YakView,
        Result<(InodeId, Attr), ErrView>,
    ) {
        s.stepped(
            entry_added(
                s.slab,
                s.objects,
                parent,
                name,
                NodeView::DirtyFile { content: seq![], executable },
            ),
        )
    }

    open spec fn redirect_step(s: YakView, parent: InodeId, name: Seq<char>) -> (
        YakView,
        Option<Seq<char>>,
    ) {
        (s, None)
    }

    open spec fn mkdir_step(
        s: YakView,
        parent: InodeId,
        name: Seq<char>,
        fault: Option<Seq<char>>,
    ) -> (YakView, Result<(InodeId, Attr), ErrView>) {
        s.stepped(
            entry_added(s.slab, s.objects, parent, name, NodeView::DirtyTree(Map::empty())),
        )
    }

    open spec fn symlink_step(s: YakView, parent: InodeId, name: Seq<char>, target: Seq<char>) -> (
        YakView,
        Result<(InodeId, Attr), ErrView>,
    ) {
        s.stepped(entry_added(s.slab, s.objects, parent, name, NodeView::DirtySymlink(target)))
    }

    open spec fn write_step(s: YakView, ino: InodeId, offset: u64, data: Seq<u8>) -> (
        YakView,
        Result<u32, ErrView>,
    ) {
        s.stepped(bytes_written(s.slab, s.objects, ino, offset, data))
    }

    open spec fn setattr_step(
        s: YakView,
        ino: InodeId,
        size: Option<u64>,
        executable: Option<bool>,
    ) -> (YakView, Result<Attr, ErrView>) {
        s.stepped(attr_changed(s.slab, s.objects, ino, size, executable))
    }

    open spec fn remove_step(s: YakView, parent: InodeId, name: Seq<char>) -> (
        YakView,
        Result<(), ErrView>,
    ) {
        s.stepped(entry_removed(s.slab, s.objects, parent, name))
    }

    open spec fn rename_step(
        s: YakView,
        parent: InodeId,
        name: Seq<char>,
        new_parent: InodeId,
        new_name: Seq<char>,
    ) -> (YakView, Result<(), ErrView>) {
        s.stepped(entry_moved(s.slab, s.objects, parent, name, new_parent, new_name))
    }

    fn lookup(&mut self, parent: InodeId, name: &str) -> (r: Result<InodeId, FsError>)
    {
        <YakFs as crate::vfs::yak_fs::JjYakFs>::lookup(self, parent, name)
    }

    fn getattr(&mut self, ino: InodeId) -> (r: Result<Attr, FsError>)
    {
        <YakFs as crate::vfs::yak_fs::JjYakFs>::getattr(self, ino)
    }

    fn read(
        &mut self,
        ino: InodeId,
        offset: u64,
        count: u32,
    ) -> (r: Result<(Vec<u8>, bool), FsError>)
    {
        <YakFs as crate::vfs::yak_fs::JjYakFs>::read(self, ino, offset, count)
    }

    fn readdir(&mut self, dir: InodeId) -> (r: Result<Vec<DirEntry>, FsError>)
    {
        <YakFs as crate::vfs::yak_fs::JjYakFs>::readdir(self, dir)
    }

    fn readlink(&mut self, ino: InodeId) -> (r: Result<String, FsError>)
    {
        <YakFs as crate::vfs::yak_fs::JjYakFs>::readlink(self, ino)
    }

    fn check_out(&mut self, new_root_tree: Id, commit_mtime_secs: i64) -> (r: Result<(), FsError>)
    {
        <YakFs as crate::vfs::yak_fs::JjYakFs>::check_out(self, new_root_tree)
    }

    fn create_file(
        &mut self,
        parent: InodeId,
        name: &str,
        executable: bool,
    ) -> (r: Result<(InodeId, Attr), FsError>)
    {
        <YakFs as crate::vfs::yak_fs::JjYakFs>::create_file(self, parent, name, executable)
    }

    fn mkdir(
        &mut self,
        parent: InodeId,
        name: &str,
        scratch_fault: Option<String>,
    ) -> (r: Result<(InodeId, Attr), FsError>)
    {
        <YakFs as crate::vfs::yak_fs::JjYakFs>::mkdir(self, parent, name)
    }

    fn symlink(
        &mut self,
        parent: InodeId,
        name: &str,
        target: &str,
    ) -> (r: Result<(InodeId, Attr), FsError>)
    {
        <YakFs as crate::vfs::yak_fs::JjYakFs>::symlink(self, parent, name, target)
    }

    fn write(&mut self, ino: InodeId, offset: u64, data: &[u8]) -> (r: Result<u32, FsError>)
    {
        <YakFs as crate::vfs::yak_fs::JjYakFs>::write(self, ino, offset, data)
    }

    fn setattr(
        &mut self,
        ino: InodeId,
        size: Option<u64>,
        executable: Option<bool>,
    ) -> (r: Result<Attr, FsError>)
    {
        <YakFs as crate::vfs::yak_fs::JjYakFs>::setattr(self, ino, size, executable)
    }

    fn remove(&mut self, parent: InodeId, name: &str) -> (r: Result<(), FsError>)
    {
        <YakFs as crate::vfs::yak_fs::JjYakFs>::remove(self, parent, name)
    }

    fn rename(
        &mut self,
        parent: InodeId,
        name: &str,
        new_parent: InodeId,
        new_name: &str,
    ) -> (r: Result<(), FsError>)
    {
        <YakFs as crate::vfs::yak_fs::JjYakFs>::rename(self, parent, name, new_parent, new_name)
    }

    fn snapshot(&mut self) -> (r: Result<Id, FsError>)
        ensures
            stored_below_root(
                old(self).slab(),
                old(self).objects(),
                final(self).slab(),
                final(self).objects(),
                outcome(r),
            ),
    {
        <YakFs as crate::vfs::yak_fs::JjYakFs>::snapshot(self)
    }

    fn redirect_target(&mut self, parent: InodeId, name: &str) -> (r: Option<String>)
    {
        None
    }
}

} // verus!
