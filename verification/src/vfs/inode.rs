//! Inode slab: the state behind the filesystem.
//!
//! Every directory entry that is looked up is interned, so that a later
//! request on the same id resolves to the same node. Ids are handed out in
//! ascending order and never reused.
//!
//! A node is clean or dirty. A clean node points at an [`Id`] in the content
//! store; a dirty one holds the in-memory state that writes change. A snapshot
//! turns dirty nodes back into clean ones.
use std::collections::HashMap;
use vstd::prelude::*;
use crate::ty::Id;
use crate::vfs::name_map::NameMap;

verus! {

broadcast use {vstd::string::group_string_axioms, vstd::std_specs::hash::group_hash_axioms};

/// Inode id.
pub type InodeId = u64;

/// Inode id of the root directory.
pub const ROOT_INODE: InodeId = 1;

/// What an inode points at.
#[derive(Debug)]
pub enum NodeRef {
    /// Clean directory.
    Tree(Id),
    /// Modified directory: the live map from names to child inodes.
    DirtyTree { children: NameMap<u64> },
    /// Clean regular file.
    File { id: Id, executable: bool },
    /// Modified file: the live byte buffer.
    DirtyFile { content: Vec<u8>, executable: bool },
    /// Clean symlink.
    Symlink(Id),
    /// Modified symlink.
    DirtySymlink { target: String },
}

/// The value of a [`NodeRef`].
pub enum NodeView {
    Tree(Id),
    DirtyTree(Map<Seq<char>, InodeId>),
    File { id: Id, executable: bool },
    DirtyFile { content: Seq<u8>, executable: bool },
    Symlink(Id),
    DirtySymlink(Seq<char>),
}

impl NodeView {
    /// The node holds in-memory state.
    pub open spec fn is_dirty(self) -> bool {
        self is DirtyTree || self is DirtyFile || self is DirtySymlink
    }

    /// The node is a directory.
    pub open spec fn is_dir(self) -> bool {
        self is Tree || self is DirtyTree
    }
}

impl View for NodeRef {
    type V = NodeView;

    open spec fn view(&self) -> NodeView {
        match self {
            NodeRef::Tree(id) => NodeView::Tree(*id),
            NodeRef::DirtyTree { children } => NodeView::DirtyTree(children@),
            NodeRef::File { id, executable } => NodeView::File { id: *id, executable: *executable },
            NodeRef::DirtyFile { content, executable } => NodeView::DirtyFile {
                content: content@,
                executable: *executable,
            },
            NodeRef::Symlink(id) => NodeView::Symlink(*id),
            NodeRef::DirtySymlink { target } => NodeView::DirtySymlink(target@),
        }
    }
}

impl NodeRef {
    /// A copy of the node.
    pub fn copy(&self) -> (n: NodeRef)
        ensures
            n@ == self@,
    {
        match self {
            NodeRef::Tree(id) => NodeRef::Tree(*id),
            NodeRef::DirtyTree { children } => NodeRef::DirtyTree { children: children.copy() },
            NodeRef::File { id, executable } => NodeRef::File { id: *id, executable: *executable },
            NodeRef::DirtyFile { content, executable } => NodeRef::DirtyFile {
                content: crate::text::copy_bytes(content.as_slice()),
                executable: *executable,
            },
            NodeRef::Symlink(id) => NodeRef::Symlink(*id),
            NodeRef::DirtySymlink { target } => NodeRef::DirtySymlink { target: target.clone() },
        }
    }

    /// Whether the node holds in-memory state.
    pub fn is_dirty(&self) -> (r: bool)
        ensures
            r == self@.is_dirty(),
    {
        matches!(
            self,
            NodeRef::DirtyTree { .. } | NodeRef::DirtyFile { .. } | NodeRef::DirtySymlink { .. }
        )
    }

    /// Whether the node is a directory.
    pub fn is_dir(&self) -> (r: bool)
        ensures
            r == self@.is_dir(),
    {
        matches!(self, NodeRef::Tree(_) | NodeRef::DirtyTree { .. })
    }
}

/// One inode.
#[derive(Debug)]
pub struct Inode {
    /// Parent inode. The root inode is its own parent.
    pub parent: InodeId,
    /// Component name within the parent directory. Empty for the root.
    pub name: String,
    pub node: NodeRef,
    /// The entry matched an ignore rule when it was made, so snapshots leave
    /// it out.
    pub ignored: bool,
}

/// The value of an [`Inode`].
pub struct InodeView {
    pub parent: InodeId,
    pub name: Seq<char>,
    pub node: NodeView,
    pub ignored: bool,
}

impl View for Inode {
    type V = InodeView;

    open spec fn view(&self) -> InodeView {
        InodeView {
            parent: self.parent,
            name: self.name@,
            node: self.node@,
            ignored: self.ignored,
        }
    }
}

impl Inode {
    /// A copy of the inode.
    pub fn copy(&self) -> (i: Inode)
        ensures
            i@ == self@,
    {
        Inode {
            parent: self.parent,
            name: self.name.clone(),
            node: self.node.copy(),
            ignored: self.ignored,
        }
    }
}

/// The value of a slab: the inodes in the order of their ids, from
/// [`ROOT_INODE`] on, and the inode that each looked-up name leads to.
#[verifier::ext_equal]
pub struct SlabView {
    pub inodes: Seq<InodeView>,
    pub by_parent: Map<(InodeId, Seq<char>), InodeId>,
}

impl SlabView {
    /// The slab holds an inode of this id.
    pub open spec fn has(self, id: InodeId) -> bool {
        1 <= id <= self.inodes.len()
    }

    /// The inode of this id.
    pub open spec fn at(self, id: InodeId) -> InodeView {
        self.inodes[id - 1]
    }

    /// The node of this id.
    pub open spec fn node(self, id: InodeId) -> NodeView {
        self.at(id).node
    }

    /// The id that the next inode gets.
    pub open spec fn next_id(self) -> nat {
        self.inodes.len() + 1
    }

    /// The slab with another node under `id`.
    pub open spec fn with_node(self, id: InodeId, node: NodeView) -> SlabView {
        SlabView {
            inodes: self.inodes.update(id - 1, InodeView { node, ..self.at(id) }),
            by_parent: self.by_parent,
        }
    }

    /// The slab with one more inode, reachable by no name.
    pub open spec fn with_inode(self, inode: InodeView) -> SlabView {
        SlabView { inodes: self.inodes.push(inode), by_parent: self.by_parent }
    }

    /// The slab after `(parent, name)` was interned with `node`: an entry that
    /// is known already stays as it is.
    pub open spec fn interned(self, parent: InodeId, name: Seq<char>, node: NodeView) -> SlabView {
        if self.by_parent.contains_key((parent, name)) {
            self
        } else {
            SlabView {
                inodes: self.inodes.push(InodeView { parent, name, node, ignored: false }),
                by_parent: self.by_parent.insert((parent, name), self.next_id() as InodeId),
            }
        }
    }

    /// The inode that an interned `(parent, name)` leads to.
    pub open spec fn interned_id(self, parent: InodeId, name: Seq<char>) -> InodeId {
        if self.by_parent.contains_key((parent, name)) {
            self.by_parent[(parent, name)]
        } else {
            self.next_id() as InodeId
        }
    }

    /// The slab after the node of a tree entry was brought in under `dir`: a
    /// new name is interned, and a known one takes the entry's node unless it
    /// is dirty.
    pub open spec fn refreshed(self, dir: InodeId, name: Seq<char>, node: NodeView) -> SlabView {
        if !self.by_parent.contains_key((dir, name)) {
            self.interned(dir, name, node)
        } else {
            let id = self.by_parent[(dir, name)];
            if self.has(id) && !self.node(id).is_dirty() {
                self.with_node(id, node)
            } else {
                self
            }
        }
    }

    /// The slab after every entry of a tree was brought in under `dir`, in order.
    pub open spec fn loaded(self, dir: InodeId, entries: Seq<(Seq<char>, NodeView)>) -> SlabView
        decreases entries.len(),
    {
        if entries.len() == 0 {
            self
        } else {
            let (name, node) = entries.last();
            self.loaded(dir, entries.drop_last()).refreshed(dir, name, node)
        }
    }

    /// The children of `dir` after [`Self::loaded`].
    pub open spec fn loaded_children(
        self,
        dir: InodeId,
        entries: Seq<(Seq<char>, NodeView)>,
    ) -> Map<Seq<char>, InodeId>
        decreases entries.len(),
    {
        if entries.len() == 0 {
            Map::empty()
        } else {
            let (name, node) = entries.last();
            let before = self.loaded(dir, entries.drop_last());
            self.loaded_children(dir, entries.drop_last()).insert(
                name,
                before.interned_id(dir, name),
            )
        }
    }

    /// The slab after the clean directory `dir` was opened for changes.
    pub open spec fn materialized(
        self,
        dir: InodeId,
        entries: Seq<(Seq<char>, NodeView)>,
    ) -> SlabView {
        self.loaded(dir, entries).with_node(
            dir,
            NodeView::DirtyTree(self.loaded_children(dir, entries)),
        )
    }

    /// `name` in the modified directory `parent` leads to `child`.
    pub open spec fn attached(self, parent: InodeId, name: Seq<char>, child: InodeId) -> bool {
        &&& self.has(parent)
        &&& self.node(parent) matches NodeView::DirtyTree(children)
        &&& children.contains_key(name)
        &&& children[name] == child
    }

    /// A child can be attached under `name`: `parent` is a modified directory
    /// without that name.
    pub open spec fn can_attach(self, parent: InodeId, name: Seq<char>) -> bool {
        &&& self.has(parent)
        &&& self.node(parent) matches NodeView::DirtyTree(children)
        &&& !children.contains_key(name)
    }

    /// The slab after `child` was attached under `(parent, name)`.
    pub open spec fn with_child(
        self,
        parent: InodeId,
        name: Seq<char>,
        child: InodeId,
    ) -> SlabView {
        SlabView {
            inodes: self.with_node(
                parent,
                NodeView::DirtyTree(self.node(parent)->DirtyTree_0.insert(name, child)),
            ).inodes,
            by_parent: self.by_parent.insert((parent, name), child),
        }
    }

    /// The slab after `(parent, name)` was detached.
    pub open spec fn without_child(self, parent: InodeId, name: Seq<char>) -> SlabView {
        SlabView {
            inodes: self.with_node(
                parent,
                NodeView::DirtyTree(self.node(parent)->DirtyTree_0.remove(name)),
            ).inodes,
            by_parent: self.by_parent.remove((parent, name)),
        }
    }

    /// The slab after `child` was told its new place.
    pub open spec fn reparented(
        self,
        child: InodeId,
        parent: InodeId,
        name: Seq<char>,
    ) -> SlabView {
        SlabView {
            inodes: self.inodes.update(child - 1, InodeView { parent, name, ..self.at(child) }),
            by_parent: self.by_parent,
        }
    }

    /// The slab re-rooted at another tree: the root starts over, and only the
    /// names directly below the root are forgotten.
    pub open spec fn rerooted(self, root_tree: Id) -> SlabView {
        SlabView {
            inodes: self.inodes.update(
                ROOT_INODE - 1,
                InodeView {
                    parent: ROOT_INODE,
                    name: Seq::empty(),
                    node: NodeView::Tree(root_tree),
                    ignored: false,
                },
            ),
            by_parent: Map::new(
                |k: (InodeId, Seq<char>)| self.by_parent.contains_key(k) && k.0 != ROOT_INODE,
                |k: (InodeId, Seq<char>)| self.by_parent[k],
            ),
        }
    }
}

/// The names under each parent that have been looked up.
#[derive(Debug)]
struct ParentIndex {
    parents: HashMap<u64, NameMap<u64>>,
}

impl View for ParentIndex {
    type V = Map<(InodeId, Seq<char>), InodeId>;

    closed spec fn view(&self) -> Map<(InodeId, Seq<char>), InodeId> {
        Map::new(
            |k: (InodeId, Seq<char>)|
                self.parents@.contains_key(k.0) && self.parents@[k.0]@.contains_key(k.1),
            |k: (InodeId, Seq<char>)| self.parents@[k.0]@[k.1],
        )
    }
}

impl ParentIndex {
    fn new() -> (p: ParentIndex)
        ensures
            p@ == Map::<(InodeId, Seq<char>), InodeId>::empty(),
    {
        let p = ParentIndex { parents: HashMap::new() };
        assert(p@ =~= Map::<(InodeId, Seq<char>), InodeId>::empty());
        p
    }

    fn get(&self, parent: InodeId, name: &str) -> (r: Option<InodeId>)
        ensures
            r == (if self@.contains_key((parent, name@)) {
                Some(self@[(parent, name@)])
            } else {
                None
            }),
    {
        match self.parents.get(&parent) {
            Some(names) => match names.get(name) {
                Some(id) => Some(*id),
                None => None,
            },
            None => None,
        }
    }

    fn insert(&mut self, parent: InodeId, name: String, id: InodeId)
        ensures
            final(self)@ == old(self)@.insert((parent, name@), id),
    {
        let ghost before = self@;
        let ghost key = (parent, name@);
        let mut names = match self.parents.remove(&parent) {
            Some(names) => names,
            None => NameMap::new(),
        };
        names.insert(name, id);
        self.parents.insert(parent, names);
        assert(self@ =~= before.insert(key, id));
    }

    fn remove(&mut self, parent: InodeId, name: &str)
        ensures
            final(self)@ == old(self)@.remove((parent, name@)),
    {
        let ghost before = self@;
        match self.parents.remove(&parent) {
            Some(mut names) => {
                let _ = names.remove(name);
                self.parents.insert(parent, names);
            },
            None => {},
        }
        assert(self@ =~= before.remove((parent, name@)));
    }

    fn forget(&mut self, parent: InodeId)
        ensures
            final(self)@ == Map::new(
                |k: (InodeId, Seq<char>)| old(self)@.contains_key(k) && k.0 != parent,
                |k: (InodeId, Seq<char>)| old(self)@[k],
            ),
    {
        let ghost before = self@;
        let _ = self.parents.remove(&parent);
        assert(self@ =~= Map::new(
            |k: (InodeId, Seq<char>)| before.contains_key(k) && k.0 != parent,
            |k: (InodeId, Seq<char>)| before[k],
        ));
    }
}

/// The value of a list of tree entries.
pub open spec fn entries_view(entries: Seq<(String, NodeRef)>) -> Seq<(Seq<char>, NodeView)> {
    entries.map_values(|e: (String, NodeRef)| (e.0@, e.1@))
}

/// All inodes of one mount.
#[derive(Debug)]
pub struct InodeSlab {
    inodes: Vec<Inode>,
    by_parent: ParentIndex,
}

impl View for InodeSlab {
    type V = SlabView;

    closed spec fn view(&self) -> SlabView {
        SlabView {
            inodes: self.inodes@.map_values(|i: Inode| i@),
            by_parent: self.by_parent@,
        }
    }
}

impl InodeSlab {
    /// A slab that holds the root alone.
    pub fn new(root_tree: Id) -> (slab: InodeSlab)
        ensures
            slab@.inodes == seq![
                InodeView {
                    parent: ROOT_INODE,
                    name: Seq::empty(),
                    node: NodeView::Tree(root_tree),
                    ignored: false,
                },
            ],
            slab@.by_parent == Map::<(InodeId, Seq<char>), InodeId>::empty(),
    {
        let mut inodes: Vec<Inode> = Vec::new();
        inodes.push(
            Inode {
                parent: ROOT_INODE,
                name: String::new(),
                node: NodeRef::Tree(root_tree),
                ignored: false,
            },
        );
        let slab = InodeSlab { inodes, by_parent: ParentIndex::new() };
        assert(slab@.inodes =~= seq![
            InodeView {
                parent: ROOT_INODE,
                name: Seq::empty(),
                node: NodeView::Tree(root_tree),
                ignored: false,
            },
        ]);
        slab
    }

    /// The number of inodes; the next one gets the number after it.
    pub fn len(&self) -> (n: usize)
        ensures
            n == self@.inodes.len(),
    {
        self.inodes.len()
    }

    /// Ids fit their type.
    pub proof fn lemma_ids_fit(&self)
        ensures
            self@.inodes.len() <= u64::MAX,
    {
        assert(self.inodes@.len() == self.inodes.len());
    }

    fn slot(&self, id: InodeId) -> (r: Option<usize>)
        ensures
            match r {
                Some(i) => self@.has(id) && i == id - 1 && i < self.inodes@.len(),
                None => !self@.has(id),
            },
    {
        if id >= 1 && id <= self.inodes.len() as u64 {
            Some((id - 1) as usize)
        } else {
            None
        }
    }

    /// The inode of this id, in place.
    pub fn inode(&self, id: InodeId) -> (r: Option<&Inode>)
        ensures
            match r {
                Some(i) => self@.has(id) && i@ == self@.at(id),
                None => !self@.has(id),
            },
    {
        match self.slot(id) {
            Some(i) => Some(&self.inodes[i]),
            None => None,
        }
    }

    /// A copy of the inode of this id.
    pub fn get(&self, id: InodeId) -> (r: Option<Inode>)
        ensures
            match r {
                Some(i) => self@.has(id) && i@ == self@.at(id),
                None => !self@.has(id),
            },
    {
        match self.inode(id) {
            Some(i) => Some(i.copy()),
            None => None,
        }
    }

    /// Put another node under an existing inode. Returns `false` if the slab
    /// holds no such inode.
    pub fn replace_node(&mut self, id: InodeId, node: NodeRef) -> (r: bool)
        ensures
            r == old(self)@.has(id),
            final(self)@ == (if r {
                old(self)@.with_node(id, node@)
            } else {
                old(self)@
            }),
    {
        match self.slot(id) {
            Some(i) => {
                let ghost before = self@;
                let ghost value = node@;
                let slot = &mut self.inodes[i];
                slot.node = node;
                assert(self@.inodes =~= before.with_node(id, value).inodes);
                true
            },
            None => false,
        }
    }

    /// Re-root the slab at `new_root_tree`. Inodes below the old root stay,
    /// reachable by no name under the root, and names below other directories
    /// stay known.
    pub fn swap_root(&mut self, new_root_tree: Id)
        requires
            old(self)@.has(ROOT_INODE),
        ensures
            final(self)@ == old(self)@.rerooted(new_root_tree),
    {
        let ghost before = self@;
        let root = Inode {
            parent: ROOT_INODE,
            name: String::new(),
            node: NodeRef::Tree(new_root_tree),
            ignored: false,
        };
        self.inodes.set(0, root);
        self.by_parent.forget(ROOT_INODE);
        assert(self@ =~= before.rerooted(new_root_tree));
    }

    /// Add an inode that no name leads to.
    pub fn alloc_with_ignored(
        &mut self,
        parent: InodeId,
        name: String,
        node: NodeRef,
        ignored: bool,
    ) -> (id: InodeId)
        ensures
            id == old(self)@.next_id(),
            final(self)@ == old(self)@.with_inode(
                InodeView { parent, name: name@, node: node@, ignored },
            ),
    {
        let ghost before = self@;
        let ghost value = InodeView { parent, name: name@, node: node@, ignored };
        self.inodes.push(Inode { parent, name, node, ignored });
        assert(self@ =~= before.with_inode(value));
        self.inodes.len() as u64
    }

    /// Add an inode that no name leads to and no ignore rule covers.
    pub fn alloc_inode(&mut self, parent: InodeId, name: String, node: NodeRef) -> (id: InodeId)
        ensures
            id == old(self)@.next_id(),
            final(self)@ == old(self)@.with_inode(
                InodeView { parent, name: name@, node: node@, ignored: false },
            ),
    {
        self.alloc_with_ignored(parent, name, node, false)
    }

    /// Resolve a child by name under `parent`, adding an inode if the pair has
    /// not been seen before.
    pub fn intern(&mut self, parent: InodeId, name: &str, node: NodeRef) -> (id: InodeId)
        ensures
            id == old(self)@.interned_id(parent, name@),
            final(self)@ == old(self)@.interned(parent, name@, node@),
    {
        match self.by_parent.get(parent, name) {
            Some(id) => id,
            None => {
                let ghost before = self@;
                let ghost value = node@;
                let id = self.alloc_with_ignored(parent, name.to_owned(), node, false);
                self.by_parent.insert(parent, name.to_owned(), id);
                assert(self@ =~= before.interned(parent, name@, value));
                id
            },
        }
    }

    /// Resolve a child by name under `parent`. `make_node` runs only if the
    /// pair has not been seen before; otherwise the known inode is returned as
    /// it is.
    pub fn intern_child<F: FnOnce() -> NodeRef>(
        &mut self,
        parent: InodeId,
        name: &str,
        make_node: F,
    ) -> (id: InodeId)
        requires
            !old(self)@.by_parent.contains_key((parent, name@)) ==> make_node.requires(()),
        ensures
            id == old(self)@.interned_id(parent, name@),
            old(self)@.by_parent.contains_key((parent, name@)) ==> final(self)@ == old(self)@,
            !old(self)@.by_parent.contains_key((parent, name@)) ==> exists|node: NodeRef|
                make_node.ensures((), node) && final(self)@ == old(self)@.interned(
                    parent,
                    name@,
                    #[trigger] node@,
                ),
    {
        match self.by_parent.get(parent, name) {
            Some(id) => id,
            None => {
                let node = make_node();
                let ghost made = node;
                let id = self.intern(parent, name, node);
                assert(make_node.ensures((), made));
                id
            },
        }
    }

    /// Bring in one tree entry under `dir`.
    fn refresh(&mut self, dir: InodeId, name: &str, node: NodeRef) -> (id: InodeId)
        ensures
            id == old(self)@.interned_id(dir, name@),
            final(self)@ == old(self)@.refreshed(dir, name@, node@),
    {
        match self.by_parent.get(dir, name) {
            Some(id) => {
                match self.slot(id) {
                    Some(i) => {
                        if !self.inodes[i].node.is_dirty() {
                            let _ = self.replace_node(id, node);
                        }
                    },
                    None => {},
                }
                id
            },
            None => self.intern(dir, name, node),
        }
    }

    /// Open a directory for changes with the entries of its tree.
    ///
    /// A clean directory becomes a modified one: each entry gets an inode, the
    /// one it has already where it was looked up before, and a child that is
    /// dirty keeps its state. A modified directory stays as it is. Returns the
    /// children, or `None` if `dir` is no directory.
    pub fn materialize(&mut self, dir: InodeId, entries: Vec<(String, NodeRef)>) -> (r: Option<
        NameMap<u64>,
    >)
        ensures
            old(self)@.has(dir) && old(self)@.node(dir) is Tree ==> {
                &&& final(self)@ == old(self)@.materialized(dir, entries_view(entries@))
                &&& r matches Some(c) && c@ == old(self)@.loaded_children(
                    dir,
                    entries_view(entries@),
                )
            },
            old(self)@.has(dir) && old(self)@.node(dir) is DirtyTree ==> {
                &&& final(self)@ == old(self)@
                &&& r matches Some(c) && c@ == old(self)@.node(dir)->DirtyTree_0
            },
            !(old(self)@.has(dir) && old(self)@.node(dir).is_dir()) ==> final(self)@ == old(self)@
                && r is None,
    {
        let i = match self.slot(dir) {
            Some(i) => i,
            None => {
                return None;
            },
        };
        match &self.inodes[i].node {
            NodeRef::DirtyTree { children } => {
                return Some(children.copy());
            },
            NodeRef::Tree(_) => {},
            _ => {
                return None;
            },
        }
        let ghost before = self@;
        let ghost listed = entries@;
        let ghost all = entries_view(entries@);
        let mut children = NameMap::new();
        for entry in it: entries
            invariant
                it.seq() == listed,
                all == entries_view(listed),
                before.has(dir),
                self@ == before.loaded(dir, all.take(it.index() as int)),
                children@ == before.loaded_children(dir, all.take(it.index() as int)),
        {
            let ghost k = it.index();
            let (name, node) = entry;
            proof {
                let longer = all.take(k + 1);
                assert(longer.drop_last() =~= all.take(k as int));
                assert(longer.last() == (name@, node@));
            }
            let id = self.refresh(dir, name.as_str(), node);
            children.insert(name, id);
        }
        proof {
            assert(all.take(all.len() as int) =~= all);
            lemma_loaded_keeps(before, dir, all, dir);
        }
        let result = children.copy();
        let _ = self.replace_node(dir, NodeRef::DirtyTree { children });
        Some(result)
    }

    /// Open a directory for changes; `load_entries` gives the entries of its
    /// tree and runs only if the directory is clean.
    pub fn materialize_dir_for_mutation<F: FnOnce() -> Vec<(String, NodeRef)>>(
        &mut self,
        dir: InodeId,
        load_entries: F,
    ) -> (r: Option<NameMap<u64>>)
        requires
            old(self)@.has(dir) && old(self)@.node(dir) is Tree ==> load_entries.requires(()),
        ensures
            old(self)@.has(dir) && old(self)@.node(dir) is Tree ==> exists|
                entries: Vec<(String, NodeRef)>,
            |
                {
                    &&& load_entries.ensures((), entries)
                    &&& final(self)@ == old(self)@.materialized(
                        dir,
                        #[trigger] entries_view(entries@),
                    )
                    &&& r matches Some(c) && c@ == old(self)@.loaded_children(
                        dir,
                        entries_view(entries@),
                    )
                },
            old(self)@.has(dir) && old(self)@.node(dir) is DirtyTree ==> {
                &&& final(self)@ == old(self)@
                &&& r matches Some(c) && c@ == old(self)@.node(dir)->DirtyTree_0
            },
            !(old(self)@.has(dir) && old(self)@.node(dir).is_dir()) ==> final(self)@ == old(self)@
                && r is None,
    {
        let clean = match self.inode(dir) {
            Some(inode) => matches!(inode.node, NodeRef::Tree(_)),
            None => false,
        };
        if clean {
            let entries = load_entries();
            let ghost given = entries;
            let r = self.materialize(dir, entries);
            assert(load_entries.ensures((), given));
            r
        } else {
            self.materialize(dir, Vec::new())
        }
    }

    /// Add a child to a modified directory. Returns `false` if `parent` is not
    /// a modified directory or has the name already.
    pub fn attach_child(&mut self, parent: InodeId, name: String, child: InodeId) -> (r: bool)
        ensures
            r == old(self)@.can_attach(parent, name@),
            final(self)@ == (if r {
                old(self)@.with_child(parent, name@, child)
            } else {
                old(self)@
            }),
    {
        let i = match self.slot(parent) {
            Some(i) => i,
            None => {
                return false;
            },
        };
        let ghost before = self@;
        let ghost key = name@;
        let mut children = match &self.inodes[i].node {
            NodeRef::DirtyTree { children } => {
                if children.get(name.as_str()).is_some() {
                    return false;
                }
                children.copy()
            },
            _ => {
                return false;
            },
        };
        children.insert(name.clone(), child);
        let _ = self.replace_node(parent, NodeRef::DirtyTree { children });
        self.by_parent.insert(parent, name, child);
        assert(self@ =~= before.with_child(parent, key, child));
        true
    }

    /// Tell an inode its new place. Returns `false` if the slab holds no such
    /// inode.
    pub fn reparent(&mut self, child: InodeId, new_parent: InodeId, new_name: String) -> (r: bool)
        ensures
            r == old(self)@.has(child),
            final(self)@ == (if r {
                old(self)@.reparented(child, new_parent, new_name@)
            } else {
                old(self)@
            }),
    {
        match self.slot(child) {
            Some(i) => {
                let ghost before = self@;
                let ghost name = new_name@;
                let slot = &mut self.inodes[i];
                slot.parent = new_parent;
                slot.name = new_name;
                assert(self@.inodes =~= before.reparented(child, new_parent, name).inodes);
                true
            },
            None => false,
        }
    }

    /// Remove a child from a modified directory, and return it. The inode
    /// itself stays.
    pub fn detach_child(&mut self, parent: InodeId, name: &str) -> (r: Option<InodeId>)
        ensures
            match r {
                Some(child) => {
                    &&& old(self)@.attached(parent, name@, child)
                    &&& final(self)@ == old(self)@.without_child(parent, name@)
                },
                None => {
                    &&& forall|child: InodeId| !old(self)@.attached(parent, name@, child)
                    &&& final(self)@ == old(self)@
                },
            },
    {
        let i = match self.slot(parent) {
            Some(i) => i,
            None => {
                return None;
            },
        };
        let ghost before = self@;
        let mut children = match &self.inodes[i].node {
            NodeRef::DirtyTree { children } => {
                if children.get(name).is_none() {
                    return None;
                }
                children.copy()
            },
            _ => {
                return None;
            },
        };
        let child = children.remove(name);
        let _ = self.replace_node(parent, NodeRef::DirtyTree { children });
        self.by_parent.remove(parent, name);
        assert(self@ =~= before.without_child(parent, name@));
        child
    }
}

/// Bringing in entries keeps every inode, and its place in the tree.
pub proof fn lemma_loaded_keeps(
    slab: SlabView,
    dir: InodeId,
    entries: Seq<(Seq<char>, NodeView)>,
    id: InodeId,
)
    requires
        slab.has(id),
    ensures
        slab.loaded(dir, entries).has(id),
        slab.loaded(dir, entries).at(id).parent == slab.at(id).parent,
        slab.loaded(dir, entries).at(id).name == slab.at(id).name,
        slab.loaded(dir, entries).at(id).ignored == slab.at(id).ignored,
        slab.node(id).is_dirty() ==> slab.loaded(dir, entries).node(id) == slab.node(id),
        slab.inodes.len() <= slab.loaded(dir, entries).inodes.len(),
    decreases entries.len(),
{
    if entries.len() > 0 {
        lemma_loaded_keeps(slab, dir, entries.drop_last(), id);
    }
}

} // verus!
