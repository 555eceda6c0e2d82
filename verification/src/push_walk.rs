//! Bringing a remote up to date with a tree.
//!
//! A walk visits every object that can be reached from a root tree and has the
//! remote asked whether it holds the object; what it lacks is pushed. Trees are
//! visited once. The walk only decides: who drives it talks to the remote.
use vstd::prelude::*;
use crate::git_store::{
    tree_at, tree_view, EntryView, GitContentStore, GitEntryKind, Objects, StoreFault, EMPTY_TREE,
};
use crate::remote::BlobKind;
use crate::sorted_map::SortedMap;
use crate::text::{concat3, hex, hex_encode};
use crate::ty::{id_ext, Id};

verus! {

/// What a walk asks for.
#[derive(Clone, Copy, Debug)]
pub enum PushStep {
    /// See to it that the remote has this object.
    Offer { kind: BlobKind, id: Id },
    /// Every object has been offered.
    Done,
}

/// An object that a remote is to have.
pub type Offered = (BlobKind, Id);

/// The state of a [`PushWalk`].
#[verifier::ext_equal]
pub struct PushView {
    /// Where the walk began.
    pub root: Id,
    /// The trees that were taken up.
    pub seen: Set<Id>,
    /// The trees that are still to be taken up, the next one last.
    pub trees: Seq<Id>,
    /// The blobs that are still to be offered, the next one last.
    pub blobs: Seq<Id>,
    /// The object on offer.
    pub pending: Option<Offered>,
    /// The tree that is offered but not yet looked into.
    pub opening: Option<Id>,
    /// The objects that the remote has.
    pub settled: Set<Offered>,
    /// The entries of the trees that were looked into.
    pub opened: Map<Id, Seq<EntryView>>,
}

/// The subtrees among entries.
pub open spec fn subtrees(entries: Seq<EntryView>) -> Seq<Id>
    decreases entries.len(),
{
    if entries.len() == 0 {
        seq![]
    } else {
        let front = subtrees(entries.drop_last());
        match entries.last().kind {
            GitEntryKind::Tree => front.push(entries.last().id),
            _ => front,
        }
    }
}

/// The files and symlinks among entries, the first one last.
pub open spec fn leaves(entries: Seq<EntryView>) -> Seq<Id>
    decreases entries.len(),
{
    if entries.len() == 0 {
        seq![]
    } else {
        let rest = leaves(entries.skip(1));
        match entries[0].kind {
            GitEntryKind::File { .. } => rest.push(entries[0].id),
            GitEntryKind::Symlink => rest.push(entries[0].id),
            _ => rest,
        }
    }
}

/// The stack without what was seen on top of it, and the tree below that.
pub open spec fn next_tree(trees: Seq<Id>, seen: Set<Id>) -> (Seq<Id>, Option<Id>)
    decreases trees.len(),
{
    if trees.len() == 0 {
        (trees, None)
    } else if seen.contains(trees.last()) {
        next_tree(trees.drop_last(), seen)
    } else {
        (trees.drop_last(), Some(trees.last()))
    }
}

/// The object that an entry makes reachable.
pub open spec fn entry_object(e: EntryView) -> Option<Offered> {
    match e.kind {
        GitEntryKind::Tree => Some((BlobKind::Tree, e.id)),
        GitEntryKind::File { .. } => Some((BlobKind::Blob, e.id)),
        GitEntryKind::Symlink => Some((BlobKind::Blob, e.id)),
        GitEntryKind::Submodule => None,
    }
}

impl PushView {
    /// A walk that has not begun.
    pub open spec fn fresh(root: Id) -> PushView {
        PushView {
            root,
            seen: Set::empty(),
            trees: seq![root],
            blobs: seq![],
            pending: None,
            opening: None,
            settled: Set::empty(),
            opened: Map::empty(),
        }
    }

    /// Nothing is on offer and no tree is to be looked into.
    pub open spec fn idle(self) -> bool {
        self.pending is None && self.opening is None
    }

    /// Nothing is left to do.
    pub open spec fn finished(self) -> bool {
        self.idle() && self.trees.len() == 0 && self.blobs.len() == 0
    }

    /// The next step: blobs of the tree that was opened last come before further
    /// trees.
    pub open spec fn advanced(self) -> PushView {
        if self.blobs.len() > 0 {
            PushView {
                blobs: self.blobs.drop_last(),
                pending: Some((BlobKind::Blob, self.blobs.last())),
                ..self
            }
        } else {
            let (rest, next) = next_tree(self.trees, self.seen);
            match next {
                Some(id) => PushView {
                    trees: rest,
                    seen: self.seen.insert(id),
                    pending: Some((BlobKind::Tree, id)),
                    ..self
                },
                None => PushView { trees: rest, ..self },
            }
        }
    }

    /// The remote has the object on offer.
    pub open spec fn confirmed(self) -> PushView {
        match self.pending {
            Some((kind, id)) => PushView {
                pending: None,
                opening: if kind == BlobKind::Tree {
                    Some(id)
                } else {
                    None
                },
                settled: self.settled.insert((kind, id)),
                ..self
            },
            None => self,
        }
    }

    /// The tree was looked into and has these entries.
    pub open spec fn with_entries(self, id: Id, entries: Seq<EntryView>) -> PushView {
        PushView {
            opening: None,
            trees: self.trees + subtrees(entries),
            blobs: leaves(entries),
            opened: self.opened.insert(id, entries),
            ..self
        }
    }

    /// A tree or a blob was settled or will be.
    pub open spec fn provided(self, o: Offered) -> bool {
        match o.0 {
            BlobKind::Tree => self.seen.contains(o.1) || self.trees.contains(o.1),
            _ => {
                let blob = (BlobKind::Blob, o.1);
                self.settled.contains(blob) || self.blobs.contains(o.1) || self.pending == Some(
                    blob,
                )
            },
        }
    }

    /// What holds throughout a walk.
    pub open spec fn wf(self) -> bool {
        &&& self.provided((BlobKind::Tree, self.root))
        &&& self.pending is None || self.opening is None
        &&& self.opening is Some ==> self.blobs.len() == 0
        &&& (self.pending matches Some(o) && o.0 == BlobKind::Tree) ==> self.blobs.len() == 0
        &&& forall|t: Id| #[trigger]
            self.seen.contains(t) ==> self.settled.contains((BlobKind::Tree, t)) || self.pending
                == Some((BlobKind::Tree, t))
        &&& forall|t: Id| #[trigger]
            self.seen.contains(t) ==> self.opened.contains_key(t) || self.opening == Some(t)
                || self.pending == Some((BlobKind::Tree, t))
        &&& forall|t: Id, i: int|
            self.opened.contains_key(t) && 0 <= i < self.opened[t].len() ==> (match entry_object(
                #[trigger] self.opened[t][i],
            ) {
                Some(o) => self.provided(o),
                None => true,
            })
    }
}

proof fn lemma_subtrees(entries: Seq<EntryView>, i: int)
    requires
        0 <= i < entries.len(),
        entries[i].kind == GitEntryKind::Tree,
    ensures
        subtrees(entries).contains(entries[i].id),
    decreases entries.len(),
{
    let front = subtrees(entries.drop_last());
    if i == entries.len() - 1 {
        assert(front.push(entries.last().id)[front.len() as int] == entries[i].id);
    } else {
        lemma_subtrees(entries.drop_last(), i);
        assert(entries.drop_last()[i] == entries[i]);
        let k = choose|k: int| 0 <= k < front.len() && front[k] == entries[i].id;
        assert(subtrees(entries)[k] == entries[i].id);
    }
}

proof fn lemma_leaves(entries: Seq<EntryView>, i: int)
    requires
        0 <= i < entries.len(),
        entries[i].kind is File || entries[i].kind is Symlink,
    ensures
        leaves(entries).contains(entries[i].id),
    decreases entries.len(),
{
    let rest = leaves(entries.skip(1));
    if i == 0 {
        assert(rest.push(entries[0].id)[rest.len() as int] == entries[0].id);
    } else {
        lemma_leaves(entries.skip(1), i - 1);
        assert(entries.skip(1)[i - 1] == entries[i]);
        let k = choose|k: int| 0 <= k < rest.len() && rest[k] == entries[i].id;
        assert(leaves(entries)[k] == entries[i].id);
    }
}

proof fn lemma_next_tree(trees: Seq<Id>, seen: Set<Id>)
    ensures
        ({
            let (rest, next) = next_tree(trees, seen);
            &&& next matches Some(id) ==> !seen.contains(id)
            &&& next is None ==> rest.len() == 0
            &&& forall|t: Id| #[trigger]
                trees.contains(t) ==> rest.contains(t) || seen.contains(t) || next == Some(t)
        }),
    decreases trees.len(),
{
    if trees.len() > 0 {
        let front = trees.drop_last();
        lemma_next_tree(front, seen);
        assert forall|t: Id| #[trigger] trees.contains(t) implies front.contains(t) || t
            == trees.last() by {
            let k = choose|k: int| 0 <= k < trees.len() && trees[k] == t;
            if k < trees.len() - 1 {
                assert(front[k] == t);
            }
        }
    }
}

proof fn lemma_advanced(v: PushView)
    requires
        v.wf(),
        v.idle(),
    ensures
        v.advanced().wf(),
        v.advanced().pending is None <==> v.advanced().finished(),
        v.advanced().root == v.root,
{
    let n = v.advanced();
    if v.blobs.len() > 0 {
        assert forall|o: Offered| v.provided(o) implies #[trigger] n.provided(o) by {
            if v.blobs.contains(o.1) {
                let k = choose|k: int| 0 <= k < v.blobs.len() && v.blobs[k] == o.1;
                if k < v.blobs.len() - 1 {
                    assert(n.blobs[k] == o.1);
                }
            }
        }
        lemma_kept(v, n);
    } else {
        lemma_next_tree(v.trees, v.seen);
        assert forall|o: Offered| v.provided(o) implies #[trigger] n.provided(o) by {}
        lemma_kept(v, n);
    }
}

/// What a step provides for stays provided for.
proof fn lemma_kept(v: PushView, n: PushView)
    requires
        v.wf(),
        n.opened == v.opened,
        forall|o: Offered| v.provided(o) ==> #[trigger] n.provided(o),
    ensures
        v.root == n.root ==> n.provided((BlobKind::Tree, n.root)),
        forall|t: Id, i: int|
            n.opened.contains_key(t) && 0 <= i < n.opened[t].len() ==> (match entry_object(
                #[trigger] n.opened[t][i],
            ) {
                Some(o) => n.provided(o),
                None => true,
            }),
{
    assert(n.provided((BlobKind::Tree, v.root)));
    assert forall|t: Id, i: int|
        n.opened.contains_key(t) && 0 <= i < n.opened[t].len() implies (match entry_object(
        #[trigger] n.opened[t][i],
    ) {
        Some(o) => n.provided(o),
        None => true,
    }) by {
        assert(v.opened[t][i] == n.opened[t][i]);
    }
}

proof fn lemma_confirmed(v: PushView)
    requires
        v.wf(),
        v.pending is Some,
    ensures
        v.confirmed().wf(),
        v.confirmed().root == v.root,
{
    let n = v.confirmed();
    assert forall|o: Offered| v.provided(o) implies #[trigger] n.provided(o) by {}
    lemma_kept(v, n);
}

proof fn lemma_with_entries(v: PushView, id: Id, entries: Seq<EntryView>)
    requires
        v.wf(),
        v.opening == Some(id),
    ensures
        v.with_entries(id, entries).wf(),
        v.with_entries(id, entries).root == v.root,
{
    let n = v.with_entries(id, entries);
    assert forall|o: Offered| v.provided(o) implies #[trigger] n.provided(o) by {
        if v.trees.contains(o.1) {
            let k = choose|k: int| 0 <= k < v.trees.len() && v.trees[k] == o.1;
            assert(n.trees[k] == o.1);
        }
    }
    assert(n.provided((BlobKind::Tree, v.root)));
    assert forall|t: Id, i: int|
        n.opened.contains_key(t) && 0 <= i < n.opened[t].len() implies (match entry_object(
        #[trigger] n.opened[t][i],
    ) {
        Some(o) => n.provided(o),
        None => true,
    }) by {
        if t == id {
            let e = entries[i];
            match e.kind {
                GitEntryKind::Tree => {
                    lemma_subtrees(entries, i);
                    let s = subtrees(entries);
                    let k = choose|k: int| 0 <= k < s.len() && s[k] == e.id;
                    assert(n.trees[v.trees.len() + k] == e.id);
                },
                GitEntryKind::Submodule => {},
                _ => {
                    lemma_leaves(entries, i);
                },
            }
        } else {
            assert(v.opened[t][i] == n.opened[t][i]);
        }
    }
}

/// The object that entry after entry leads to from a tree, if every tree on the
/// way is in the store. Submodules lead nowhere.
pub open spec fn reached(objects: Objects, tree: Id, steps: Seq<int>) -> Option<Offered>
    decreases steps.len(),
{
    if steps.len() == 0 {
        Some((BlobKind::Tree, tree))
    } else {
        match reached(objects, tree, steps.drop_last()) {
            Some((BlobKind::Tree, id)) => match tree_at(objects, id) {
                Ok(Some(entries)) => if 0 <= steps.last() < entries.len() {
                    entry_object(entries[steps.last()])
                } else {
                    None
                },
                _ => None,
            },
            _ => None,
        }
    }
}

/// At the end of a walk the remote has every object that can be reached from
/// the root, in a store that holds the trees as the walk saw them.
pub proof fn walk_covers_what_is_reachable(v: PushView, objects: Objects, steps: Seq<int>)
    requires
        v.wf(),
        v.finished(),
        forall|t: Id| #[trigger]
            v.opened.contains_key(t) ==> tree_at(objects, t) == Ok::<
                Option<Seq<EntryView>>,
                StoreFault,
            >(Some(v.opened[t])),
    ensures
        reached(objects, v.root, steps) matches Some(o) ==> v.settled.contains(o),
    decreases steps.len(),
{
    if steps.len() == 0 {
        assert(v.seen.contains(v.root));
    } else {
        walk_covers_what_is_reachable(v, objects, steps.drop_last());
        lemma_reached_kinds(objects, v.root, steps);
        match reached(objects, v.root, steps.drop_last()) {
            Some((BlobKind::Tree, id)) => {
                lemma_settled_trees(v, objects, steps.drop_last());
                assert(v.opened.contains_key(id));
                let entries = v.opened[id];
                if 0 <= steps.last() < entries.len() {
                    match entry_object(v.opened[id][steps.last()]) {
                        Some(o) => {
                            assert(v.provided(o));
                            if o.0 == BlobKind::Tree {
                                assert(v.seen.contains(o.1));
                            }
                        },
                        None => {},
                    }
                }
            },
            _ => {},
        }
    }
}

proof fn lemma_reached_kinds(objects: Objects, tree: Id, steps: Seq<int>)
    ensures
        reached(objects, tree, steps) matches Some(o) ==> o.0 == BlobKind::Tree || o.0
            == BlobKind::Blob,
{
}

/// Every tree that is reached was taken up.
proof fn lemma_settled_trees(v: PushView, objects: Objects, steps: Seq<int>)
    requires
        v.wf(),
        v.finished(),
        forall|t: Id| #[trigger]
            v.opened.contains_key(t) ==> tree_at(objects, t) == Ok::<
                Option<Seq<EntryView>>,
                StoreFault,
            >(Some(v.opened[t])),
    ensures
        reached(objects, v.root, steps) matches Some((BlobKind::Tree, id)) ==> v.seen.contains(id)
            && v.opened.contains_key(id),
    decreases steps.len(),
{
    if steps.len() == 0 {
        assert(v.seen.contains(v.root));
    } else {
        lemma_settled_trees(v, objects, steps.drop_last());
        match reached(objects, v.root, steps.drop_last()) {
            Some((BlobKind::Tree, id)) => {
                let entries = v.opened[id];
                if 0 <= steps.last() < entries.len() {
                    match entry_object(v.opened[id][steps.last()]) {
                        Some((BlobKind::Tree, next)) => {
                            assert(v.provided((BlobKind::Tree, next)));
                            assert(v.seen.contains(next));
                        },
                        _ => {},
                    }
                }
            },
            _ => {},
        }
    }
}

/// The bytes of an object that is to be pushed. Every store knows the empty
/// tree.
pub open spec fn payload_of(objects: Objects, id: Id) -> Option<Seq<u8>> {
    if objects.contains_key(id) {
        Some(objects[id].data)
    } else if id == Id(EMPTY_TREE) {
        Some(seq![])
    } else {
        None
    }
}

/// What is said of an object that nobody has.
pub open spec fn missing_text(kind: BlobKind, id: Id) -> Seq<char> {
    "local store missing "@ + kind.tag() + " "@ + hex(id@) + " during push walk"@
}

/// A walk over the objects below a root tree.
pub struct PushWalk {
    root: Id,
    seen: SortedMap<Id, bool>,
    trees: Vec<Id>,
    blobs: Vec<Id>,
    pending: Option<(BlobKind, Id)>,
    opening: Option<Id>,
    settled: Ghost<Set<Offered>>,
    opened: Ghost<Map<Id, Seq<EntryView>>>,
}

impl View for PushWalk {
    type V = PushView;

    closed spec fn view(&self) -> PushView {
        PushView {
            root: self.root,
            seen: Set::new(|t: Id| self.seen@.contains_key(t@)),
            trees: self.trees@,
            blobs: self.blobs@,
            pending: self.pending,
            opening: self.opening,
            settled: self.settled@,
            opened: self.opened@,
        }
    }
}

impl PushWalk {
    /// Begin a walk.
    pub fn new(root: Id) -> (w: PushWalk)
        ensures
            w@ == PushView::fresh(root),
            w@.wf(),
    {
        let mut trees: Vec<Id> = Vec::new();
        trees.push(root);
        let w = PushWalk {
            root,
            seen: SortedMap::new(),
            trees,
            blobs: Vec::new(),
            pending: None,
            opening: None,
            settled: Ghost(Set::empty()),
            opened: Ghost(Map::empty()),
        };
        proof {
            assert(w@ =~= PushView::fresh(root));
            assert(w@.trees[0] == root);
        }
        w
    }

    /// Take the next step.
    pub fn advance(&mut self) -> (step: PushStep)
        requires
            old(self)@.wf(),
            old(self)@.idle(),
        ensures
            final(self)@ == old(self)@.advanced(),
            final(self)@.wf(),
            match step {
                PushStep::Offer { kind, id } => final(self)@.pending == Some((kind, id)),
                PushStep::Done => final(self)@.finished(),
            },
    {
        let ghost before = self@;
        proof {
            lemma_advanced(before);
        }
        match self.blobs.pop() {
            Some(id) => {
                self.pending = Some((BlobKind::Blob, id));
                proof {
                    assert(self@ =~= before.advanced());
                }
                return PushStep::Offer { kind: BlobKind::Blob, id };
            },
            None => {},
        }
        while self.trees.len() > 0
            invariant
                self.root == before.root,
                self@.seen == before.seen,
                self.blobs@ == before.blobs,
                before.blobs.len() == 0,
                self.pending == before.pending,
                self.opening == before.opening,
                self.settled@ == before.settled,
                self.opened@ == before.opened,
                next_tree(self.trees@, before.seen) == next_tree(before.trees, before.seen),
                before.wf(),
                before.idle(),
                before.advanced().wf(),
                before == old(self)@,
            decreases self.trees@.len(),
        {
            let ghost trees = self.trees@;
            let id = self.trees.pop().unwrap();
            assert(self.trees@ =~= trees.drop_last());
            let known: bool = self.seen.get(id.0.as_slice()).is_some();
            if !known {
                assert(!before.seen.contains(id));
                self.seen.insert(id, true);
                self.pending = Some((BlobKind::Tree, id));
                proof {
                    assert forall|t: Id| #[trigger] t@ == id@ implies t == id by {
                        id_ext(t, id);
                    }
                    assert(self@.seen =~= before.seen.insert(id));
                    assert(self@ =~= before.advanced());
                }
                return PushStep::Offer { kind: BlobKind::Tree, id };
            }
            assert(before.seen.contains(id));
        }
        proof {
            assert(self@ =~= before.advanced());
        }
        PushStep::Done
    }

    /// The bytes to push for the object on offer, where the remote lacks it.
    pub fn payload(&self, store: &GitContentStore) -> (r: Result<Vec<u8>, String>)
        requires
            self@.pending is Some,
        ensures
            match payload_of(store@, (self@.pending->0).1) {
                Some(data) => r matches Ok(bytes) && bytes@ == data,
                None => r matches Err(text) && text@ == missing_text(
                    (self@.pending->0).0,
                    (self@.pending->0).1,
                ),
            },
    {
        let (kind, id) = self.pending.unwrap();
        match store.read_git_object_bytes(&id) {
            Some((_, data)) => Ok(data),
            None => {
                if id.same(&Id(EMPTY_TREE)) {
                    return Ok(Vec::new());
                }
                let mut text = concat3("local store missing ", kind.as_str(), " ");
                text.append(hex_encode(id.0.as_slice()).as_str());
                text.append(" during push walk");
                Err(text)
            },
        }
    }

    /// Note that the remote has the object on offer.
    pub fn confirm(&mut self)
        requires
            old(self)@.wf(),
            old(self)@.pending is Some,
        ensures
            final(self)@ == old(self)@.confirmed(),
            final(self)@.wf(),
    {
        let ghost before = self@;
        proof {
            lemma_confirmed(before);
        }
        let (kind, id) = self.pending.unwrap();
        self.pending = None;
        self.opening = match kind {
            BlobKind::Tree => Some(id),
            _ => None,
        };
        self.settled = Ghost(before.settled.insert((kind, id)));
        assert(self@ =~= before.confirmed());
    }

    /// Take up whether the remote has the object on offer. What it has is settled;
    /// what it lacks has to be put, and its bytes are given. It stays on offer until
    /// the remote has it.
    pub fn answered(&mut self, has: bool, store: &GitContentStore) -> (r: Result<
        Option<Vec<u8>>,
        String,
    >)
        requires
            old(self)@.wf(),
            old(self)@.pending is Some,
        ensures
            final(self)@.wf(),
            if has {
                r matches Ok(None) && final(self)@ == old(self)@.confirmed()
            } else {
                let (kind, id) = old(self)@.pending->0;
                &&& final(self)@ == old(self)@
                &&& match payload_of(store@, id) {
                    Some(data) => r matches Ok(Some(bytes)) && bytes@ == data,
                    None => r matches Err(text) && text@ == missing_text(kind, id),
                }
            },
    {
        if has {
            self.confirm();
            return Ok(None);
        }
        match self.payload(store) {
            Ok(data) => Ok(Some(data)),
            Err(text) => Err(text),
        }
    }

    /// The tree that is to be looked into, if there is one.
    pub fn tree_to_open(&self) -> (r: Option<Id>)
        ensures
            r == self@.opening,
    {
        self.opening
    }

    /// Look into the tree that was offered last. Without it in the store, the
    /// walk waits: the tree has to be fetched.
    pub fn open_tree(&mut self, store: &GitContentStore) -> (r: Result<bool, StoreFault>)
        requires
            old(self)@.wf(),
            old(self)@.opening is Some,
        ensures
            final(self)@.wf(),
            match tree_at(store@, old(self)@.opening->0) {
                Ok(Some(entries)) => {
                    &&& r == Ok::<bool, StoreFault>(true)
                    &&& final(self)@ == old(self)@.with_entries(old(self)@.opening->0, entries)
                },
                Ok(None) => r == Ok::<bool, StoreFault>(false) && final(self)@ == old(self)@,
                Err(e) => r == Err::<bool, StoreFault>(e) && final(self)@ == old(self)@,
            },
    {
        let ghost before = self@;
        let id = self.opening.unwrap();
        let entries = match store.read_tree(&id) {
            Ok(Some(entries)) => entries,
            Ok(None) => {
                return Ok(false);
            },
            Err(e) => {
                return Err(e);
            },
        };
        let ghost all = tree_view(entries@);
        proof {
            lemma_with_entries(before, id, all);
            assert(all.take(0) =~= seq![]);
            assert(self.trees@ =~= before.trees + subtrees(all.take(0)));
        }
        let mut i: usize = 0;
        while i < entries.len()
            invariant
                i <= entries@.len(),
                all == tree_view(entries@),
                self.trees@ == before.trees + subtrees(all.take(i as int)),
                self.root == before.root,
                self@.seen == before.seen,
                self.blobs@ == before.blobs,
                self.pending == before.pending,
                self.opening == before.opening,
                self.settled@ == before.settled,
                self.opened@ == before.opened,
            decreases entries@.len() - i,
        {
            proof {
                assert(all.take(i + 1).drop_last() =~= all.take(i as int));
                assert(all.take(i + 1).last() == entries@[i as int]@);
            }
            match entries[i].kind {
                GitEntryKind::Tree => {
                    let ghost trees = self.trees@;
                    let next = entries[i].id;
                    self.trees.push(next);
                    assert(self.trees@ =~= before.trees + subtrees(all.take(i + 1)));
                },
                _ => {},
            }
            i = i + 1;
        }
        assert(all.take(i as int) =~= all);
        assert(all.skip(i as int) =~= seq![]);
        while i > 0
            invariant
                i <= entries@.len(),
                all == tree_view(entries@),
                self.trees@ == before.trees + subtrees(all),
                before.blobs.len() == 0,
                self.blobs@ == leaves(all.skip(i as int)),
                self.root == before.root,
                self@.seen == before.seen,
                self.pending == before.pending,
                self.opening == before.opening,
                self.settled@ == before.settled,
                self.opened@ == before.opened,
            decreases i,
        {
            i = i - 1;
            proof {
                assert(all.skip(i as int).skip(1) =~= all.skip(i + 1));
                assert(all.skip(i as int)[0] == entries@[i as int]@);
            }
            match entries[i].kind {
                GitEntryKind::File { .. } => {
                    let leaf = entries[i].id;
                    self.blobs.push(leaf);
                },
                GitEntryKind::Symlink => {
                    let leaf = entries[i].id;
                    self.blobs.push(leaf);
                },
                _ => {},
            }
        }
        self.opening = None;
        self.opened = Ghost(before.opened.insert(id, all));
        proof {
            assert(all.skip(0) =~= all);
            assert(self@ =~= before.with_entries(id, all));
        }
        Ok(true)
    }
}

} // verus!
