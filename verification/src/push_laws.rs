//! What a walk to a remote offers, in what order, and with what bytes.
use vstd::prelude::*;
use crate::git_store::{tree_at, EntryView, Objects, StoreFault, EMPTY_TREE};
use crate::push_walk::{
    entry_object, leaves, missing_text, next_tree, payload_of, reached, subtrees, Offered, PushView,
};
use crate::remote::BlobKind;
use crate::text::hex;
use crate::ty::{id_ext, Id};

verus! {

/// A directory leads to its tree, a file and a symlink to their blobs, and a submodule
/// to nothing.
pub proof fn entries_lead_to_their_objects(e: EntryView)
    ensures
        e.kind is Tree ==> entry_object(e) == Some((BlobKind::Tree, e.id)),
        e.kind is File || e.kind is Symlink ==> entry_object(e) == Some((BlobKind::Blob, e.id)),
        e.kind is Submodule ==> entry_object(e) is None,
{
}

/// What can be reached from a tree: the tree itself, and what the entries of the trees
/// that can be reached lead to.
pub proof fn entries_of_reached_trees_are_reached(
    objects: Objects,
    tree: Id,
    steps: Seq<int>,
    within: Id,
    entries: Seq<EntryView>,
    i: int,
)
    requires
        reached(objects, tree, steps) == Some((BlobKind::Tree, within)),
        tree_at(objects, within) == Ok::<Option<Seq<EntryView>>, StoreFault>(Some(entries)),
        0 <= i < entries.len(),
    ensures
        reached(objects, tree, Seq::<int>::empty()) == Some((BlobKind::Tree, tree)),
        reached(objects, tree, steps.push(i)) == entry_object(entries[i]),
{
    assert(steps.push(i).drop_last() =~= steps);
}

/// The object can be reached from the tree.
pub open spec fn reachable(objects: Objects, tree: Id, o: Offered) -> bool {
    exists|steps: Seq<int>| #[trigger] reached(objects, tree, steps) == Some(o)
}

/// The trees among entries are the subtrees; the files and symlinks are the leaves, of
/// which the first stands last.
pub proof fn subtrees_and_leaves_are_those_of_the_entries(entries: Seq<EntryView>, id: Id)
    ensures
        subtrees(entries).contains(id) <==> exists|i: int|
            0 <= i < entries.len() && (#[trigger] entries[i]).kind is Tree && entries[i].id == id,
        leaves(entries).contains(id) <==> exists|i: int|
            0 <= i < entries.len() && ((#[trigger] entries[i]).kind is File || entries[i].kind
                is Symlink) && entries[i].id == id,
        entries.len() > 0 && (entries[0].kind is File || entries[0].kind is Symlink) ==> leaves(
            entries,
        ).last() == entries[0].id && leaves(entries).drop_last() == leaves(entries.skip(1)),
    decreases entries.len(),
{
    if entries.len() > 0 {
        let front = entries.drop_last();
        let last = entries.last();
        lemma_subtrees_of(front, id);
        let rest = entries.skip(1);
        lemma_leaves_of(rest, id);
        lemma_subtrees_of(entries, id);
        lemma_leaves_of(entries, id);
        if entries[0].kind is File || entries[0].kind is Symlink {
            assert(leaves(entries).drop_last() =~= leaves(rest));
        }
    }
}

proof fn lemma_subtrees_of(entries: Seq<EntryView>, id: Id)
    ensures
        subtrees(entries).contains(id) <==> exists|i: int|
            0 <= i < entries.len() && (#[trigger] entries[i]).kind is Tree && entries[i].id == id,
    decreases entries.len(),
{
    if entries.len() > 0 {
        let front = entries.drop_last();
        let last = entries.last();
        lemma_subtrees_of(front, id);
        let before = subtrees(front);
        let all = subtrees(entries);
        if all.contains(id) {
            let k = choose|k: int| 0 <= k < all.len() && all[k] == id;
            if k < before.len() {
                assert(before[k] == id);
                let i = choose|i: int|
                    0 <= i < front.len() && (#[trigger] front[i]).kind is Tree && front[i].id == id;
                assert(entries[i] == front[i]);
            } else {
                assert(entries[entries.len() - 1].kind is Tree);
            }
        }
        if exists|i: int|
            0 <= i < entries.len() && (#[trigger] entries[i]).kind is Tree && entries[i].id == id {
            let i = choose|i: int|
                0 <= i < entries.len() && (#[trigger] entries[i]).kind is Tree && entries[i].id == id;
            if i < front.len() {
                assert(front[i] == entries[i]);
                let k = choose|k: int| 0 <= k < before.len() && before[k] == id;
                assert(all[k] == id);
            } else {
                assert(all[before.len() as int] == id);
            }
        }
    }
}

proof fn lemma_leaves_of(entries: Seq<EntryView>, id: Id)
    ensures
        leaves(entries).contains(id) <==> exists|i: int|
            0 <= i < entries.len() && ((#[trigger] entries[i]).kind is File || entries[i].kind
                is Symlink) && entries[i].id == id,
    decreases entries.len(),
{
    if entries.len() > 0 {
        let rest = entries.skip(1);
        lemma_leaves_of(rest, id);
        let before = leaves(rest);
        let all = leaves(entries);
        if all.contains(id) {
            let k = choose|k: int| 0 <= k < all.len() && all[k] == id;
            if k < before.len() {
                assert(before[k] == id);
                let i = choose|i: int|
                    0 <= i < rest.len() && ((#[trigger] rest[i]).kind is File || rest[i].kind
                        is Symlink) && rest[i].id == id;
                assert(entries[i + 1] == rest[i]);
            } else {
                assert(entries[0].kind is File || entries[0].kind is Symlink);
            }
        }
        if exists|i: int|
            0 <= i < entries.len() && ((#[trigger] entries[i]).kind is File || entries[i].kind
                is Symlink) && entries[i].id == id {
            let i = choose|i: int|
                0 <= i < entries.len() && ((#[trigger] entries[i]).kind is File || entries[i].kind
                    is Symlink) && entries[i].id == id;
            if i > 0 {
                assert(rest[i - 1] == entries[i]);
                let k = choose|k: int| 0 <= k < before.len() && before[k] == id;
                assert(all[k] == id);
            } else {
                assert(all[before.len() as int] == id);
            }
        }
    }
}

/// Everything that a walk has before it, has on offer or has settled can be reached
/// from its root.
pub open spec fn keeps_to_the_root(v: PushView, objects: Objects) -> bool {
    &&& forall|k: int|
        0 <= k < v.trees.len() ==> reachable(
            objects,
            v.root,
            (BlobKind::Tree, #[trigger] v.trees[k]),
        )
    &&& forall|k: int|
        0 <= k < v.blobs.len() ==> reachable(
            objects,
            v.root,
            (BlobKind::Blob, #[trigger] v.blobs[k]),
        )
    &&& v.pending matches Some(o) ==> reachable(objects, v.root, o)
    &&& v.opening matches Some(t) ==> reachable(objects, v.root, (BlobKind::Tree, t))
    &&& forall|o: Offered| #[trigger] v.settled.contains(o) ==> reachable(objects, v.root, o)
}

proof fn lemma_next_tree_is_one(trees: Seq<Id>, seen: Set<Id>)
    ensures
        ({
            let (rest, next) = next_tree(trees, seen);
            &&& rest.len() <= trees.len()
            &&& forall|k: int| 0 <= k < rest.len() ==> #[trigger] rest[k] == trees[k]
            &&& next matches Some(id) ==> !seen.contains(id) && rest.len() < trees.len()
                && trees[rest.len() as int] == id
            &&& next matches Some(id) ==> forall|k: int|
                rest.len() < k < trees.len() ==> seen.contains(#[trigger] trees[k])
            &&& next is None ==> rest.len() == 0 && forall|k: int|
                0 <= k < trees.len() ==> seen.contains(#[trigger] trees[k])
        }),
    decreases trees.len(),
{
    if trees.len() > 0 && seen.contains(trees.last()) {
        lemma_next_tree_is_one(trees.drop_last(), seen);
        let (rest, next) = next_tree(trees.drop_last(), seen);
        assert forall|k: int| rest.len() < k < trees.len() implies seen.contains(
            #[trigger] trees[k],
        ) by {
            if k < trees.len() - 1 {
                assert(trees.drop_last()[k] == trees[k]);
            }
        }
        if next is None {
            assert forall|k: int| 0 <= k < trees.len() implies seen.contains(#[trigger] trees[k]) by {
                if k < trees.len() - 1 {
                    assert(trees.drop_last()[k] == trees[k]);
                }
            }
        }
    }
}

/// A walk offers only what can be reached from its root: it begins at the root, and no
/// step leaves what can be reached, as long as the trees are those of the store.
pub proof fn only_reachable_objects_are_offered(
    v: PushView,
    objects: Objects,
    root: Id,
    id: Id,
    entries: Seq<EntryView>,
)
    requires
        keeps_to_the_root(v, objects),
    ensures
        keeps_to_the_root(PushView::fresh(root), objects),
        keeps_to_the_root(v.advanced(), objects),
        keeps_to_the_root(v.confirmed(), objects),
        v.opening == Some(id) && tree_at(objects, id) == Ok::<
            Option<Seq<EntryView>>,
            StoreFault,
        >(Some(entries)) ==> keeps_to_the_root(v.with_entries(id, entries), objects),
{
    assert(reached(objects, root, Seq::<int>::empty()) == Some((BlobKind::Tree, root)));
    assert(reachable(objects, root, (BlobKind::Tree, root)));
    let f = PushView::fresh(root);
    assert forall|k: int| 0 <= k < f.trees.len() implies reachable(
        objects,
        f.root,
        (BlobKind::Tree, #[trigger] f.trees[k]),
    ) by {
        assert(f.trees[k] == root);
    }
    let a = v.advanced();
    lemma_next_tree_is_one(v.trees, v.seen);
    if v.blobs.len() > 0 {
        assert(v.blobs[v.blobs.len() - 1] == v.blobs.last());
        assert forall|k: int| 0 <= k < a.blobs.len() implies reachable(
            objects,
            a.root,
            (BlobKind::Blob, #[trigger] a.blobs[k]),
        ) by {
            assert(a.blobs[k] == v.blobs[k]);
        }
    } else {
        assert forall|k: int| 0 <= k < a.trees.len() implies reachable(
            objects,
            a.root,
            (BlobKind::Tree, #[trigger] a.trees[k]),
        ) by {
            assert(a.trees[k] == v.trees[k]);
        }
        let (rest, next) = next_tree(v.trees, v.seen);
        if let Some(t) = next {
            assert(v.trees[rest.len() as int] == t);
        }
    }
    if v.opening == Some(id) && tree_at(objects, id) == Ok::<Option<Seq<EntryView>>, StoreFault>(
        Some(entries),
    ) {
        let w = v.with_entries(id, entries);
        let steps = choose|steps: Seq<int>| #[trigger]
            reached(objects, v.root, steps) == Some((BlobKind::Tree, id));
        assert forall|k: int| 0 <= k < w.trees.len() implies reachable(
            objects,
            w.root,
            (BlobKind::Tree, #[trigger] w.trees[k]),
        ) by {
            if k < v.trees.len() {
                assert(w.trees[k] == v.trees[k]);
            } else {
                let sub = subtrees(entries);
                assert(w.trees[k] == sub[k - v.trees.len()]);
                assert(sub.contains(w.trees[k]));
                lemma_subtrees_of(entries, w.trees[k]);
                let i = choose|i: int|
                    0 <= i < entries.len() && (#[trigger] entries[i]).kind is Tree && entries[i].id
                        == w.trees[k];
                entries_of_reached_trees_are_reached(objects, v.root, steps, id, entries, i);
                assert(reached(objects, v.root, steps.push(i)) == Some((BlobKind::Tree, w.trees[k])));
            }
        }
        assert forall|k: int| 0 <= k < w.blobs.len() implies reachable(
            objects,
            w.root,
            (BlobKind::Blob, #[trigger] w.blobs[k]),
        ) by {
            assert(leaves(entries).contains(w.blobs[k]));
            lemma_leaves_of(entries, w.blobs[k]);
            let i = choose|i: int|
                0 <= i < entries.len() && ((#[trigger] entries[i]).kind is File || entries[i].kind
                    is Symlink) && entries[i].id == w.blobs[k];
            entries_of_reached_trees_are_reached(objects, v.root, steps, id, entries, i);
            assert(reached(objects, v.root, steps.push(i)) == Some((BlobKind::Blob, w.blobs[k])));
        }
    }
}

/// A step of a walk offers the next blob, or else the next tree that was not taken up
/// yet; it settles nothing. Where neither is left the walk is at its end.
pub proof fn steps_offer_one_object(v: PushView)
    requires
        v.idle(),
    ensures
        ({
            let a = v.advanced();
            &&& a.root == v.root && a.settled == v.settled && a.opened == v.opened && a.opening
                is None
            &&& v.blobs.len() > 0 ==> a.pending == Some((BlobKind::Blob, v.blobs.last())) && a.blobs
                == v.blobs.drop_last() && a.trees == v.trees && a.seen == v.seen
            &&& v.blobs.len() == 0 ==> a.blobs.len() == 0 && match a.pending {
                Some((kind, id)) => {
                    &&& kind == BlobKind::Tree
                    &&& !v.seen.contains(id)
                    &&& v.trees.contains(id)
                    &&& a.seen == v.seen.insert(id)
                },
                None => a.trees.len() == 0 && a.seen == v.seen && forall|t: Id| #[trigger]
                    v.trees.contains(t) ==> v.seen.contains(t),
            }
        }),
{
    lemma_next_tree_is_one(v.trees, v.seen);
    let a = v.advanced();
    let (rest, next) = next_tree(v.trees, v.seen);
    if let Some(t) = next {
        assert(v.trees[rest.len() as int] == t);
    } else {
        assert forall|t: Id| #[trigger] v.trees.contains(t) implies v.seen.contains(t) by {
            let k = choose|k: int| 0 <= k < v.trees.len() && v.trees[k] == t;
            assert(v.seen.contains(v.trees[k]));
        }
    }
}

/// What the remote has is settled, and nothing else; a tree is looked into after that.
pub proof fn confirming_settles_the_offer(v: PushView, kind: BlobKind, id: Id)
    requires
        v.pending == Some((kind, id)),
    ensures
        v.confirmed().settled == v.settled.insert((kind, id)),
        v.confirmed().pending is None,
        kind == BlobKind::Tree ==> v.confirmed().opening == Some(id),
        kind != BlobKind::Tree ==> v.confirmed().opening is None,
        v.confirmed().trees == v.trees && v.confirmed().blobs == v.blobs && v.confirmed().seen
            == v.seen && v.confirmed().opened == v.opened && v.confirmed().root == v.root,
{
}

/// Looking into a tree puts its subtrees before the walk, and its files and symlinks
/// before those; it settles nothing.
pub proof fn opened_tree_is_walked(v: PushView, id: Id, entries: Seq<EntryView>, i: int)
    ensures
        ({
            let w = v.with_entries(id, entries);
            &&& w.opening is None
            &&& w.settled == v.settled && w.seen == v.seen && w.root == v.root && w.pending
                == v.pending
            &&& w.opened == v.opened.insert(id, entries)
            &&& w.trees.take(v.trees.len() as int) == v.trees
            &&& 0 <= i < entries.len() ==> {
                &&& entries[i].kind is Tree ==> w.trees.contains(entries[i].id)
                &&& entries[i].kind is File || entries[i].kind is Symlink ==> w.blobs.contains(
                    entries[i].id,
                )
            }
        }),
{
    let w = v.with_entries(id, entries);
    assert(w.trees.take(v.trees.len() as int) =~= v.trees);
    if 0 <= i < entries.len() {
        lemma_subtrees_of(entries, entries[i].id);
        lemma_leaves_of(entries, entries[i].id);
        let sub = subtrees(entries);
        if entries[i].kind is Tree {
            assert(sub.contains(entries[i].id));
            let k = choose|k: int| 0 <= k < sub.len() && sub[k] == entries[i].id;
            assert(w.trees[v.trees.len() + k] == entries[i].id);
        }
    }
}

/// A walk begins with its root alone.
pub proof fn walks_begin_with_their_root(root: Id)
    ensures
        PushView::fresh(root).root == root,
        PushView::fresh(root).trees == seq![root],
        PushView::fresh(root).blobs.len() == 0,
        PushView::fresh(root).idle(),
        PushView::fresh(root).settled == Set::<Offered>::empty(),
        PushView::fresh(root).seen == Set::<Id>::empty(),
        PushView::fresh(root).opened == Map::<Id, Seq<EntryView>>::empty(),
{
}

/// A walk is at its end where nothing is on offer, to be looked into or left to visit.
pub proof fn walks_end_with_nothing_left(v: PushView)
    ensures
        v.finished() <==> v.pending is None && v.opening is None && v.trees.len() == 0
            && v.blobs.len() == 0,
        v.idle() <==> v.pending is None && v.opening is None,
{
}

/// What is pushed are the bytes of the object. The empty tree has none where it is not
/// stored; any other object that is not there is named.
pub proof fn objects_are_pushed_as_they_are(objects: Objects, id: Id, kind: BlobKind)
    ensures
        objects.contains_key(id) ==> payload_of(objects, id) == Some(objects[id].data),
        !objects.contains_key(id) && id@ == EMPTY_TREE@ ==> (payload_of(objects, id) matches Some(
            bytes,
        ) && bytes.len() == 0),
        !objects.contains_key(id) && id@ != EMPTY_TREE@ ==> payload_of(objects, id) is None,
        missing_text(kind, id) == "local store missing "@ + kind.tag() + " "@ + hex(id@)
            + " during push walk"@,
{
    id_ext(id, Id(EMPTY_TREE));
}

} // verus!
