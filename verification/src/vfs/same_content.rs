//! The id of a snapshot depends on content alone: not on inode numbers, nor on
//! the order in which entries were made.
use vstd::prelude::*;
use vstd::utf8::encode_utf8;
use crate::git_store::{blob_id, Objects, StoreFault};
use crate::ty::Id;
use crate::vfs::inode::{InodeId, NodeView, SlabView, ROOT_INODE};
use crate::vfs::kiki_fs::{outside_tree, snapshotted, KikiView};
use crate::vfs::name_map::{ascending, ascending_unique, in_order, in_order_of_finite};
use crate::vfs::snapshot::{content_entries, content_id, deep, entry_kind_of, skipped};
use crate::vfs::tidy::{deep_below_nameless, root_nameless, tidy};
use crate::vfs::types::ErrView;
use crate::vfs::yak_fs::stored_below_root;

verus! {

/// The id of a file, of a symlink or of a directory that is not modified.
pub open spec fn leaf_id(node: NodeView) -> Result<Id, StoreFault> {
    match node {
        NodeView::Tree(id) => Ok(id),
        NodeView::File { id, .. } => Ok(id),
        NodeView::Symlink(id) => Ok(id),
        NodeView::DirtyFile { content, .. } => blob_id(content),
        NodeView::DirtySymlink(target) => blob_id(encode_utf8(target)),
        NodeView::DirtyTree(_) => Err(StoreFault::HashRefused),
    }
}

/// A snapshot covers an entry of this name in a modified directory.
pub open spec fn covers(
    slab: SlabView,
    hidden: Set<Seq<char>>,
    i: InodeId,
    children: Map<Seq<char>, InodeId>,
    name: Seq<char>,
) -> bool {
    children.contains_key(name) && !skipped(slab, hidden, i, name, children[name])
}

/// Two inodes hold the same as far as a snapshot covers them: modified directories
/// have entries of the same names that hold the same, and anything else has the
/// same kind, mode and bytes.
pub open spec fn alike(
    a: SlabView,
    i: InodeId,
    b: SlabView,
    j: InodeId,
    hidden: Set<Seq<char>>,
    levels: nat,
) -> bool
    decreases levels,
{
    match (a.node(i), b.node(j)) {
        (NodeView::DirtyTree(ours), NodeView::DirtyTree(theirs)) => forall|name: Seq<char>|
            {
                &&& #[trigger] covers(a, hidden, i, ours, name) == covers(
                    b,
                    hidden,
                    j,
                    theirs,
                    name,
                )
                &&& covers(a, hidden, i, ours, name) ==> levels > 0 && alike(
                    a,
                    ours[name],
                    b,
                    theirs[name],
                    hidden,
                    (levels - 1) as nat,
                )
            },
        (NodeView::DirtyTree(_), _) => false,
        (_, NodeView::DirtyTree(_)) => false,
        (x, y) => entry_kind_of(x) == entry_kind_of(y) && leaf_id(x) == leaf_id(y),
    }
}

/// The names that a snapshot covers.
spec fn covered(
    slab: SlabView,
    hidden: Set<Seq<char>>,
    i: InodeId,
    children: Map<Seq<char>, InodeId>,
    names: Seq<Seq<char>>,
) -> Seq<Seq<char>>
    decreases names.len(),
{
    if names.len() == 0 {
        seq![]
    } else {
        let front = covered(slab, hidden, i, children, names.drop_last());
        if skipped(slab, hidden, i, names.last(), children[names.last()]) {
            front
        } else {
            front.push(names.last())
        }
    }
}

proof fn lemma_covered(
    slab: SlabView,
    hidden: Set<Seq<char>>,
    i: InodeId,
    children: Map<Seq<char>, InodeId>,
    names: Seq<Seq<char>>,
    fuel: nat,
)
    requires
        ascending(names),
        forall|k: int| 0 <= k < names.len() ==> children.contains_key(#[trigger] names[k]),
    ensures
        ({
            let some = covered(slab, hidden, i, children, names);
            &&& ascending(some)
            &&& forall|k: int|
                0 <= k < some.len() ==> covers(slab, hidden, i, children, #[trigger] some[k])
                    && names.contains(some[k])
            &&& forall|name: Seq<char>|
                names.contains(name) && covers(slab, hidden, i, children, name)
                    ==> #[trigger] some.contains(name)
            &&& content_entries(slab, hidden, i, children, names, fuel) == content_entries(
                slab,
                hidden,
                i,
                children,
                some,
                fuel,
            )
        }),
    decreases names.len(),
{
    let some = covered(slab, hidden, i, children, names);
    if names.len() > 0 {
        let front = names.drop_last();
        let last = names.last();
        assert forall|k: int| 0 <= k < front.len() implies children.contains_key(
            #[trigger] front[k],
        ) by {
            assert(front[k] == names[k]);
        }
        lemma_covered(slab, hidden, i, children, front, fuel);
        let few = covered(slab, hidden, i, children, front);
        assert(children.contains_key(names[names.len() - 1]));
        assert forall|k: int| 0 <= k < some.len() implies covers(
            slab,
            hidden,
            i,
            children,
            #[trigger] some[k],
        ) && names.contains(some[k]) by {
            if k < few.len() {
                assert(some[k] == few[k]);
                let m = choose|m: int| 0 <= m < front.len() && front[m] == few[k];
                assert(names[m] == some[k]);
            } else {
                assert(names[names.len() - 1] == some[k]);
            }
        }
        assert forall|name: Seq<char>|
            names.contains(name) && covers(slab, hidden, i, children, name)
            implies #[trigger] some.contains(name) by {
            let m = choose|m: int| 0 <= m < names.len() && names[m] == name;
            if m < front.len() {
                assert(front[m] == name);
                assert(few.contains(name));
                let k = choose|k: int| 0 <= k < few.len() && few[k] == name;
                assert(some[k] == name);
            } else {
                assert(some[some.len() - 1] == name);
            }
        }
        assert forall|p: int, q: int| 0 <= p < q < some.len() implies crate::text::name_lt(
            #[trigger] some[p],
            #[trigger] some[q],
        ) by {
            if q < few.len() {
                assert(some[p] == few[p] && some[q] == few[q]);
            } else {
                assert(some[p] == few[p]);
                let m = choose|m: int| 0 <= m < front.len() && front[m] == few[p];
                assert(names[m] == some[p]);
                assert(names[names.len() - 1] == some[q]);
            }
        }
        if !skipped(slab, hidden, i, last, children[last]) {
            assert(some.drop_last() =~= few);
            assert(some.last() == last);
        }
    }
}

proof fn lemma_alike_entries(
    a: SlabView,
    i: InodeId,
    ours: Map<Seq<char>, InodeId>,
    few: nat,
    b: SlabView,
    j: InodeId,
    theirs: Map<Seq<char>, InodeId>,
    many: nat,
    hidden: Set<Seq<char>>,
    names: Seq<Seq<char>>,
)
    requires
        forall|k: int|
            0 <= k < names.len() ==> {
                let name = #[trigger] names[k];
                &&& covers(a, hidden, i, ours, name)
                &&& covers(b, hidden, j, theirs, name)
                &&& few > 0 && many > 0
                &&& entry_kind_of(a.node(ours[name])) == entry_kind_of(b.node(theirs[name]))
                &&& content_id(a, hidden, ours[name], (few - 1) as nat) == content_id(
                    b,
                    hidden,
                    theirs[name],
                    (many - 1) as nat,
                )
            },
    ensures
        content_entries(a, hidden, i, ours, names, few) == content_entries(
            b,
            hidden,
            j,
            theirs,
            names,
            many,
        ),
    decreases names.len(),
{
    if names.len() > 0 {
        let front = names.drop_last();
        assert forall|k: int| 0 <= k < front.len() implies {
            let name = #[trigger] front[k];
            &&& covers(a, hidden, i, ours, name)
            &&& covers(b, hidden, j, theirs, name)
            &&& few > 0 && many > 0
            &&& entry_kind_of(a.node(ours[name])) == entry_kind_of(b.node(theirs[name]))
            &&& content_id(a, hidden, ours[name], (few - 1) as nat) == content_id(
                b,
                hidden,
                theirs[name],
                (many - 1) as nat,
            )
        } by {
            assert(front[k] == names[k]);
        }
        lemma_alike_entries(a, i, ours, few, b, j, theirs, many, hidden, front);
        assert(covers(a, hidden, i, ours, names[names.len() - 1]));
    }
}

/// Inodes that hold the same have the same id.
pub proof fn lemma_alike_id(
    a: SlabView,
    i: InodeId,
    few: nat,
    b: SlabView,
    j: InodeId,
    many: nat,
    hidden: Set<Seq<char>>,
    levels: nat,
)
    requires
        deep(a, hidden, i, few),
        deep(b, hidden, j, many),
        alike(a, i, b, j, hidden, levels),
    ensures
        content_id(a, hidden, i, few) == content_id(b, hidden, j, many),
        entry_kind_of(a.node(i)) == entry_kind_of(b.node(j)),
    decreases few,
{
    if let (NodeView::DirtyTree(ours), NodeView::DirtyTree(theirs)) = (a.node(i), b.node(j)) {
        in_order_of_finite(ours);
        in_order_of_finite(theirs);
        let our_names = in_order(ours);
        let their_names = in_order(theirs);
        assert forall|k: int| 0 <= k < our_names.len() implies ours.contains_key(
            #[trigger] our_names[k],
        ) by {
            assert(our_names.to_set().contains(our_names[k]));
        }
        assert forall|k: int| 0 <= k < their_names.len() implies theirs.contains_key(
            #[trigger] their_names[k],
        ) by {
            assert(their_names.to_set().contains(their_names[k]));
        }
        lemma_covered(a, hidden, i, ours, our_names, few);
        lemma_covered(b, hidden, j, theirs, their_names, many);
        let names = covered(a, hidden, i, ours, our_names);
        let others = covered(b, hidden, j, theirs, their_names);
        assert forall|name: Seq<char>| #[trigger] names.to_set().contains(name)
            == others.to_set().contains(name) by {
            if names.contains(name) {
                let k = choose|k: int| 0 <= k < names.len() && names[k] == name;
                assert(covers(a, hidden, i, ours, name));
                assert(their_names.to_set().contains(name));
                assert(others.contains(name));
            }
            if others.contains(name) {
                let k = choose|k: int| 0 <= k < others.len() && others[k] == name;
                assert(covers(b, hidden, j, theirs, name));
                assert(covers(a, hidden, i, ours, name));
                assert(our_names.to_set().contains(name));
                assert(names.contains(name));
            }
        }
        assert(names.to_set() =~= others.to_set());
        ascending_unique(names, others);
        assert forall|k: int| 0 <= k < names.len() implies {
            let name = #[trigger] names[k];
            &&& covers(a, hidden, i, ours, name)
            &&& covers(b, hidden, j, theirs, name)
            &&& few > 0 && many > 0
            &&& entry_kind_of(a.node(ours[name])) == entry_kind_of(b.node(theirs[name]))
            &&& content_id(a, hidden, ours[name], (few - 1) as nat) == content_id(
                b,
                hidden,
                theirs[name],
                (many - 1) as nat,
            )
        } by {
            let name = names[k];
            assert(covers(a, hidden, i, ours, name));
            assert(covers(b, hidden, j, theirs, others[k]));
            lemma_alike_id(
                a,
                ours[name],
                (few - 1) as nat,
                b,
                theirs[name],
                (many - 1) as nat,
                hidden,
                (levels - 1) as nat,
            );
        }
        lemma_alike_entries(a, i, ours, few, b, j, theirs, many, hidden, names);
    }
}

/// Working copies that hold the same give the same snapshot, whatever their inodes
/// and whatever the order in which entries were made.
pub proof fn equal_content_gives_an_equal_snapshot(
    a: KikiView,
    a_objects: Objects,
    a_after: KikiView,
    a_now: Objects,
    a_id: Id,
    b: KikiView,
    b_objects: Objects,
    b_after: KikiView,
    b_now: Objects,
    b_id: Id,
    levels: nat,
)
    requires
        a.wf(),
        b.wf(),
        snapshotted(a, a_objects, a_after, a_now, Ok(a_id)),
        snapshotted(b, b_objects, b_after, b_now, Ok(b_id)),
        alike(a.slab, ROOT_INODE, b.slab, ROOT_INODE, outside_tree(), levels),
    ensures
        a_id == b_id,
{
    root_nameless(a.slab);
    root_nameless(b.slab);
    deep_below_nameless(a.slab, outside_tree(), ROOT_INODE);
    deep_below_nameless(b.slab, outside_tree(), ROOT_INODE);
    lemma_alike_id(
        a.slab,
        ROOT_INODE,
        a.slab.inodes.len(),
        b.slab,
        ROOT_INODE,
        b.slab.inodes.len(),
        outside_tree(),
        levels,
    );
}

/// Plain filesystems that hold the same give the same snapshot, whatever their
/// inodes and whatever the order in which entries were made.
pub proof fn equal_plain_content_gives_an_equal_snapshot(
    a: SlabView,
    a_objects: Objects,
    a_after: SlabView,
    a_now: Objects,
    a_result: Result<Id, ErrView>,
    b: SlabView,
    b_objects: Objects,
    b_after: SlabView,
    b_now: Objects,
    b_result: Result<Id, ErrView>,
    levels: nat,
)
    requires
        tidy(a),
        tidy(b),
        stored_below_root(a, a_objects, a_after, a_now, a_result),
        stored_below_root(b, b_objects, b_after, b_now, b_result),
        alike(a, ROOT_INODE, b, ROOT_INODE, Set::empty(), levels),
    ensures
        a_result == b_result,
{
    root_nameless(a);
    root_nameless(b);
    deep_below_nameless(a, Set::empty(), ROOT_INODE);
    deep_below_nameless(b, Set::empty(), ROOT_INODE);
    lemma_alike_id(
        a,
        ROOT_INODE,
        a.inodes.len(),
        b,
        ROOT_INODE,
        b.inodes.len(),
        Set::empty(),
        levels,
    );
}

} // verus!
