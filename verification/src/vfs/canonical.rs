//! A snapshot's id depends on what stands at each path alone, where every stored
//! object stands under the id of its content.
use vstd::prelude::*;
use vstd::utf8::encode_utf8;
use crate::git_store::{
    blob_id, file_at, key_order_contains, link_at, name_order, read_order,
    read_order_contains, tree_at, tree_id, with_entry, with_entry_contains, EntryView, Objects,
    StoreFault,
};
use crate::text::name_lt;
use crate::ty::Id;
use crate::vfs::inode::{InodeId, NodeView, SlabView, ROOT_INODE};
use crate::vfs::kiki_fs::{outside_tree, snapshotted, KikiView};
use crate::vfs::laws::{
    found_at, lemma_entries, lemma_tree_leads, lemma_tree_stored, no_collision, seen, stored, Found,
};
use crate::vfs::name_map::{ascending, ascending_unique, in_order, in_order_of_finite};
use crate::vfs::snapshot::{
    clean_node, complete, content_entries, content_id, deep, entry_kind_of, grown,
    lemma_complete_below, node_id, skipped,
};
use crate::vfs::tidy::{deep_below_nameless, root_nameless, tidy};
use crate::vfs::tree_ops::{entry_index, entry_node, lemma_entry_index};
use crate::vfs::yak_fs::stored_below_root;

verus! {

/// Where something stands: in the working copy, or in the store alone.
pub enum Place {
    Inode(InodeId),
    Stored(NodeView),
}

/// The node at a place.
pub open spec fn node_at(slab: SlabView, at: Place) -> NodeView {
    match at {
        Place::Inode(i) => slab.node(i),
        Place::Stored(node) => node,
    }
}

/// What stands at a path below a place.
pub open spec fn seen_below(
    slab: SlabView,
    objects: Objects,
    hidden: Set<Seq<char>>,
    at: Place,
    path: Seq<Seq<char>>,
) -> Found {
    match at {
        Place::Inode(i) => seen(slab, objects, hidden, i, path),
        Place::Stored(node) => stored(objects, node, path),
    }
}

/// The place of an entry, as far as a snapshot covers it.
pub open spec fn part(
    slab: SlabView,
    objects: Objects,
    hidden: Set<Seq<char>>,
    at: Place,
    name: Seq<char>,
) -> Option<Place> {
    match node_at(slab, at) {
        NodeView::DirtyTree(children) => match at {
            Place::Inode(i) => if children.contains_key(name) && !skipped(
                slab,
                hidden,
                i,
                name,
                children[name],
            ) {
                Some(Place::Inode(children[name]))
            } else {
                None
            },
            Place::Stored(_) => None,
        },
        NodeView::Tree(id) => match tree_at(objects, id) {
            Ok(Some(entries)) => match entry_index(entries, name) {
                Some(k) => Some(Place::Stored(entry_node(entries[k]))),
                None => None,
            },
            _ => None,
        },
        _ => None,
    }
}

/// The names of entries.
pub open spec fn names_of(entries: Seq<EntryView>) -> Seq<Seq<char>> {
    entries.map_values(|e: EntryView| e.name)
}

/// Whatever a place holds that is not modified is readable and stands under the id
/// of its content, down to the last of so many levels.
pub open spec fn canonical(
    slab: SlabView,
    objects: Objects,
    hidden: Set<Seq<char>>,
    at: Place,
    levels: nat,
) -> bool
    decreases levels,
{
    &&& match node_at(slab, at) {
        NodeView::Tree(id) => tree_at(objects, id) matches Ok(Some(entries)) && {
            &&& tree_id(entries) == Ok::<Id, StoreFault>(id)
            &&& ascending(names_of(entries))
            &&& forall|k: int|
                0 <= k < entries.len() ==> !((#[trigger] entries[k]).kind is Submodule)
        },
        NodeView::File { id, .. } => file_at(objects, id) matches Ok(Some(content)) && blob_id(
            content,
        ) == Ok::<Id, StoreFault>(id),
        NodeView::Symlink(id) => link_at(objects, id) matches Ok(Some(target)) && blob_id(
            encode_utf8(target),
        ) == Ok::<Id, StoreFault>(id),
        _ => at is Inode,
    }
    &&& forall|name: Seq<char>|
        (#[trigger] part(slab, objects, hidden, at, name)) matches Some(p) ==> levels > 0
            && canonical(slab, objects, hidden, p, (levels - 1) as nat)
}

/// The id of what a place holds.
pub open spec fn place_id(
    slab: SlabView,
    hidden: Set<Seq<char>>,
    at: Place,
    fuel: nat,
) -> Result<Id, StoreFault> {
    match at {
        Place::Inode(i) => content_id(slab, hidden, i, fuel),
        Place::Stored(node) => Ok(node_id(node)),
    }
}

/// Everything modified below a place lies within so many levels.
pub open spec fn place_deep(
    slab: SlabView,
    hidden: Set<Seq<char>>,
    at: Place,
    fuel: nat,
) -> bool {
    at matches Place::Inode(i) ==> deep(slab, hidden, i, fuel)
}

proof fn lemma_names_ascend(
    slab: SlabView,
    hidden: Set<Seq<char>>,
    i: InodeId,
    children: Map<Seq<char>, InodeId>,
    names: Seq<Seq<char>>,
    fuel: nat,
)
    requires
        ascending(names),
        content_entries(slab, hidden, i, children, names, fuel) is Ok,
    ensures
        ({
            let entries = content_entries(slab, hidden, i, children, names, fuel)->Ok_0;
            &&& ascending(names_of(entries))
            &&& forall|k: int|
                0 <= k < entries.len() ==> names.contains((#[trigger] entries[k]).name)
        }),
    decreases names.len(),
{
    if names.len() > 0 {
        let front = names.drop_last();
        assert(ascending(front)) by {
            assert forall|a: int, b: int| 0 <= a < b < front.len() implies name_lt(
                #[trigger] front[a],
                #[trigger] front[b],
            ) by {
                assert(names[a] == front[a] && names[b] == front[b]);
            }
        }
        lemma_names_ascend(slab, hidden, i, children, front, fuel);
        let before = content_entries(slab, hidden, i, children, front, fuel)->Ok_0;
        let entries = content_entries(slab, hidden, i, children, names, fuel)->Ok_0;
        let last = names.last();
        assert forall|k: int| 0 <= k < entries.len() implies names.contains(
            (#[trigger] entries[k]).name,
        ) by {
            if k < before.len() {
                assert(entries[k] == before[k]);
                let m = choose|m: int| 0 <= m < front.len() && front[m] == before[k].name;
                assert(names[m] == before[k].name);
            } else {
                assert(names[names.len() - 1] == entries[k].name);
            }
        }
        let all = names_of(entries);
        assert forall|a: int, b: int| 0 <= a < b < all.len() implies name_lt(
            #[trigger] all[a],
            #[trigger] all[b],
        ) by {
            assert(entries[a] == before[a]);
            assert(names_of(before)[a] == all[a]);
            if b < before.len() {
                assert(names_of(before)[b] == all[b]);
            } else {
                let m = choose|m: int| 0 <= m < front.len() && front[m] == before[a].name;
                assert(names[m] == all[a]);
                assert(names[names.len() - 1] == all[b]);
            }
        }
    }
}

/// The entries of a directory: in the order of names, one for each part.
spec fn listed_parts(
    slab: SlabView,
    objects: Objects,
    hidden: Set<Seq<char>>,
    at: Place,
    fuel: nat,
    entries: Seq<EntryView>,
) -> bool {
    &&& ascending(names_of(entries))
    &&& place_id(slab, hidden, at, fuel) == tree_id(entries)
    &&& forall|k: int|
        0 <= k < entries.len() ==> {
            let e = #[trigger] entries[k];
            &&& part(slab, objects, hidden, at, e.name) matches Some(p)
            &&& e.kind == entry_kind_of(node_at(slab, p))
            &&& p is Inode ==> fuel > 0
            &&& place_deep(slab, hidden, p, (fuel - 1) as nat)
            &&& place_id(slab, hidden, p, (fuel - 1) as nat) == Ok::<Id, StoreFault>(e.id)
        }
    &&& forall|name: Seq<char>|
        (#[trigger] part(slab, objects, hidden, at, name)) is Some ==> names_of(entries).contains(
            name,
        )
}

proof fn lemma_parts(
    slab: SlabView,
    objects: Objects,
    hidden: Set<Seq<char>>,
    at: Place,
    fuel: nat,
    levels: nat,
) -> (entries: Seq<EntryView>)
    requires
        node_at(slab, at).is_dir(),
        canonical(slab, objects, hidden, at, levels),
        place_deep(slab, hidden, at, fuel),
        place_id(slab, hidden, at, fuel) is Ok,
    ensures
        listed_parts(slab, objects, hidden, at, fuel, entries),
{
    match node_at(slab, at) {
        NodeView::Tree(id) => {
            let entries = tree_at(objects, id)->Ok_0->0;
            let names = names_of(entries);
            assert forall|k: int| 0 <= k < entries.len() implies {
                let e = #[trigger] entries[k];
                &&& part(slab, objects, hidden, at, e.name) matches Some(p)
                &&& e.kind == entry_kind_of(node_at(slab, p))
                &&& p is Inode ==> fuel > 0
                &&& place_deep(slab, hidden, p, (fuel - 1) as nat)
                &&& place_id(slab, hidden, p, (fuel - 1) as nat) == Ok::<Id, StoreFault>(e.id)
            } by {
                let e = entries[k];
                lemma_entry_index(entries, e.name);
                let j = entry_index(entries, e.name)->0;
                assert(names[j] == names[k]);
                crate::text::name_lt_irreflexive(e.name);
                if j < k {
                    assert(name_lt(names[j], names[k]));
                }
                assert(j == k);
            }
            assert forall|name: Seq<char>| (#[trigger] part(slab, objects, hidden, at, name))
                is Some implies names.contains(name) by {
                lemma_entry_index(entries, name);
                assert(names[entry_index(entries, name)->0] == name);
            }
            entries
        },
        _ => {
            let i = at->Inode_0;
            let children = slab.node(i)->DirtyTree_0;
            in_order_of_finite(children);
            let names = in_order(children);
            let entries = content_entries(slab, hidden, i, children, names, fuel)->Ok_0;
            lemma_entries(slab, hidden, i, children, names, fuel);
            lemma_names_ascend(slab, hidden, i, children, names, fuel);
            assert forall|n: Seq<char>| names.contains(n) == #[trigger] children.contains_key(n) by {
                assert(names.to_set().contains(n) == children.dom().contains(n));
            }
            assert forall|k: int| 0 <= k < entries.len() implies {
                let e = #[trigger] entries[k];
                &&& part(slab, objects, hidden, at, e.name) matches Some(p)
                &&& e.kind == entry_kind_of(node_at(slab, p))
                &&& p is Inode ==> fuel > 0
                &&& place_deep(slab, hidden, p, (fuel - 1) as nat)
                &&& place_id(slab, hidden, p, (fuel - 1) as nat) == Ok::<Id, StoreFault>(e.id)
            } by {
                let e = entries[k];
                assert(children.contains_key(e.name));
            }
            assert forall|name: Seq<char>| (#[trigger] part(slab, objects, hidden, at, name))
                is Some implies names_of(entries).contains(name) by {
                assert(names.contains(name));
                let k = choose|k: int| 0 <= k < entries.len() && (#[trigger] entries[k]).name == name;
                assert(names_of(entries)[k] == name);
            }
            entries
        },
    }
}

/// A path goes on below the part of its first name.
proof fn lemma_seen_part(
    slab: SlabView,
    objects: Objects,
    hidden: Set<Seq<char>>,
    at: Place,
    levels: nat,
    name: Seq<char>,
    rest: Seq<Seq<char>>,
)
    requires
        canonical(slab, objects, hidden, at, levels),
        node_at(slab, at).is_dir(),
    ensures
        seen_below(slab, objects, hidden, at, seq![name] + rest) == match part(
            slab,
            objects,
            hidden,
            at,
            name,
        ) {
            Some(p) => seen_below(slab, objects, hidden, p, rest),
            None => Found::Nothing,
        },
{
    let path = seq![name] + rest;
    assert(path[0] == name);
    assert(path.drop_first() =~= rest);
}

/// Two places at which the same stands at every path.
pub open spec fn equal_below(
    a: SlabView,
    a_objects: Objects,
    p: Place,
    b: SlabView,
    b_objects: Objects,
    q: Place,
    hidden: Set<Seq<char>>,
) -> bool {
    forall|path: Seq<Seq<char>>|
        (#[trigger] seen_below(a, a_objects, hidden, p, path)) == seen_below(
            b,
            b_objects,
            hidden,
            q,
            path,
        )
}

/// Places at which the same stands at every path have the same id.
pub proof fn lemma_equal_id(
    a: SlabView,
    a_objects: Objects,
    p: Place,
    few: nat,
    b: SlabView,
    b_objects: Objects,
    q: Place,
    many: nat,
    hidden: Set<Seq<char>>,
    levels: nat,
    depth: nat,
)
    requires
        canonical(a, a_objects, hidden, p, levels),
        canonical(b, b_objects, hidden, q, depth),
        place_deep(a, hidden, p, few),
        place_deep(b, hidden, q, many),
        place_id(a, hidden, p, few) is Ok,
        place_id(b, hidden, q, many) is Ok,
        equal_below(a, a_objects, p, b, b_objects, q, hidden),
    ensures
        place_id(a, hidden, p, few) == place_id(b, hidden, q, many),
        entry_kind_of(node_at(a, p)) == entry_kind_of(node_at(b, q)),
    decreases levels,
{
    let none = Seq::<Seq<char>>::empty();
    assert(seen_below(a, a_objects, hidden, p, none) == seen_below(b, b_objects, hidden, q, none));
    assert(seen_below(a, a_objects, hidden, p, none) == found_at(a_objects, node_at(a, p)));
    assert(seen_below(b, b_objects, hidden, q, none) == found_at(b_objects, node_at(b, q)));
    if node_at(a, p).is_dir() {
        let ours = lemma_parts(a, a_objects, hidden, p, few, levels);
        let theirs = lemma_parts(b, b_objects, hidden, q, many, depth);
        let our_names = names_of(ours);
        let their_names = names_of(theirs);
        assert forall|name: Seq<char>| part(a, a_objects, hidden, p, name) is Some
            == #[trigger] part(b, b_objects, hidden, q, name) is Some by {
            lemma_seen_part(a, a_objects, hidden, p, levels, name, none);
            lemma_seen_part(b, b_objects, hidden, q, depth, name, none);
            let path = seq![name] + none;
            assert(seen_below(a, a_objects, hidden, p, path) == seen_below(
                b,
                b_objects,
                hidden,
                q,
                path,
            ));
            if let Some(x) = part(a, a_objects, hidden, p, name) {
                assert(seen_below(a, a_objects, hidden, x, none) == found_at(
                    a_objects,
                    node_at(a, x),
                ));
            }
            if let Some(y) = part(b, b_objects, hidden, q, name) {
                assert(seen_below(b, b_objects, hidden, y, none) == found_at(
                    b_objects,
                    node_at(b, y),
                ));
            }
        }
        assert forall|name: Seq<char>| #[trigger] our_names.to_set().contains(name)
            == their_names.to_set().contains(name) by {
            if our_names.contains(name) {
                let k = choose|k: int| 0 <= k < our_names.len() && our_names[k] == name;
                assert(ours[k].name == name);
                assert(part(b, b_objects, hidden, q, name) is Some);
            }
            if their_names.contains(name) {
                let k = choose|k: int| 0 <= k < their_names.len() && their_names[k] == name;
                assert(theirs[k].name == name);
                assert(part(b, b_objects, hidden, q, name) is Some);
                assert(part(a, a_objects, hidden, p, name) is Some);
            }
        }
        assert(our_names.to_set() =~= their_names.to_set());
        ascending_unique(our_names, their_names);
        assert(ours.len() == our_names.len() && theirs.len() == their_names.len());
        assert forall|k: int| 0 <= k < ours.len() implies ours[k] == theirs[k] by {
            assert(our_names[k] == their_names[k]);
            let name = ours[k].name;
            assert(theirs[k].name == name);
            let x = part(a, a_objects, hidden, p, name)->0;
            let y = part(b, b_objects, hidden, q, name)->0;
            assert(equal_below(a, a_objects, x, b, b_objects, y, hidden)) by {
                assert forall|path: Seq<Seq<char>>| (#[trigger] seen_below(
                    a,
                    a_objects,
                    hidden,
                    x,
                    path,
                )) == seen_below(b, b_objects, hidden, y, path) by {
                    lemma_seen_part(a, a_objects, hidden, p, levels, name, path);
                    lemma_seen_part(b, b_objects, hidden, q, depth, name, path);
                    assert(seen_below(a, a_objects, hidden, p, seq![name] + path) == seen_below(
                        b,
                        b_objects,
                        hidden,
                        q,
                        seq![name] + path,
                    ));
                }
            }
            lemma_equal_id(
                a,
                a_objects,
                x,
                (few - 1) as nat,
                b,
                b_objects,
                y,
                (many - 1) as nat,
                hidden,
                (levels - 1) as nat,
                (depth - 1) as nat,
            );
        }
        assert(ours =~= theirs);
    }
}

/// Putting an entry into ordered ones keeps the order of names.
proof fn lemma_with_entry_ascends(entries: Seq<EntryView>, e: EntryView)
    requires
        ascending(names_of(entries)),
        !names_of(entries).contains(e.name),
    ensures
        ascending(names_of(with_entry(entries, e, false))),
    decreases entries.len(),
{
    let after = with_entry(entries, e, false);
    let names = names_of(entries);
    if entries.len() > 0 {
        let last = entries.last();
        let front = entries.drop_last();
        assert(names[names.len() - 1] == last.name);
        assert forall|k: int| 0 <= k < front.len() implies name_lt(
            (#[trigger] front[k]).name,
            last.name,
        ) by {
            assert(names[k] == front[k].name);
        }
        assert(ascending(names_of(front))) by {
            assert forall|a: int, b: int| 0 <= a < b < front.len() implies name_lt(
                #[trigger] names_of(front)[a],
                #[trigger] names_of(front)[b],
            ) by {
                assert(names[a] == names_of(front)[a] && names[b] == names_of(front)[b]);
            }
        }
        if name_lt(e.name, last.name) {
            assert(!names_of(front).contains(e.name)) by {
                if names_of(front).contains(e.name) {
                    let k = choose|k: int|
                        0 <= k < names_of(front).len() && names_of(front)[k] == e.name;
                    assert(names[k] == e.name);
                }
            }
            lemma_with_entry_ascends(front, e);
            let rest = with_entry(front, e, false);
            assert(after == rest.push(last));
            assert forall|a: int, b: int| 0 <= a < b < after.len() implies name_lt(
                #[trigger] names_of(after)[a],
                #[trigger] names_of(after)[b],
            ) by {
                assert(names_of(rest)[a] == names_of(after)[a]);
                if b < rest.len() {
                    assert(names_of(rest)[b] == names_of(after)[b]);
                } else {
                    assert(rest.contains(rest[a]));
                    with_entry_contains(front, e, false, rest[a]);
                    if rest[a] != e {
                        let k = choose|k: int| 0 <= k < front.len() && front[k] == rest[a];
                        assert(name_lt(front[k].name, last.name));
                    }
                }
            }
        } else {
            crate::text::name_lt_total(e.name, last.name);
            assert(after == entries.push(e));
            assert forall|a: int, b: int| 0 <= a < b < after.len() implies name_lt(
                #[trigger] names_of(after)[a],
                #[trigger] names_of(after)[b],
            ) by {
                assert(names[a] == names_of(after)[a]);
                if b < entries.len() {
                    assert(names[b] == names_of(after)[b]);
                } else if a < entries.len() - 1 {
                    assert(name_lt(front[a].name, last.name));
                    crate::text::name_lt_transitive(front[a].name, last.name, e.name);
                }
            }
        }
    }
}

/// Entries whose names differ are put into the order of names.
proof fn lemma_name_order_ascends(entries: Seq<EntryView>)
    requires
        names_of(entries).no_duplicates(),
    ensures
        ascending(names_of(name_order(entries))),
    decreases entries.len(),
{
    if entries.len() > 0 {
        let front = entries.drop_last();
        let e = entries.last();
        let names = names_of(entries);
        assert(names_of(front).no_duplicates()) by {
            assert(names_of(front) =~= names.drop_last());
        }
        lemma_name_order_ascends(front);
        let ordered = name_order(front);
        assert(!names_of(ordered).contains(e.name)) by {
            if names_of(ordered).contains(e.name) {
                let k = choose|k: int|
                    0 <= k < names_of(ordered).len() && names_of(ordered)[k] == e.name;
                assert(ordered.contains(ordered[k]));
                key_order_contains(front, false, ordered[k]);
                let j = choose|j: int| 0 <= j < front.len() && front[j] == ordered[k];
                assert(names[j] == e.name);
                assert(names[names.len() - 1] == e.name);
            }
        }
        lemma_with_entry_ascends(ordered, e);
    }
}

/// Entries in the order of names come back as they were written.
proof fn lemma_read_back(entries: Seq<EntryView>)
    requires
        ascending(names_of(entries)),
    ensures
        read_order(entries) == entries,
{
    let tree = crate::git_store::tree_order(entries);
    let back = read_order(entries);
    let names = names_of(entries);
    assert(crate::vfs::model::distinct(entries)) by {
        assert forall|a: int, b: int|
            0 <= a < entries.len() && 0 <= b < entries.len() && (#[trigger] entries[a]).name == (
            #[trigger] entries[b]).name implies a == b by {
            assert(names[a] == names[b]);
            crate::text::name_lt_irreflexive(names[a]);
        }
    }
    crate::vfs::model::lemma_ordered_distinct(entries, true);
    assert(names_of(tree).no_duplicates()) by {
        assert forall|a: int, b: int|
            0 <= a < tree.len() && 0 <= b < tree.len() && a != b implies names_of(tree)[a]
            != names_of(tree)[b] by {
            assert(tree[a].name != tree[b].name);
        }
    }
    lemma_name_order_ascends(tree);
    crate::vfs::model::lemma_ordered_distinct(tree, false);
    assert forall|e: EntryView| #[trigger] back.contains(e) == entries.contains(e) by {
        read_order_contains(entries, e);
    }
    let back_names = names_of(back);
    assert forall|n: Seq<char>| #[trigger] back_names.to_set().contains(n)
        == names.to_set().contains(n) by {
        if back_names.contains(n) {
            let k = choose|k: int| 0 <= k < back_names.len() && back_names[k] == n;
            assert(back.contains(back[k]));
            let j = choose|j: int| 0 <= j < entries.len() && entries[j] == back[k];
            assert(names[j] == n);
        }
        if names.contains(n) {
            let k = choose|k: int| 0 <= k < names.len() && names[k] == n;
            assert(entries.contains(entries[k]));
            assert(back.contains(entries[k]));
            let j = choose|j: int| 0 <= j < back.len() && back[j] == entries[k];
            assert(back_names[j] == n);
        }
    }
    assert(back_names.to_set() =~= names.to_set());
    ascending_unique(back_names, names);
    assert(back.len() == back_names.len() && entries.len() == names.len());
    assert forall|k: int| 0 <= k < back.len() implies back[k] == entries[k] by {
        assert(back_names[k] == names[k]);
        assert(back.contains(back[k]));
        let j = choose|j: int| 0 <= j < entries.len() && entries[j] == back[k];
        assert(names[j] == names[k]);
        crate::text::name_lt_irreflexive(names[k]);
        if j < k {
            assert(name_lt(names[j], names[k]));
        } else if k < j {
            assert(name_lt(names[k], names[j]));
        }
    }
    assert(back =~= entries);
}

/// What a snapshot stores stands under the id of its content, where what it found
/// stored did.
pub proof fn lemma_stored_canonical(
    base: SlabView,
    slab: SlabView,
    now: Objects,
    hidden: Set<Seq<char>>,
    at: Place,
    fuel: nat,
    levels: nat,
    any: SlabView,
)
    requires
        no_collision(base, hidden, now),
        canonical(base, now, hidden, at, levels),
        place_deep(base, hidden, at, fuel),
        place_id(base, hidden, at, fuel) is Ok,
        at matches Place::Inode(i) ==> complete(base, hidden, slab, now, i, fuel),
    ensures
        canonical(
            any,
            now,
            hidden,
            Place::Stored(
                clean_node(node_at(base, at), place_id(base, hidden, at, fuel)->Ok_0),
            ),
            levels,
        ),
    decreases levels,
{
    let node = node_at(base, at);
    let id = place_id(base, hidden, at, fuel)->Ok_0;
    let kept = Place::Stored(clean_node(node, id));
    match node {
        NodeView::DirtyTree(children) => {
            let i = at->Inode_0;
            in_order_of_finite(children);
            let names = in_order(children);
            let entries = content_entries(base, hidden, i, children, names, fuel)->Ok_0;
            lemma_entries(base, hidden, i, children, names, fuel);
            lemma_names_ascend(base, hidden, i, children, names, fuel);
            lemma_read_back(entries);
            lemma_tree_stored(base, now, hidden, i, fuel);
            assert(tree_at(now, id) == Ok::<Option<Seq<EntryView>>, StoreFault>(Some(entries)));
            assert forall|name: Seq<char>| (#[trigger] part(any, now, hidden, kept, name))
                is Some implies levels > 0 && canonical(
                any,
                now,
                hidden,
                part(any, now, hidden, kept, name)->0,
                (levels - 1) as nat,
            ) by {
                lemma_tree_leads(base, hidden, i, fuel, name);
                let child = Place::Inode(children[name]);
                assert(part(base, now, hidden, at, name) == Some(child));
                lemma_complete_below(base, hidden, slab, now, i, fuel, name);
                lemma_stored_canonical(
                    base,
                    slab,
                    now,
                    hidden,
                    child,
                    (fuel - 1) as nat,
                    (levels - 1) as nat,
                    any,
                );
            }
        },
        NodeView::Tree(_) => {
            assert forall|name: Seq<char>| (#[trigger] part(any, now, hidden, kept, name))
                is Some implies levels > 0 && canonical(
                any,
                now,
                hidden,
                part(any, now, hidden, kept, name)->0,
                (levels - 1) as nat,
            ) by {
                let p = part(any, now, hidden, kept, name)->0;
                assert(part(base, now, hidden, at, name) == Some(p));
                let below = p->Stored_0;
                lemma_stored_canonical(
                    base,
                    slab,
                    now,
                    hidden,
                    p,
                    fuel,
                    (levels - 1) as nat,
                    any,
                );
                assert(clean_node(below, node_id(below)) == below);
            }
        },
        NodeView::DirtyFile { .. } => {
            let i = at->Inode_0;
            assert(now[id] == crate::vfs::snapshot::content_object(base, hidden, i, fuel));
        },
        NodeView::DirtySymlink(target) => {
            let i = at->Inode_0;
            assert(now[id] == crate::vfs::snapshot::content_object(base, hidden, i, fuel));
            vstd::utf8::encode_utf8_valid_utf8(target);
            vstd::utf8::encode_utf8_decode_utf8(target);
        },
        _ => {},
    }
}

/// What stands under the id of its content does so when objects are added.
proof fn lemma_canonical_grown(
    slab: SlabView,
    objects: Objects,
    now: Objects,
    hidden: Set<Seq<char>>,
    at: Place,
    levels: nat,
)
    requires
        grown(objects, now),
        canonical(slab, objects, hidden, at, levels),
    ensures
        canonical(slab, now, hidden, at, levels),
    decreases levels,
{
    assert forall|name: Seq<char>| (#[trigger] part(slab, now, hidden, at, name))
        is Some implies levels > 0 && canonical(
        slab,
        now,
        hidden,
        part(slab, now, hidden, at, name)->0,
        (levels - 1) as nat,
    ) by {
        assert(part(slab, now, hidden, at, name) == part(slab, objects, hidden, at, name));
        lemma_canonical_grown(
            slab,
            objects,
            now,
            hidden,
            part(slab, objects, hidden, at, name)->0,
            (levels - 1) as nat,
        );
    }
}

/// A snapshot keeps ids canonical: a working copy that is made anew of its tree
/// holds nothing that does not stand under the id of its content, if the
/// snapshotted one did not.
pub proof fn snapshot_is_canonical(
    before: KikiView,
    objects: Objects,
    after: KikiView,
    now: Objects,
    id: Id,
    fresh: SlabView,
    levels: nat,
)
    requires
        before.wf(),
        snapshotted(before, objects, after, now, Ok(id)),
        no_collision(before.slab, outside_tree(), now),
        canonical(before.slab, objects, outside_tree(), Place::Inode(ROOT_INODE), levels),
    ensures
        canonical(fresh, now, outside_tree(), Place::Stored(NodeView::Tree(id)), levels),
{
    let n = before.slab.inodes.len();
    let root = Place::Inode(ROOT_INODE);
    root_nameless(before.slab);
    deep_below_nameless(before.slab, outside_tree(), ROOT_INODE);
    lemma_canonical_grown(before.slab, objects, now, outside_tree(), root, levels);
    lemma_stored_canonical(
        before.slab,
        after.slab,
        now,
        outside_tree(),
        root,
        n,
        levels,
        fresh,
    );
    assert(before.slab.node(ROOT_INODE).is_dir());
}

/// Working copies at which the same stands at every path give the same snapshot:
/// whatever their inodes, the order in which entries were made, and which parts a
/// snapshot has stored before.
pub proof fn equal_paths_give_an_equal_snapshot(
    a: KikiView,
    a_objects: Objects,
    a_after: KikiView,
    a_now: Objects,
    a_id: Id,
    b: KikiView,
    b_objects: Objects,
    b_after: KikiView,
    b_now: Objects,
    b_id: Id,
    levels: nat,
)
    requires
        a.wf(),
        b.wf(),
        snapshotted(a, a_objects, a_after, a_now, Ok(a_id)),
        snapshotted(b, b_objects, b_after, b_now, Ok(b_id)),
        canonical(a.slab, a_objects, outside_tree(), Place::Inode(ROOT_INODE), levels),
        canonical(b.slab, b_objects, outside_tree(), Place::Inode(ROOT_INODE), levels),
        forall|path: Seq<Seq<char>>|
            (#[trigger] seen(a.slab, a_objects, outside_tree(), ROOT_INODE, path)) == seen(
                b.slab,
                b_objects,
                outside_tree(),
                ROOT_INODE,
                path,
            ),
    ensures
        a_id == b_id,
{
    root_nameless(a.slab);
    root_nameless(b.slab);
    deep_below_nameless(a.slab, outside_tree(), ROOT_INODE);
    deep_below_nameless(b.slab, outside_tree(), ROOT_INODE);
    let root = Place::Inode(ROOT_INODE);
    assert(equal_below(a.slab, a_objects, root, b.slab, b_objects, root, outside_tree())) by {
        assert forall|path: Seq<Seq<char>>| (#[trigger] seen_below(
            a.slab,
            a_objects,
            outside_tree(),
            root,
            path,
        )) == seen_below(b.slab, b_objects, outside_tree(), root, path) by {
            assert(seen(a.slab, a_objects, outside_tree(), ROOT_INODE, path) == seen(
                b.slab,
                b_objects,
                outside_tree(),
                ROOT_INODE,
                path,
            ));
        }
    }
    lemma_equal_id(
        a.slab,
        a_objects,
        root,
        a.slab.inodes.len(),
        b.slab,
        b_objects,
        root,
        b.slab.inodes.len(),
        outside_tree(),
        levels,
        levels,
    );
}

/// Plain filesystems at which the same stands at every path give the same
/// snapshot.
pub proof fn equal_plain_paths_give_an_equal_snapshot(
    a: SlabView,
    a_objects: Objects,
    a_after: SlabView,
    a_now: Objects,
    a_id: Id,
    b: SlabView,
    b_objects: Objects,
    b_after: SlabView,
    b_now: Objects,
    b_id: Id,
    levels: nat,
)
    requires
        tidy(a),
        tidy(b),
        stored_below_root(a, a_objects, a_after, a_now, Ok(a_id)),
        stored_below_root(b, b_objects, b_after, b_now, Ok(b_id)),
        canonical(a, a_objects, Set::empty(), Place::Inode(ROOT_INODE), levels),
        canonical(b, b_objects, Set::empty(), Place::Inode(ROOT_INODE), levels),
        forall|path: Seq<Seq<char>>|
            (#[trigger] seen(a, a_objects, Set::empty(), ROOT_INODE, path)) == seen(
                b,
                b_objects,
                Set::empty(),
                ROOT_INODE,
                path,
            ),
    ensures
        a_id == b_id,
{
    let none = Set::<Seq<char>>::empty();
    root_nameless(a);
    root_nameless(b);
    deep_below_nameless(a, none, ROOT_INODE);
    deep_below_nameless(b, none, ROOT_INODE);
    let root = Place::Inode(ROOT_INODE);
    assert(equal_below(a, a_objects, root, b, b_objects, root, none)) by {
        assert forall|path: Seq<Seq<char>>| (#[trigger] seen_below(a, a_objects, none, root, path))
            == seen_below(b, b_objects, none, root, path) by {
            assert(seen(a, a_objects, none, ROOT_INODE, path) == seen(
                b,
                b_objects,
                none,
                ROOT_INODE,
                path,
            ));
        }
    }
    lemma_equal_id(
        a,
        a_objects,
        root,
        a.inodes.len(),
        b,
        b_objects,
        root,
        b.inodes.len(),
        none,
        levels,
        levels,
    );
}

} // verus!
