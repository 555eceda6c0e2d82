//! What single changes of the inodes touch, and what they leave.
use vstd::prelude::*;
use crate::vfs::inode::{InodeId, InodeView, NodeView, SlabView};

verus! {

/// Another node under an inode leaves its place, the other inodes and the names.
pub proof fn node_changes_touch_one_inode(
    slab: SlabView,
    id: InodeId,
    node: NodeView,
    other: InodeId,
)
    requires
        1 <= id <= slab.inodes.len(),
        1 <= other <= slab.inodes.len(),
    ensures
        ({
            let after = slab.with_node(id, node);
            &&& after.inodes.len() == slab.inodes.len()
            &&& after.inodes[id - 1].node == node
            &&& after.inodes[id - 1].parent == slab.inodes[id - 1].parent
            &&& after.inodes[id - 1].name == slab.inodes[id - 1].name
            &&& after.inodes[id - 1].ignored == slab.inodes[id - 1].ignored
            &&& other != id ==> after.inodes[other - 1] == slab.inodes[other - 1]
            &&& after.by_parent == slab.by_parent
        }),
{
}

/// A new inode comes behind the others, which stay as they are.
pub proof fn new_inodes_come_last(slab: SlabView, inode: InodeView, other: InodeId)
    ensures
        slab.has(other) <==> 1 <= other <= slab.inodes.len(),
        slab.has(other) ==> slab.at(other) == slab.inodes[other - 1] && slab.node(other)
            == slab.inodes[other - 1].node,
        slab.next_id() == slab.inodes.len() + 1,
        slab.with_inode(inode).inodes == slab.inodes.push(inode),
        slab.with_inode(inode).by_parent == slab.by_parent,
{
}

/// A name is interned once: a new one gets a new inode that knows its place, a known one
/// leads where it led.
pub proof fn interned_names_lead_to_their_inode(
    slab: SlabView,
    parent: InodeId,
    name: Seq<char>,
    node: NodeView,
    other: InodeId,
    other_name: Seq<char>,
)
    requires
        slab.inodes.len() < u64::MAX,
    ensures
        ({
            let after = slab.interned(parent, name, node);
            let id = slab.interned_id(parent, name);
            &&& after.by_parent.contains_key((parent, name)) && after.by_parent[(parent, name)] == id
            &&& slab.by_parent.contains_key((parent, name)) ==> after == slab && id
                == slab.by_parent[(parent, name)]
            &&& !slab.by_parent.contains_key((parent, name)) ==> {
                &&& id == slab.inodes.len() + 1
                &&& after.inodes.len() == slab.inodes.len() + 1
                &&& after.inodes[id - 1].parent == parent
                &&& after.inodes[id - 1].name == name
                &&& after.inodes[id - 1].node == node
                &&& !after.inodes[id - 1].ignored
            }
            &&& (other, other_name) != (parent, name) ==> (after.by_parent.contains_key(
                (other, other_name),
            ) <==> slab.by_parent.contains_key((other, other_name))) && after.by_parent[(
                other,
                other_name,
            )] == slab.by_parent[(other, other_name)]
            &&& after.inodes.take(slab.inodes.len() as int) == slab.inodes
        }),
{
    let after = slab.interned(parent, name, node);
    assert(after.inodes.take(slab.inodes.len() as int) =~= slab.inodes);
}

/// An entry of a stored tree becomes the node of its name unless the inode there is
/// modified.
pub proof fn stored_entries_do_not_replace_edits(
    slab: SlabView,
    dir: InodeId,
    name: Seq<char>,
    node: NodeView,
)
    ensures
        !slab.by_parent.contains_key((dir, name)) ==> slab.refreshed(dir, name, node)
            == slab.interned(dir, name, node),
        slab.by_parent.contains_key((dir, name)) ==> {
            let id = slab.by_parent[(dir, name)];
            &&& 1 <= id <= slab.inodes.len() && !slab.inodes[id - 1].node.is_dirty()
                ==> slab.refreshed(dir, name, node) == slab.with_node(id, node)
            &&& 1 <= id <= slab.inodes.len() && slab.inodes[id - 1].node.is_dirty()
                ==> slab.refreshed(dir, name, node) == slab
        },
{
}

/// Attaching and detaching a child change the children of its directory and the name
/// that leads to it, and nothing else; a child that is told its place keeps its node.
pub proof fn child_changes_touch_one_name(
    slab: SlabView,
    parent: InodeId,
    name: Seq<char>,
    child: InodeId,
    children: Map<Seq<char>, InodeId>,
    other: InodeId,
    other_parent: InodeId,
    other_name: Seq<char>,
)
    requires
        1 <= parent <= slab.inodes.len(),
        1 <= other <= slab.inodes.len(),
        1 <= child <= slab.inodes.len(),
        slab.inodes[parent - 1].node == NodeView::DirtyTree(children),
    ensures
        slab.attached(parent, name, child) <==> children.contains_key(name) && children[name]
            == child,
        slab.can_attach(parent, name) <==> !children.contains_key(name),
        ({
            let more = slab.with_child(parent, name, child);
            &&& more.inodes[parent - 1].node == NodeView::DirtyTree(children.insert(name, child))
            &&& other != parent ==> more.inodes[other - 1] == slab.inodes[other - 1]
            &&& more.by_parent == slab.by_parent.insert((parent, name), child)
            &&& more.inodes.len() == slab.inodes.len()
        }),
        ({
            let fewer = slab.without_child(parent, name);
            &&& fewer.inodes[parent - 1].node == NodeView::DirtyTree(children.remove(name))
            &&& other != parent ==> fewer.inodes[other - 1] == slab.inodes[other - 1]
            &&& fewer.by_parent == slab.by_parent.remove((parent, name))
            &&& fewer.inodes.len() == slab.inodes.len()
        }),
        ({
            let told = slab.reparented(child, other_parent, other_name);
            &&& told.inodes[child - 1].parent == other_parent
            &&& told.inodes[child - 1].name == other_name
            &&& told.inodes[child - 1].node == slab.inodes[child - 1].node
            &&& told.inodes[child - 1].ignored == slab.inodes[child - 1].ignored
            &&& other != child ==> told.inodes[other - 1] == slab.inodes[other - 1]
            &&& told.by_parent == slab.by_parent
        }),
{
}

} // verus!
