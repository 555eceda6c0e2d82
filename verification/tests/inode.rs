use kiki::ty::Id;
use kiki::vfs::inode::{InodeSlab, NodeRef, ROOT_INODE};
use kiki::vfs::name_map::NameMap;

fn id(byte: u8) -> Id {
    Id([byte; 20])
}

fn names(entries: &[(&str, u64)]) -> NameMap<u64> {
    let mut map = NameMap::new();
    for (name, ino) in entries {
        map.insert((*name).to_owned(), *ino);
    }
    map
}

fn at(children: &NameMap<u64>, name: &str) -> u64 {
    *children.get(name).expect("child present")
}

#[test]
fn root_is_present_and_is_a_tree() {
    let slab = InodeSlab::new(id(0xaa));
    let root = slab.get(ROOT_INODE).expect("root present");
    assert!(matches!(root.node, NodeRef::Tree(_)));
    assert_eq!(root.parent, ROOT_INODE);
}

#[test]
fn intern_child_is_idempotent() {
    let mut slab = InodeSlab::new(id(0));
    let a = slab.intern_child(ROOT_INODE, "foo", || NodeRef::File {
        id: id(1),
        executable: false,
    });
    let b = slab.intern_child(ROOT_INODE, "foo", || NodeRef::File {
        id: id(2),
        executable: true,
    });
    assert_eq!(a, b, "second intern should return the same id");
    // The make_node closure on the second call must not be observed —
    // the file id we read back must be the original (0x01), not the
    // one the second closure would have produced (0x02).
    let inode = slab.get(a).expect("interned inode present");
    assert!(matches!(inode.node, NodeRef::File { id: i, .. } if i == id(1)));
}

#[test]
fn ids_are_monotonic_and_unique() {
    let mut slab = InodeSlab::new(id(0));
    let a = slab.intern_child(ROOT_INODE, "a", || NodeRef::Tree(id(1)));
    let b = slab.intern_child(ROOT_INODE, "b", || NodeRef::Tree(id(2)));
    let c = slab.intern_child(ROOT_INODE, "c", || NodeRef::Tree(id(3)));
    assert_eq!(b, a + 1);
    assert_eq!(c, b + 1);
    assert!(a > ROOT_INODE);
}

/// `swap_root` rewrites the root inode and clears `(ROOT, *)`
/// reverse-cache entries so subsequent `intern_child` calls under
/// the root allocate fresh ids. Sub-tree entries are retained.
/// Older non-root ids stay live in `inodes` (orphaned but safe).
#[test]
fn swap_root_updates_root_and_clears_root_level_cache() {
    let mut slab = InodeSlab::new(id(1));
    let old_a = slab.intern_child(ROOT_INODE, "a", || NodeRef::File {
        id: id(2),
        executable: false,
    });

    slab.swap_root(id(99));

    // Root now points at the new tree id.
    let root = slab.get(ROOT_INODE).expect("root present");
    assert!(matches!(root.node, NodeRef::Tree(t) if t == id(99)));

    // Re-interning "a" allocates a fresh id (the (ROOT, "a") entry
    // was cleared); monotonic ordering still holds.
    let new_a = slab.intern_child(ROOT_INODE, "a", || NodeRef::File {
        id: id(3),
        executable: false,
    });
    assert!(new_a > old_a, "expected monotonic id");
}

/// `swap_root` preserves sub-tree `(non-root, name)` cache entries.
/// The pinned `.jj/` subtree (M7) relies on this to keep its
/// descendants reachable across `check_out`: the kernel-cached
/// children of any directory inside `.jj/` must continue to resolve
/// to the same inode ids after the user tree changes.
#[test]
fn swap_root_preserves_subtree_cache() {
    let mut slab = InodeSlab::new(id(1));
    // Set up: root → "dir" → "file". The "dir" inode lives outside
    // the cleared cache.
    let dir = slab.intern_child(ROOT_INODE, "dir", || NodeRef::Tree(id(2)));
    let file_under_dir = slab.intern_child(dir, "file", || NodeRef::File {
        id: id(3),
        executable: false,
    });

    slab.swap_root(id(99));

    // (ROOT, "dir") is gone — re-allocates.
    let new_dir = slab.intern_child(ROOT_INODE, "dir", || NodeRef::Tree(id(4)));
    assert!(new_dir > dir, "(ROOT, dir) entry was dropped");

    // (dir, "file") survived — re-interning returns the original id
    // and the loader closure must NOT be observed.
    let same_file = slab.intern_child(dir, "file", || {
        panic!("subtree cache should have hit, not allocated")
    });
    assert_eq!(same_file, file_under_dir);
}

/// Materializing a clean `Tree` inode swaps it to `DirtyTree` and
/// allocates child inodes for each entry. The child ids must be
/// reused for already-cached `(parent, name)` pairs so the kernel
/// doesn't see them change mid-flight.
#[test]
fn materialize_dir_promotes_tree_and_reuses_existing_children() {
    let mut slab = InodeSlab::new(id(1));
    // Pretend the kernel did a `lookup("a")` before the parent was
    // materialized — the child gets an inode via `intern_child`.
    let cached_a = slab.intern_child(ROOT_INODE, "a", || NodeRef::File {
        id: id(2),
        executable: false,
    });

    let children = slab
        .materialize_dir_for_mutation(ROOT_INODE, || {
            vec![
                (
                    "a".to_owned(),
                    NodeRef::File {
                        id: id(2),
                        executable: false,
                    },
                ),
                (
                    "b".to_owned(),
                    NodeRef::File {
                        id: id(3),
                        executable: false,
                    },
                ),
            ]
        })
        .expect("materialize");
    assert_eq!(at(&children, "a"), cached_a, "must reuse the kernel-known id");
    assert!(at(&children, "b") > cached_a, "new entries get fresh ids");
    // Root is now DirtyTree.
    let root = slab.get(ROOT_INODE).expect("root present");
    assert!(matches!(root.node, NodeRef::DirtyTree { .. }));
}

/// Materializing a directory that's already dirty is a no-op:
/// returns the existing children, doesn't allocate.
#[test]
fn materialize_dir_is_idempotent() {
    let mut slab = InodeSlab::new(id(1));
    slab.replace_node(
        ROOT_INODE,
        NodeRef::DirtyTree {
            children: names(&[("x", 42)]),
        },
    );
    let children = slab
        .materialize_dir_for_mutation(ROOT_INODE, || -> Vec<(String, NodeRef)> {
            panic!("loader must not run for an already-dirty tree");
        })
        .expect("materialize");
    assert_eq!(at(&children, "x"), 42);
}

/// `attach_child` plus `detach_child` round-trip: the child is
/// addressable by `(parent, name)` after attach, gone after detach.
/// The child *inode* survives detach (orphaned, see module docs).
#[test]
fn attach_then_detach_round_trips() {
    let mut slab = InodeSlab::new(id(1));
    slab.replace_node(
        ROOT_INODE,
        NodeRef::DirtyTree {
            children: NameMap::new(),
        },
    );
    let child = slab.alloc_inode(
        ROOT_INODE,
        "new.txt".to_owned(),
        NodeRef::DirtyFile {
            content: b"hi".to_vec(),
            executable: false,
        },
    );
    assert!(
        slab.attach_child(ROOT_INODE, "new.txt".to_owned(), child),
        "attach must succeed under an empty DirtyTree"
    );
    // Now `lookup`-equivalents resolve via `by_parent`.
    assert_eq!(
        slab.intern_child(ROOT_INODE, "new.txt", || panic!("must hit cache")),
        child,
    );
    let detached = slab.detach_child(ROOT_INODE, "new.txt").expect("detach");
    assert_eq!(detached, child);
    assert!(
        slab.detach_child(ROOT_INODE, "new.txt").is_none(),
        "second detach is None"
    );
    // Child inode still resolvable directly (orphaned but safe).
    assert!(slab.get(child).is_some());

    // A duplicate attach is rejected without corrupting state.
    let other = slab.alloc_inode(
        ROOT_INODE,
        "x.txt".to_owned(),
        NodeRef::DirtyFile {
            content: Vec::new(),
            executable: false,
        },
    );
    assert!(slab.attach_child(ROOT_INODE, "x.txt".to_owned(), other));
    let dup = slab.alloc_inode(
        ROOT_INODE,
        "x.txt".to_owned(),
        NodeRef::DirtyFile {
            content: Vec::new(),
            executable: false,
        },
    );
    assert!(
        !slab.attach_child(ROOT_INODE, "x.txt".to_owned(), dup),
        "duplicate attach must fail"
    );
}

/// Regression test for Bug 3 (dirty nodes clobbered by materialization).
///
/// If a child has already been promoted to a dirty variant
/// (e.g. `DirtyFile` via a prior `write`), re-materializing the
/// parent must NOT overwrite that child's `NodeRef` with the clean
/// version from the stored tree. Before the fix, the second
/// `materialize_dir_for_mutation` would unconditionally refresh
/// every existing child's `NodeRef`, silently discarding writes.
#[test]
fn materialize_preserves_dirty_children() {
    let mut slab = InodeSlab::new(id(1));

    // Step 1: intern "a" as a clean File — simulates lookup of an
    // existing tree entry that the kernel has cached.
    let child_a = slab.intern_child(ROOT_INODE, "a", || NodeRef::File {
        id: id(0x10),
        executable: false,
    });

    // Step 2: promote "a" to DirtyFile — simulates `ensure_dirty_file`
    // after a `write()` call.
    slab.replace_node(
        child_a,
        NodeRef::DirtyFile {
            content: b"modified".to_vec(),
            executable: false,
        },
    );

    // Step 3: materialize the parent. The loader provides the
    // original clean entry for "a" (as the store would). The fix
    // skips the refresh for "a" because it's already dirty.
    let children = slab
        .materialize_dir_for_mutation(ROOT_INODE, || {
            vec![
                (
                    "a".to_owned(),
                    NodeRef::File {
                        id: id(0x10),
                        executable: false,
                    },
                ),
                (
                    "b".to_owned(),
                    NodeRef::File {
                        id: id(0x20),
                        executable: false,
                    },
                ),
            ]
        })
        .expect("materialize");

    // "a" should still use the same inode id.
    assert_eq!(at(&children, "a"), child_a, "must reuse the kernel-known id");

    // Crucially: "a" must still be DirtyFile with the modified content,
    // not reverted to the clean File{id: 0x10}.
    let inode_a = slab.get(child_a).expect("child a present");
    assert!(
        matches!(inode_a.node, NodeRef::DirtyFile { ref content, .. } if content == b"modified"),
        "dirty child must survive materialization, got {:?}",
        inode_a.node,
    );

    // "b" should be the clean version from the loader.
    let child_b = at(&children, "b");
    let inode_b = slab.get(child_b).expect("child b present");
    let expected_b = id(0x20);
    assert!(
        matches!(inode_b.node, NodeRef::File { id: file_id, .. } if file_id == expected_b),
        "clean child should be refreshed normally",
    );
}

/// Interning the same name several times gives one inode, with the node that
/// came first.
#[test]
fn intern_child_idempotent() {
    for (name, n) in [("a", 2), ("readme.md", 5), ("z9_.x", 7)] {
        let mut slab = InodeSlab::new(id(0x11));
        let first = slab.intern_child(ROOT_INODE, name, || NodeRef::File {
            id: id(0x22),
            executable: false,
        });
        for _ in 1..n {
            let again = slab.intern_child(ROOT_INODE, name, || NodeRef::File {
                id: Id([0xff; 20]),
                executable: true,
            });
            assert_eq!(first, again);
        }
        let inode = slab.get(first).unwrap();
        assert!(matches!(inode.node, NodeRef::File { id: i, executable: false } if i == id(0x22)));
    }
}

#[test]
fn alloc_ids_are_monotonic() {
    let mut slab = InodeSlab::new(id(0));
    let mut prev = 0u64;
    for i in 0..31u8 {
        let child = slab.alloc_inode(
            ROOT_INODE,
            format!("child_{i}"),
            NodeRef::File {
                id: id(i),
                executable: false,
            },
        );
        assert!(child > prev, "id {child} must be > {prev}");
        prev = child;
    }
}

#[test]
fn attach_detach_roundtrip() {
    for (name, content) in [("a", Vec::new()), ("b.txt", vec![0u8, 255]), ("q_1", vec![7; 63])] {
        let mut slab = InodeSlab::new(id(1));
        slab.replace_node(ROOT_INODE, NodeRef::DirtyTree { children: NameMap::new() });
        let child = slab.alloc_inode(
            ROOT_INODE,
            name.to_owned(),
            NodeRef::DirtyFile { content, executable: false },
        );
        assert!(slab.attach_child(ROOT_INODE, name.to_owned(), child));
        let looked_up = slab.intern_child(ROOT_INODE, name, || panic!("should hit cache"));
        assert_eq!(looked_up, child);
        assert_eq!(slab.detach_child(ROOT_INODE, name), Some(child));
        let fresh = slab.intern_child(ROOT_INODE, name, || NodeRef::File {
            id: id(0xff),
            executable: false,
        });
        assert!(fresh > child, "fresh id after detach must be > old");
        assert!(slab.get(child).is_some(), "orphaned child must survive detach");
    }
}

#[test]
fn duplicate_attach_rejected() {
    for name in ["a", "name.with.dots", "z_0"] {
        let mut slab = InodeSlab::new(id(1));
        slab.replace_node(ROOT_INODE, NodeRef::DirtyTree { children: NameMap::new() });
        let node = || NodeRef::DirtyFile { content: Vec::new(), executable: false };
        let c1 = slab.alloc_inode(ROOT_INODE, name.to_owned(), node());
        let c2 = slab.alloc_inode(ROOT_INODE, name.to_owned(), node());
        assert!(slab.attach_child(ROOT_INODE, name.to_owned(), c1));
        assert!(
            !slab.attach_child(ROOT_INODE, name.to_owned(), c2),
            "duplicate attach must fail"
        );
    }
}

#[test]
fn swap_root_selective_clear() {
    for (n_root, n_sub) in [(1u8, 1u8), (3, 5), (5, 2)] {
        let mut slab = InodeSlab::new(id(1));
        let mut root_children = Vec::new();
        for i in 0..n_root {
            let name = format!("r{i}");
            let child = slab.intern_child(ROOT_INODE, &name, || NodeRef::File {
                id: id(i + 10),
                executable: false,
            });
            root_children.push((name, child));
        }
        let sub = slab.intern_child(ROOT_INODE, "sub", || NodeRef::Tree(id(0x50)));
        let mut sub_children = Vec::new();
        for i in 0..n_sub {
            let name = format!("s{i}");
            let child = slab.intern_child(sub, &name, || NodeRef::File {
                id: id(i + 20),
                executable: false,
            });
            sub_children.push((name, child));
        }
        slab.swap_root(id(0x99));
        for (name, old_id) in &root_children {
            let new_id = slab.intern_child(ROOT_INODE, name, || NodeRef::File {
                id: id(0xff),
                executable: false,
            });
            assert!(new_id > *old_id, "root child {name} must get fresh id");
        }
        let new_sub = slab.intern_child(ROOT_INODE, "sub", || NodeRef::Tree(id(0x51)));
        assert!(new_sub > sub, "sub entry under root must get fresh id");
        for (name, old_id) in &sub_children {
            let same = slab.intern_child(sub, name, || {
                panic!("sub-tree cache for {name} should have survived swap_root")
            });
            assert_eq!(same, *old_id);
        }
    }
}

#[test]
fn materialize_preserves_arbitrary_dirty_subset() {
    for (n, dirty_mask) in [(1u8, 0u8), (1, 1), (4, 0b1010), (7, 0b0110_1001), (7, 255)] {
        let mut slab = InodeSlab::new(id(1));
        let mut known = Vec::new();
        for i in 0..n {
            let name = format!("f{i}");
            let child = slab.intern_child(ROOT_INODE, &name, || NodeRef::File {
                id: id(i + 10),
                executable: false,
            });
            let dirty = (dirty_mask >> (i % 8)) & 1 == 1;
            if dirty {
                slab.replace_node(
                    child,
                    NodeRef::DirtyFile {
                        content: format!("dirty_{i}").into_bytes(),
                        executable: false,
                    },
                );
            }
            known.push((name, child, i, dirty));
        }
        let children = slab
            .materialize_dir_for_mutation(ROOT_INODE, || {
                (0..n)
                    .map(|i| {
                        (format!("f{i}"), NodeRef::File { id: id(i + 10), executable: false })
                    })
                    .collect()
            })
            .expect("materialize");
        for (name, old_id, i, dirty) in &known {
            let child_id = at(&children, name);
            assert_eq!(child_id, *old_id, "must reuse existing id for {name}");
            let inode = slab.get(child_id).unwrap();
            match &inode.node {
                NodeRef::DirtyFile { content, .. } => {
                    assert!(*dirty);
                    assert_eq!(content, &format!("dirty_{i}").into_bytes());
                }
                NodeRef::File { id: file_id, .. } => {
                    assert!(!*dirty);
                    assert_eq!(*file_id, id(*i + 10));
                }
                other => panic!("unexpected node {other:?}"),
            }
        }
    }
}

#[test]
fn reparent_changes_the_place_only() {
    let mut slab = InodeSlab::new(id(1));
    let dir = slab.intern_child(ROOT_INODE, "dir", || NodeRef::Tree(id(2)));
    let file = slab.intern_child(ROOT_INODE, "f", || NodeRef::File {
        id: id(3),
        executable: true,
    });
    assert!(slab.reparent(file, dir, "g".to_owned()));
    let inode = slab.get(file).unwrap();
    assert_eq!((inode.parent, inode.name.as_str()), (dir, "g"));
    assert!(matches!(inode.node, NodeRef::File { executable: true, .. }));
    assert!(!slab.reparent(99, dir, "g".to_owned()), "no such inode");
}
