use std::collections::BTreeMap;

use kiki::git_store::{GitContentStore, GitObjectKind, EMPTY_TREE};
use kiki::push_walk::{PushStep, PushWalk};
use kiki::remote::BlobKind;
use kiki::ty::Id;
use kiki::vfs::inode::ROOT_INODE;
use kiki::vfs::kiki_fs::{JjKikiFs, KikiFs};
use kiki::vfs::types::FileKind;

#[derive(Clone, Debug, PartialEq, Eq)]
enum ModelNode {
    File(Vec<u8>),
    Dir(BTreeMap<String, ModelNode>),
    Symlink(String),
}

type ModelTree = BTreeMap<String, ModelNode>;

#[derive(Debug, Clone)]
enum Op {
    CreateFile(String),
    Mkdir(String),
    WriteFile(String, Vec<u8>),
    Symlink { name: String, target: String },
    Remove(String),
    Rename { old: String, new: String },
    CreateInDir { dir: String, name: String },
    WriteInDir { dir: String, name: String, data: Vec<u8> },
    Snapshot,
}

/// The objects below a root, in a store of their own: what a disk would hold
/// after the daemon is gone.
fn survivors(store: &GitContentStore, root: Id) -> GitContentStore {
    let mut disk = GitContentStore::new_in_memory();
    let mut walk = PushWalk::new(root);
    loop {
        match walk.advance() {
            PushStep::Done => return disk,
            PushStep::Offer { kind, id } => {
                let bytes = walk.payload(store).expect("the object is there");
                let object = match kind {
                    BlobKind::Tree => GitObjectKind::Tree,
                    _ => GitObjectKind::Blob,
                };
                disk.import_object(id, object, bytes).expect("the bytes have the id");
                walk.confirm();
                if walk.tree_to_open().is_some() {
                    assert!(walk.open_tree(store).expect("a readable tree"));
                }
            }
        }
    }
}

fn restarted(fs: &KikiFs, root: Id) -> KikiFs {
    KikiFs::new(survivors(fs.store(), root), root, None, None, 0)
}

fn empty_fs() -> KikiFs {
    KikiFs::new(GitContentStore::new_in_memory(), Id(EMPTY_TREE), None, None, 0)
}

struct Sim {
    fs: KikiFs,
    model: ModelTree,
    committed: ModelTree,
    committed_root: Id,
}

impl Sim {
    fn new() -> Self {
        Sim {
            fs: empty_fs(),
            model: BTreeMap::new(),
            committed: BTreeMap::new(),
            committed_root: Id(EMPTY_TREE),
        }
    }

    fn run(&mut self, ops: &[Op]) {
        for op in ops {
            self.apply(op);
        }
    }

    fn apply(&mut self, op: &Op) {
        match op {
            Op::CreateFile(name) => {
                if self.fs.create_file(ROOT_INODE, name, false).is_ok() {
                    self.model.insert(name.clone(), ModelNode::File(Vec::new()));
                }
            }
            Op::Mkdir(name) => {
                if self.fs.mkdir(ROOT_INODE, name, None).is_ok() {
                    self.model.insert(name.clone(), ModelNode::Dir(BTreeMap::new()));
                }
            }
            Op::WriteFile(name, data) => {
                let Ok(ino) = self.fs.lookup(ROOT_INODE, name) else {
                    return;
                };
                if self.fs.write(ino, 0, data).is_ok() {
                    if let Some(ModelNode::File(c)) = self.model.get_mut(name) {
                        model_write(c, 0, data);
                    }
                }
            }
            Op::Symlink { name, target } => {
                if self.fs.symlink(ROOT_INODE, name, target).is_ok() {
                    self.model.insert(name.clone(), ModelNode::Symlink(target.clone()));
                }
            }
            Op::Remove(name) => {
                if self.fs.remove(ROOT_INODE, name).is_ok() {
                    self.model.remove(name);
                }
            }
            Op::Rename { old, new } => {
                if self.fs.rename(ROOT_INODE, old, ROOT_INODE, new).is_ok() {
                    if let Some(node) = self.model.remove(old) {
                        self.model.insert(new.clone(), node);
                    }
                }
            }
            Op::CreateInDir { dir, name } => {
                let Ok(dir_ino) = self.fs.lookup(ROOT_INODE, dir) else {
                    return;
                };
                if self.fs.create_file(dir_ino, name, false).is_ok() {
                    if let Some(ModelNode::Dir(children)) = self.model.get_mut(dir) {
                        children.insert(name.clone(), ModelNode::File(Vec::new()));
                    }
                }
            }
            Op::WriteInDir { dir, name, data } => {
                let Ok(dir_ino) = self.fs.lookup(ROOT_INODE, dir) else {
                    return;
                };
                let Ok(file_ino) = self.fs.lookup(dir_ino, name) else {
                    return;
                };
                if self.fs.write(file_ino, 0, data).is_ok() {
                    if let Some(ModelNode::Dir(children)) = self.model.get_mut(dir) {
                        if let Some(ModelNode::File(c)) = children.get_mut(name) {
                            model_write(c, 0, data);
                        }
                    }
                }
            }
            Op::Snapshot => {
                let Ok(root) = self.fs.snapshot() else {
                    return;
                };
                self.committed = self.model.clone();
                self.committed_root = root;
                let actual = walk_tree(&mut self.fs, ROOT_INODE);
                assert_eq!(actual, self.model, "model diverged from live FS after snapshot");
            }
        }
    }

    fn verify_crash_recovery(&self) {
        let mut fs = restarted(&self.fs, self.committed_root);
        let actual = walk_tree(&mut fs, ROOT_INODE);
        assert_eq!(
            actual,
            self.committed,
            "rehydrated tree does not match committed model at {}",
            self.committed_root.to_string(),
        );
    }
}

fn walk_tree(fs: &mut KikiFs, root: u64) -> ModelTree {
    let entries = fs.readdir(root).expect("readdir failed on a valid tree");
    let mut result = BTreeMap::new();
    for entry in entries {
        if entry.name == ".git" || entry.name == ".jj" {
            continue;
        }
        let attr = fs.getattr(entry.inode).expect("getattr failed for readdir result");
        let node = match attr.kind {
            FileKind::Regular => {
                let (data, _) =
                    fs.read(entry.inode, 0, u32::MAX).expect("read failed on a valid file");
                ModelNode::File(data)
            }
            FileKind::Directory => ModelNode::Dir(walk_tree(fs, entry.inode)),
            FileKind::Symlink => {
                let target =
                    fs.readlink(entry.inode).expect("readlink failed on a valid symlink");
                ModelNode::Symlink(target)
            }
        };
        result.insert(entry.name, node);
    }
    result
}

fn model_write(content: &mut Vec<u8>, offset: usize, data: &[u8]) {
    let end = offset + data.len();
    if content.len() < end {
        content.resize(end, 0);
    }
    content[offset..end].copy_from_slice(data);
}

/// A small generator, so that every run takes the same sequences.
struct Dice(u64);

impl Dice {
    fn roll(&mut self, sides: u64) -> u64 {
        self.0 = self.0.wrapping_mul(6364136223846793005).wrapping_add(1442695040888963407);
        (self.0 >> 33) % sides
    }

    fn name(&mut self) -> String {
        ["a", "b", "c", "d", "e"][self.roll(5) as usize].to_owned()
    }

    fn dir(&mut self) -> String {
        ["x", "y"][self.roll(2) as usize].to_owned()
    }

    fn content(&mut self) -> Vec<u8> {
        let n = self.roll(32);
        (0..n).map(|_| self.roll(256) as u8).collect()
    }

    fn op(&mut self) -> Op {
        match self.roll(20) {
            0..=2 => Op::CreateFile(self.name()),
            3..=4 => Op::Mkdir(self.dir()),
            5..=7 => Op::WriteFile(self.name(), self.content()),
            8 => Op::Symlink { name: self.name(), target: self.name() },
            9..=10 => Op::Remove(self.name()),
            11..=12 => Op::Rename { old: self.name(), new: self.name() },
            13..=14 => Op::CreateInDir { dir: self.dir(), name: self.name() },
            15..=16 => {
                Op::WriteInDir { dir: self.dir(), name: self.name(), data: self.content() }
            }
            _ => Op::Snapshot,
        }
    }

    fn ops(&mut self, most: u64) -> Vec<Op> {
        let n = 1 + self.roll(most);
        (0..n).map(|_| self.op()).collect()
    }
}

#[test]
fn basic_write_snapshot_crash_rehydrate() {
    let mut fs = empty_fs();
    let (ino, _) = fs.create_file(ROOT_INODE, "hello.txt", false).unwrap();
    fs.write(ino, 0, b"world").unwrap();
    let snap_root = fs.snapshot().unwrap();
    let mut fs2 = restarted(&fs, snap_root);
    let ino2 = fs2.lookup(ROOT_INODE, "hello.txt").unwrap();
    let (data, _) = fs2.read(ino2, 0, u32::MAX).unwrap();
    assert_eq!(data, b"world");
    let entries = fs2.readdir(ROOT_INODE).unwrap();
    let user_entries: Vec<_> = entries.iter().filter(|e| e.name != ".git").collect();
    assert_eq!(user_entries.len(), 1);
    assert_eq!(user_entries[0].name, "hello.txt");
}

#[test]
fn nested_dir_survives_crash_recovery() {
    let mut fs = empty_fs();
    let (dir_ino, _) = fs.mkdir(ROOT_INODE, "src", None).unwrap();
    let (file_ino, _) = fs.create_file(dir_ino, "main.rs", false).unwrap();
    fs.write(file_ino, 0, b"fn main() {}").unwrap();
    let snap_root = fs.snapshot().unwrap();
    let mut fs2 = restarted(&fs, snap_root);
    let dir2 = fs2.lookup(ROOT_INODE, "src").unwrap();
    let file2 = fs2.lookup(dir2, "main.rs").unwrap();
    let (data, _) = fs2.read(file2, 0, u32::MAX).unwrap();
    assert_eq!(data, b"fn main() {}");
}

#[test]
fn no_snapshot_means_rehydrate_to_empty() {
    let mut fs = empty_fs();
    fs.create_file(ROOT_INODE, "ephemeral.txt", false).unwrap();
    let mut fs2 = restarted(&fs, Id(EMPTY_TREE));
    let entries = fs2.readdir(ROOT_INODE).unwrap();
    let user_entries: Vec<_> = entries.iter().filter(|e| e.name != ".git").collect();
    assert!(user_entries.is_empty(), "expected empty after crash without snapshot");
}

#[test]
fn latest_snapshot_wins_after_crash() {
    let mut fs = empty_fs();
    let (ino, _) = fs.create_file(ROOT_INODE, "f", false).unwrap();
    fs.write(ino, 0, b"v1").unwrap();
    let _snap1 = fs.snapshot().unwrap();
    let ino = fs.lookup(ROOT_INODE, "f").unwrap();
    fs.write(ino, 0, b"v2").unwrap();
    let snap2 = fs.snapshot().unwrap();
    let ino = fs.lookup(ROOT_INODE, "f").unwrap();
    fs.write(ino, 0, b"v3-lost").unwrap();
    let mut fs2 = restarted(&fs, snap2);
    let ino2 = fs2.lookup(ROOT_INODE, "f").unwrap();
    let (data, _) = fs2.read(ino2, 0, u32::MAX).unwrap();
    assert_eq!(data, b"v2");
}

#[test]
fn rename_persists_through_snapshot() {
    let mut fs = empty_fs();
    let (ino, _) = fs.create_file(ROOT_INODE, "old.txt", false).unwrap();
    fs.write(ino, 0, b"content").unwrap();
    fs.rename(ROOT_INODE, "old.txt", ROOT_INODE, "new.txt").unwrap();
    let snap = fs.snapshot().unwrap();
    let mut fs2 = restarted(&fs, snap);
    assert!(fs2.lookup(ROOT_INODE, "old.txt").is_err());
    let ino2 = fs2.lookup(ROOT_INODE, "new.txt").unwrap();
    let (data, _) = fs2.read(ino2, 0, u32::MAX).unwrap();
    assert_eq!(data, b"content");
}

#[test]
fn remove_reflected_in_snapshot() {
    let mut fs = empty_fs();
    fs.create_file(ROOT_INODE, "gone.txt", false).unwrap();
    fs.create_file(ROOT_INODE, "kept.txt", false).unwrap();
    let _snap1 = fs.snapshot().unwrap();
    fs.remove(ROOT_INODE, "gone.txt").unwrap();
    let snap2 = fs.snapshot().unwrap();
    let mut fs2 = restarted(&fs, snap2);
    assert!(fs2.lookup(ROOT_INODE, "gone.txt").is_err());
    assert!(fs2.lookup(ROOT_INODE, "kept.txt").is_ok());
}

#[test]
fn symlink_survives_crash_recovery() {
    let mut fs = empty_fs();
    fs.symlink(ROOT_INODE, "link", "/usr/bin/env").unwrap();
    let snap = fs.snapshot().unwrap();
    let mut fs2 = restarted(&fs, snap);
    let ino2 = fs2.lookup(ROOT_INODE, "link").unwrap();
    let target = fs2.readlink(ino2).unwrap();
    assert_eq!(target, "/usr/bin/env");
}

#[test]
fn snapshot_idempotency_deterministic() {
    let mut fs = empty_fs();
    let (ino, _) = fs.create_file(ROOT_INODE, "f", false).unwrap();
    fs.write(ino, 0, b"data").unwrap();
    let (dir, _) = fs.mkdir(ROOT_INODE, "d", None).unwrap();
    fs.create_file(dir, "nested", false).unwrap();
    let id1 = fs.snapshot().unwrap();
    let id2 = fs.snapshot().unwrap();
    assert_eq!(id1, id2, "consecutive snapshots should produce the same root");
}

#[test]
fn write_extends_preserves_existing_content() {
    let mut fs = empty_fs();
    let (ino, _) = fs.create_file(ROOT_INODE, "f", false).unwrap();
    fs.write(ino, 0, b"hello world").unwrap();
    let _snap1 = fs.snapshot().unwrap();
    let ino = fs.lookup(ROOT_INODE, "f").unwrap();
    fs.write(ino, 0, b"HELLO").unwrap();
    let snap2 = fs.snapshot().unwrap();
    let mut fs2 = restarted(&fs, snap2);
    let ino2 = fs2.lookup(ROOT_INODE, "f").unwrap();
    let (data, _) = fs2.read(ino2, 0, u32::MAX).unwrap();
    assert_eq!(data, b"HELLO world");
}

#[test]
fn crash_at_arbitrary_point_recovers_to_last_snapshot() {
    for seed in 0..200 {
        let mut dice = Dice(seed);
        let ops = dice.ops(29);
        let crash_point = dice.roll(ops.len() as u64 + 1) as usize;
        let mut sim = Sim::new();
        sim.run(&ops[..crash_point]);
        sim.verify_crash_recovery();
    }
}

#[test]
fn full_sequence_then_crash_recovers() {
    for seed in 1000..1200 {
        let mut sim = Sim::new();
        sim.run(&Dice(seed).ops(29));
        sim.verify_crash_recovery();
    }
}

#[test]
fn snapshot_idempotency() {
    for seed in 2000..2200 {
        let mut sim = Sim::new();
        sim.run(&Dice(seed).ops(19));
        let id1 = sim.fs.snapshot().expect("snapshot 1");
        let id2 = sim.fs.snapshot().expect("snapshot 2");
        assert_eq!(id1, id2, "consecutive snapshots must produce the same root");
    }
}

#[test]
fn rehydrated_tree_is_fully_readable() {
    for seed in 3000..3200 {
        let mut sim = Sim::new();
        sim.run(&Dice(seed).ops(29));
        let mut fs = restarted(&sim.fs, sim.committed_root);
        let tree = walk_tree(&mut fs, ROOT_INODE);
        assert_eq!(tree, sim.committed);
    }
}

#[test]
fn stress_crash_recovery() {
    for seed in 4000..4040 {
        let mut dice = Dice(seed);
        let ops: Vec<Op> = (0..100).map(|_| dice.op()).collect();
        let crash_point = dice.roll(101) as usize;
        let mut sim = Sim::new();
        sim.run(&ops[..crash_point]);
        sim.verify_crash_recovery();
    }
}
