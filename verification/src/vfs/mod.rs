//! The filesystem of a working copy and how it is served.
//!
//! [`inode`] numbers what was met so far, [`tree_ops`] says what requests do to
//! the slab, [`kiki_fs`] and [`yak_fs`] are the filesystems, [`root_fs`] puts
//! workspaces under one mount, and the adapters speak to the kernel. [`model`],
//! [`laws`], [`slab_laws`], [`root_laws`], [`yak_laws`] and [`yak_changes`] state
//! what holds of them, [`canonical`] and [`same_content`] on what the id of a
//! snapshot depends.
//!
//! What single requests mean is stated in elementary terms: of bytes in [`io_laws`],
//! of entries in [`entry_laws`] and [`listing_laws`], of ignored and redirected ones in [`ignore_laws`] and
//! [`rule_laws`], of inodes in [`inode_laws`] and [`node_laws`], of snapshots in
//! [`snapshot_laws`], of the mount of many workspaces in [`registry_laws`] and
//! [`served_laws`], and of the adapters in [`adapter_laws`]. [`success_laws`] says when
//! changes succeed.

pub mod adapter_laws;
pub mod canonical;
pub mod entry_laws;
pub mod fuse_adapter;
pub mod ignore_laws;
pub mod inode;
pub mod inode_laws;
pub mod io_laws;
pub mod kiki_fs;
pub mod laws;
pub mod listing_laws;
pub mod model;
pub mod name_map;
pub mod nfs_adapter;
pub mod node_laws;
pub mod registry_laws;
pub mod root_fs;
pub mod root_laws;
pub mod rule_laws;
pub mod rules;
pub mod same_content;
pub mod served_laws;
pub mod slab_laws;
pub mod snapshot;
pub mod snapshot_laws;
pub mod success_laws;
pub mod tidy;
pub mod tree_ops;
pub mod types;
pub mod yak_changes;
pub mod yak_fs;
pub mod yak_laws;
pub mod yak_open;
pub mod yak_served;
