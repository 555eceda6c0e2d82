//! A virtual filesystem for repositories, stored as git objects.
//!
//! The daemon serves working copies through the kernel: [`vfs`] holds the
//! filesystem and the adapters for FUSE and NFS, [`service`] the requests that a
//! front end makes, [`git_store`] the content and [`store`] the operation log.
//! What the library decides is stated over plain values; reading and writing
//! files, mounting and talking to other daemons is left to the program around it.
//!
//! Modules named for laws hold no code: they state, in terms of what goes in and what
//! comes out, what the other modules do.

pub mod commit;
pub mod framing;
pub mod git_changes;
pub mod git_laws;
pub mod git_store;
pub mod log_laws;
pub mod message_laws;
pub mod mount;
pub mod mountpoint;
pub mod op_blobs;
pub mod paths;
pub mod place_laws;
pub mod push_laws;
pub mod push_walk;
pub mod remote;
pub mod service;
pub mod sorted_map;
pub mod status;
pub mod store;
pub mod text;
pub mod text_laws;
pub mod ty;
pub mod vfs;
pub mod vfs_mgr;
pub mod view_laws;
pub mod wire_laws;
