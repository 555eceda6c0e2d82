# kiki

A daemon that shows the working copies of a version control system as
filesystems. A working copy is mounted over FUSE or NFS; what is read comes from
a content store of git objects, what is written stays in memory until a snapshot
turns it into objects, and a remote can hold copies of everything.

`src/` is the verified library. Each function states in its contract what it
returns and changes, over mathematical models of the data; each module of laws
states what holds of several functions together.

| module | what it holds |
| --- | --- |
| `ty`, `text`, `sorted_map` | object ids, orders on names and bytes, maps by bytes |
| `git_store`, `commit`, `store` | git objects and their encoding; the tables of the operation log |
| `vfs` | inodes, requests on a tree, snapshots, workspaces under one mount, adapters |
| `op_blobs`, `git_changes`, `push_walk` | checks of operation log blobs, changes made by git tools, what a push offers |
| `remote`, `framing` | kinds, refs and URLs of remotes; the store protocol over a pipe |
| `mount`, `mountpoint`, `paths`, `vfs_mgr`, `status` | state of a mount, where it may be attached, where files lie, ports, refusals |
| `service` | the requests that a front end makes |

`app/` is the program around it: it reads and writes files, talks to the kernel,
to `git` and to remotes, and asks the library what to do next.

`tests/` runs the library.
