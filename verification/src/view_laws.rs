//! Values say what their types hold: nothing of a result is lost or made up on the way
//! from a type to its value.
use vstd::prelude::*;
use crate::git_store::{tree_view, GitTreeEntry};
use crate::mount::{exported_in, MountMetadata};
use crate::op_blobs::{
    bookmark_values, bookmark_views, decoded_in, terms, verdict, Bookmark, ViewBookmark,
};
use crate::remote::{BlobKind, CasOutcome};
use crate::service::content::{
    bytes_found, commit_answer, pushes_view, stored_answer, text_found, tree_found, CommitStored,
    Found, Stored,
};
use crate::service::rehydrate::metas_view;
use crate::service::working_copy::{snapshot_reply, SnapshotReply};
use crate::service::{
    answered, bytes_answered, checkout_in, checkout_value, save_in, CheckoutState, SaveRequest,
};
use crate::status::Status;
use crate::store::{bytes_in, cas_view, key_values, name_values, slice_in, CasView};
use crate::text::text_in;
use crate::vfs::root_fs::{config_view, row_view, WorkspaceConfig};
use crate::vfs::tree_ops::hidden_set;
use crate::vfs::types::{
    listing_outcome, listing_view, outcome, read_outcome, text_outcome, DirEntry, FsError,
};

verus! {

/// The value of what may be there is that of what is.
pub proof fn optional_values(
    bytes: Option<Vec<u8>>,
    slice: Option<&[u8]>,
    text: Option<String>,
    bookmarks: Option<Vec<Bookmark>>,
    views: Option<Vec<ViewBookmark>>,
)
    ensures
        bytes is None <==> bytes_in(bytes) is None,
        bytes matches Some(b) ==> bytes_in(bytes) == Some(b@),
        slice is None <==> slice_in(slice) is None,
        slice matches Some(b) ==> slice_in(slice) == Some(b@),
        text is None <==> text_in(text) is None,
        text matches Some(t) ==> text_in(text) == Some(t@),
        bookmarks is None <==> exported_in(bookmarks) is None,
        bookmarks matches Some(l) ==> exported_in(bookmarks) == Some(bookmark_values(l@)),
        views is None <==> decoded_in(views) is None,
        views matches Some(l) ==> decoded_in(views) == Some(bookmark_views(l@)),
{
}

/// The values of a list are those of its elements, in their order.
pub proof fn list_values(
    bookmarks: Seq<Bookmark>,
    views: Seq<ViewBookmark>,
    values: Seq<Option<Vec<u8>>>,
    entries: Seq<GitTreeEntry>,
    listed: Seq<DirEntry>,
    pushes: Seq<(BlobKind, Vec<u8>)>,
    metas: Seq<MountMetadata>,
    keys: Seq<Vec<u8>>,
    names: Seq<String>,
    hidden: Seq<&str>,
    name: Seq<char>,
    i: int,
)
    ensures
        bookmark_values(bookmarks).len() == bookmarks.len(),
        0 <= i < bookmarks.len() ==> bookmark_values(bookmarks)[i] == (
            bookmarks[i].0@,
            bookmarks[i].1@,
        ),
        bookmark_views(views).len() == views.len(),
        0 <= i < views.len() ==> bookmark_views(views)[i].name == views[i].name@,
        0 <= i < views.len() ==> (views[i].local_target is None <==> bookmark_views(
            views,
        )[i].local_target is None),
        terms(values).len() == values.len(),
        0 <= i < values.len() ==> terms(values)[i] == bytes_in(values[i]),
        tree_view(entries).len() == entries.len(),
        0 <= i < entries.len() ==> tree_view(entries)[i].name == entries[i].name@ && tree_view(
            entries,
        )[i].kind == entries[i].kind && tree_view(entries)[i].id == entries[i].id,
        listing_view(listed).len() == listed.len(),
        0 <= i < listed.len() ==> listing_view(listed)[i].name == listed[i].name@ && listing_view(
            listed,
        )[i].kind == listed[i].kind && listing_view(listed)[i].inode == listed[i].inode,
        pushes_view(pushes).len() == pushes.len(),
        0 <= i < pushes.len() ==> pushes_view(pushes)[i] == (pushes[i].0, pushes[i].1@),
        metas_view(metas).len() == metas.len(),
        0 <= i < metas.len() ==> metas_view(metas)[i] == metas[i]@,
        key_values(keys).len() == keys.len(),
        0 <= i < keys.len() ==> key_values(keys)[i] == keys[i]@,
        name_values(names).len() == names.len(),
        0 <= i < names.len() ==> name_values(names)[i] == names[i]@,
        0 <= i < hidden.len() ==> hidden_set(hidden).contains(hidden[i]@),
        hidden.len() == 0 ==> !hidden_set(hidden).contains(name),
        hidden_set(hidden).contains(name) ==> exists|k: int|
            0 <= k < hidden.len() && (#[trigger] hidden[k])@ == name,
{
    if 0 <= i < hidden.len() {
        assert(hidden[i]@ == hidden[i]@);
    }
}

/// The value of an answer is that of what was given, or that of the refusal.
pub proof fn answer_values<T>(
    plain: Result<T, Status>,
    bytes: Result<Vec<u8>, Status>,
    stored: Result<Stored, Status>,
    commit: Result<CommitStored, Status>,
    reply: Result<SnapshotReply, Status>,
    checked: Result<(), String>,
)
    ensures
        match plain {
            Ok(t) => answered(plain) matches Ok(v) && v == t,
            Err(s) => answered(plain) matches Err(v) && v.code == s.code && v.message == s.message@,
        },
        match bytes {
            Ok(b) => bytes_answered(bytes) matches Ok(v) && v == b@,
            Err(s) => bytes_answered(bytes) matches Err(v) && v.code == s.code && v.message
                == s.message@,
        },
        match stored {
            Ok(o) => stored_answer(stored) matches Ok((id, push)) && id == o.id && push == bytes_in(
                o.push,
            ),
            Err(s) => stored_answer(stored) matches Err(v) && v.code == s.code && v.message
                == s.message@,
        },
        match commit {
            Ok(o) => commit_answer(commit) matches Ok((id, pushes)) && id == o.id && pushes
                == pushes_view(o.pushes@),
            Err(s) => commit_answer(commit) matches Err(v) && v.code == s.code && v.message
                == s.message@,
        },
        match reply {
            Ok(o) => snapshot_reply(reply) matches Ok((tree, head)) && tree == o.tree_id@ && head
                == o.external_git_head@,
            Err(s) => snapshot_reply(reply) matches Err(v) && v.code == s.code && v.message
                == s.message@,
        },
        match checked {
            Ok(_) => verdict(checked) is None,
            Err(text) => verdict(checked) == Some(text@),
        },
{
}

/// The value of a read is what it found, where it has to be fetched from, or the
/// refusal.
pub proof fn found_values(
    bytes: Result<Found<Vec<u8>>, Status>,
    text: Result<Found<String>, Status>,
    tree: Result<Found<Vec<GitTreeEntry>>, Status>,
)
    ensures
        match bytes {
            Ok(Found::Here(b)) => bytes_found(bytes) matches Ok(Found::Here(v)) && v == b@,
            Ok(Found::Elsewhere(id)) => bytes_found(bytes) matches Ok(Found::Elsewhere(v)) && v == id,
            Err(s) => bytes_found(bytes) matches Err(v) && v.code == s.code && v.message
                == s.message@,
        },
        match text {
            Ok(Found::Here(t)) => text_found(text) matches Ok(Found::Here(v)) && v == t@,
            Ok(Found::Elsewhere(id)) => text_found(text) matches Ok(Found::Elsewhere(v)) && v == id,
            Err(s) => text_found(text) matches Err(v) && v.code == s.code && v.message == s.message@,
        },
        match tree {
            Ok(Found::Here(t)) => tree_found(tree) matches Ok(Found::Here(v)) && v == tree_view(t@),
            Ok(Found::Elsewhere(id)) => tree_found(tree) matches Ok(Found::Elsewhere(v)) && v == id,
            Err(s) => tree_found(tree) matches Err(v) && v.code == s.code && v.message == s.message@,
        },
{
}

/// The value of a filesystem's result is that of what was given, or that of the error.
pub proof fn outcome_values<T>(
    plain: Result<T, FsError>,
    read: Result<(Vec<u8>, bool), FsError>,
    listed: Result<Vec<DirEntry>, FsError>,
    text: Result<String, FsError>,
)
    ensures
        match plain {
            Ok(t) => outcome(plain) matches Ok(v) && v == t,
            Err(e) => outcome(plain) matches Err(v) && v == e@,
        },
        match read {
            Ok((data, eof)) => read_outcome(read) matches Ok((v, end)) && v == data@ && end == eof,
            Err(e) => read_outcome(read) matches Err(v) && v == e@,
        },
        match listed {
            Ok(out) => listing_outcome(listed) matches Ok(v) && v == listing_view(out@),
            Err(e) => listing_outcome(listed) matches Err(v) && v == e@,
        },
        match text {
            Ok(t) => text_outcome(text) matches Ok(v) && v == t@,
            Err(e) => text_outcome(text) matches Err(v) && v == e@,
        },
{
}

/// The values of what is set, saved and swapped.
pub proof fn state_values(
    checkout: Option<CheckoutState>,
    save: Option<SaveRequest>,
    outcome: CasOutcome,
    config: WorkspaceConfig,
    row: (String, String, Vec<String>),
    i: int,
)
    ensures
        match checkout {
            Some(c) => checkout_in(checkout) == Some((c.op_id@, c.workspace_id@)) && checkout_value(
                c,
            ) == (c.op_id@, c.workspace_id@),
            None => checkout_in(checkout) is None,
        },
        match save {
            Some(s) => save_in(save) matches Some((file, meta)) && {
                &&& file == s.file@
                &&& meta.working_copy_path == s.metadata.working_copy_path@
                &&& meta.remote == s.metadata.remote@
                &&& meta.op_id == s.metadata.op_id@
                &&& meta.workspace_id == s.metadata.workspace_id@
                &&& meta.root_tree_id == s.metadata.root_tree_id@
            },
            None => save_in(save) is None,
        },
        config_view(config).state == config.state,
        config_view(config).slot == config.slot,
        config_view(config).op_id == config.op_id@,
        config_view(config).workspace_id == config.workspace_id@,
        config_view(config).root_tree_id == config.root_tree_id@,
        row_view(row).0 == row.0@,
        row_view(row).1 == row.1@,
        row_view(row).2.len() == row.2@.len(),
        0 <= i < row.2@.len() ==> row_view(row).2[i] == row.2@[i]@,
        match outcome {
            CasOutcome::Updated => cas_view(outcome) == CasView::Updated,
            CasOutcome::Conflict { actual } => cas_view(outcome) == CasView::Conflict(
                bytes_in(actual),
            ),
        },
{
}

} // verus!
