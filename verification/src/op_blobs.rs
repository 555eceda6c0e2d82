//! The blobs of the operation log: views and operations.
//!
//! Both are stored as they come. Before one is stored, its id is held against
//! the id that its content has.
use jj_lib::protos::simple_op_store::ref_target::Value;
use jj_lib::protos::simple_op_store::View as StoredView;
use prost::Message;
use vstd::prelude::*;
use crate::text::{concat2, concat3, decimal, decimal_str, hex, hex_encode, same_bytes};

verus! {

/// What a blob of the operation log is.
#[derive(Clone, Copy, Debug, PartialEq, Eq, Structural)]
pub enum OpStoreBlobKind {
    View,
    Operation,
}

impl OpStoreBlobKind {
    /// The word for the kind.
    pub open spec fn tag(self) -> Seq<char> {
        match self {
            OpStoreBlobKind::View => "view"@,
            OpStoreBlobKind::Operation => "operation"@,
        }
    }

    /// The word for the kind.
    pub fn as_str(self) -> (s: &'static str)
        ensures
            s@ == self.tag(),
    {
        match self {
            OpStoreBlobKind::View => "view",
            OpStoreBlobKind::Operation => "operation",
        }
    }
}

/// Number of bytes of the id of a view or an operation.
pub const OP_ID_LEN: usize = 64;

/// What came of reading a blob back and hashing its content.
#[derive(Clone, Debug)]
pub enum Rehashed {
    /// No place to read it from could be made.
    NoScratch(String),
    /// No store could be made there.
    NoStore(String),
    /// The blob could not be put there.
    NotWritten(String),
    /// The blob could not be decoded.
    NotDecoded(String),
    /// The content could not be hashed.
    NotHashed(String),
    /// The id of the content.
    Canonical(Vec<u8>),
}

/// All bytes are zero.
pub open spec fn all_zero(id: Seq<u8>) -> bool {
    forall|i: int| 0 <= i < id.len() ==> #[trigger] id[i] == 0
}

/// What is wrong with an id in itself, if anything.
pub open spec fn id_problem(kind: OpStoreBlobKind, id: Seq<u8>) -> Option<Seq<char>> {
    if id.len() != OP_ID_LEN {
        Some(kind.tag() + " id must be 64 bytes, got "@ + decimal(id.len()))
    } else if all_zero(id) {
        Some(kind.tag() + " id is the reserved all-zero root id and must not be stored"@)
    } else {
        None
    }
}

/// What is wrong with a blob under an id, if anything: the id has to be the one
/// that the content hashes to.
pub open spec fn blob_problem(kind: OpStoreBlobKind, id: Seq<u8>, found: Rehashed) -> Option<
    Seq<char>,
> {
    match id_problem(kind, id) {
        Some(text) => Some(text),
        None => match found {
            Rehashed::NoScratch(cause) => Some("creating temp op-store scratch dir: "@ + cause@),
            Rehashed::NoStore(cause) => Some(
                "initializing temp "@ + kind.tag() + " store: "@ + cause@,
            ),
            Rehashed::NotWritten(cause) => Some(
                "writing temp "@ + kind.tag() + " blob: "@ + cause@,
            ),
            Rehashed::NotDecoded(cause) => Some("decoding "@ + kind.tag() + " blob: "@ + cause@),
            Rehashed::NotHashed(cause) => Some("rehashing "@ + kind.tag() + " blob: "@ + cause@),
            Rehashed::Canonical(actual) => if actual@ == id {
                None
            } else {
                Some(
                    kind.tag() + " id/bytes mismatch: requested "@ + hex(id)
                        + " but canonical id is "@ + hex(actual@),
                )
            },
        },
    }
}

/// A check that either passes or says what is wrong.
pub open spec fn verdict(r: Result<(), String>) -> Option<Seq<char>> {
    match r {
        Ok(_) => None,
        Err(text) => Some(text@),
    }
}

fn is_all_zero(id: &[u8]) -> (r: bool)
    ensures
        r == all_zero(id@),
{
    let mut i: usize = 0;
    while i < id.len()
        invariant
            i <= id@.len(),
            forall|j: int| 0 <= j < i ==> id@[j] == 0,
        decreases id@.len() - i,
    {
        if id[i] != 0 {
            assert(id@[i as int] != 0);
            return false;
        }
        i = i + 1;
    }
    true
}

/// Check an id in itself, before anything is done with the blob.
pub fn check_op_store_id(kind: OpStoreBlobKind, requested_id: &[u8]) -> (r: Result<(), String>)
    ensures
        verdict(r) == id_problem(kind, requested_id@),
{
    if requested_id.len() != OP_ID_LEN {
        return Err(
            concat3(
                kind.as_str(),
                " id must be 64 bytes, got ",
                decimal_str(requested_id.len() as u64).as_str(),
            ),
        );
    }
    if is_all_zero(requested_id) {
        return Err(
            concat2(
                kind.as_str(),
                " id is the reserved all-zero root id and must not be stored",
            ),
        );
    }
    Ok(())
}

/// Text in front of and behind the word for a kind, and a cause.
fn failure(front: &str, kind: OpStoreBlobKind, back: &str, cause: &str) -> (s: String)
    ensures
        s@ == front@ + kind.tag() + back@ + cause@,
{
    let mut s = concat3(front, kind.as_str(), back);
    s.append(cause);
    s
}

/// Check a blob against its id. `found` is what came of reading the blob back
/// under the id and hashing its content.
pub fn validate_op_store_blob_id(
    kind: OpStoreBlobKind,
    requested_id: &[u8],
    found: &Rehashed,
) -> (r: Result<(), String>)
    ensures
        verdict(r) == blob_problem(kind, requested_id@, *found),
{
    match check_op_store_id(kind, requested_id) {
        Ok(_) => {},
        Err(text) => {
            return Err(text);
        },
    }
    match found {
        Rehashed::NoScratch(cause) => Err(
            concat2("creating temp op-store scratch dir: ", cause.as_str()),
        ),
        Rehashed::NoStore(cause) => Err(
            failure("initializing temp ", kind, " store: ", cause.as_str()),
        ),
        Rehashed::NotWritten(cause) => Err(
            failure("writing temp ", kind, " blob: ", cause.as_str()),
        ),
        Rehashed::NotDecoded(cause) => Err(failure("decoding ", kind, " blob: ", cause.as_str())),
        Rehashed::NotHashed(cause) => Err(failure("rehashing ", kind, " blob: ", cause.as_str())),
        Rehashed::Canonical(actual) => {
            if same_bytes(actual.as_slice(), requested_id) {
                return Ok(());
            }
            let mut s = concat3(
                kind.as_str(),
                " id/bytes mismatch: requested ",
                hex_encode(requested_id).as_str(),
            );
            s.append(" but canonical id is ");
            s.append(hex_encode(actual.as_slice()).as_str());
            Err(s)
        },
    }
}

/// One blob passes under one id at most.
pub proof fn wrong_id_never_validates(
    kind: OpStoreBlobKind,
    id: Seq<u8>,
    other: Seq<u8>,
    found: Rehashed,
)
    requires
        blob_problem(kind, id, found) is None,
        other != id,
    ensures
        blob_problem(kind, other, found) is Some,
{
}

/// Where a ref points.
#[derive(Clone, Debug)]
pub enum RefValue {
    CommitId(Vec<u8>),
    ConflictLegacy { removes: Vec<Vec<u8>>, adds: Vec<Vec<u8>> },
    /// A merge of commits; one without removals and with one addition is that
    /// addition.
    Conflict { removes: Vec<Option<Vec<u8>>>, adds: Vec<Option<Vec<u8>>> },
}

/// The value of a [`RefValue`].
pub enum RefValueView {
    CommitId(Seq<u8>),
    ConflictLegacy { removes: Seq<Seq<u8>>, adds: Seq<Seq<u8>> },
    Conflict { removes: Seq<Option<Seq<u8>>>, adds: Seq<Option<Seq<u8>>> },
}

/// The values of the terms of a merge.
pub open spec fn terms(values: Seq<Option<Vec<u8>>>) -> Seq<Option<Seq<u8>>> {
    values.map_values(|v: Option<Vec<u8>>| crate::store::bytes_in(v))
}

impl View for RefValue {
    type V = RefValueView;

    open spec fn view(&self) -> RefValueView {
        match self {
            RefValue::CommitId(id) => RefValueView::CommitId(id@),
            RefValue::ConflictLegacy { removes, adds } => RefValueView::ConflictLegacy {
                removes: removes@.map_values(|v: Vec<u8>| v@),
                adds: adds@.map_values(|v: Vec<u8>| v@),
            },
            RefValue::Conflict { removes, adds } => RefValueView::Conflict {
                removes: terms(removes@),
                adds: terms(adds@),
            },
        }
    }
}

/// The target of a ref.
#[derive(Clone, Debug)]
pub struct RefTarget {
    pub value: Option<RefValue>,
}

/// The value of a [`RefTarget`].
pub struct RefTargetView {
    pub value: Option<RefValueView>,
}

impl View for RefTarget {
    type V = RefTargetView;

    open spec fn view(&self) -> RefTargetView {
        RefTargetView {
            value: match self.value {
                Some(v) => Some(v@),
                None => None,
            },
        }
    }
}

/// A bookmark of a view.
#[derive(Clone, Debug)]
pub struct ViewBookmark {
    pub name: String,
    pub local_target: Option<RefTarget>,
}

/// The value of a [`ViewBookmark`].
pub struct ViewBookmarkView {
    pub name: Seq<char>,
    pub local_target: Option<RefTargetView>,
}

impl View for ViewBookmark {
    type V = ViewBookmarkView;

    open spec fn view(&self) -> ViewBookmarkView {
        ViewBookmarkView {
            name: self.name@,
            local_target: match self.local_target {
                Some(t) => Some(t@),
                None => None,
            },
        }
    }
}

/// The bookmarks of a decoded view, by value.
pub open spec fn bookmark_views(list: Seq<ViewBookmark>) -> Seq<ViewBookmarkView> {
    list.map_values(|b: ViewBookmark| b@)
}

/// The bookmarks of a view that may have been decoded, by value.
pub open spec fn decoded_in(list: Option<Vec<ViewBookmark>>) -> Option<Seq<ViewBookmarkView>> {
    match list {
        Some(l) => Some(bookmark_views(l@)),
        None => None,
    }
}

/// The bookmarks in the bytes of a view, in their order, if the bytes are a
/// view at all.
pub uninterp spec fn decoded_view(data: Seq<u8>) -> Option<Seq<ViewBookmarkView>>;

/// Calls `prost::Message::decode` of `jj_lib::protos::simple_op_store::View`.
///
/// Claimed of it: whether the bytes are a view, and which bookmarks with which
/// local targets it holds, depends on the bytes alone. What the encoding looks
/// like is not stated.
#[verifier::external_body]
fn decode_view(data: &[u8]) -> (r: Option<Vec<ViewBookmark>>)
    ensures
        decoded_in(r) == decoded_view(data@),
{
    let view = StoredView::decode(data).ok()?;
    let plain = |v| match v {
        Value::CommitId(id) => RefValue::CommitId(id),
        Value::ConflictLegacy(c) => RefValue::ConflictLegacy { removes: c.removes, adds: c.adds },
        Value::Conflict(c) => RefValue::Conflict {
            removes: c.removes.into_iter().map(|t| t.value).collect(),
            adds: c.adds.into_iter().map(|t| t.value).collect(),
        },
    };
    let target = |t: jj_lib::protos::simple_op_store::RefTarget| RefTarget { value: t.value.map(plain) };
    let list = view.bookmarks.into_iter();
    Some(list.map(|b| ViewBookmark { name: b.name, local_target: b.local_target.map(target) }).collect())
}

/// A bookmark and the commit that it points at.
pub type Bookmark = (String, Vec<u8>);

/// The value of a [`Bookmark`].
pub type BookmarkValue = (Seq<char>, Seq<u8>);

/// The values of bookmarks.
pub open spec fn bookmark_values(list: Seq<Bookmark>) -> Seq<BookmarkValue> {
    list.map_values(|b: Bookmark| (b.0@, b.1@))
}

/// The one commit that a target stands for, if it is not a conflict.
pub open spec fn resolved(target: RefTargetView) -> Option<Seq<u8>> {
    match target.value {
        Some(RefValueView::Conflict { removes, adds }) => if removes.len() == 0 && adds.len() == 1 {
            adds[0]
        } else {
            None
        },
        _ => None,
    }
}

/// The bookmarks that stand for one commit, in their order.
pub open spec fn resolved_all(list: Seq<ViewBookmarkView>) -> Seq<BookmarkValue>
    decreases list.len(),
{
    if list.len() == 0 {
        seq![]
    } else {
        let front = resolved_all(list.drop_last());
        match list.last().local_target {
            Some(target) => match resolved(target) {
                Some(id) => front.push((list.last().name, id)),
                None => front,
            },
            None => front,
        }
    }
}

/// The one commit that a target stands for, if it is not a conflict.
pub fn resolved_commit_id(target: &RefTarget) -> (r: Option<Vec<u8>>)
    ensures
        crate::store::bytes_in(r) == resolved(target@),
{
    match &target.value {
        Some(RefValue::Conflict { removes, adds }) => {
            if removes.len() == 0 && adds.len() == 1 {
                match &adds[0] {
                    Some(id) => Some(crate::text::copy_bytes(id.as_slice())),
                    None => None,
                }
            } else {
                None
            }
        },
        _ => None,
    }
}

/// The bookmarks that stand for one commit, in their order.
pub fn resolved_bookmarks(list: &Vec<ViewBookmark>) -> (r: Vec<Bookmark>)
    ensures
        bookmark_values(r@) == resolved_all(bookmark_views(list@)),
{
    let ghost all = bookmark_views(list@);
    let mut out: Vec<Bookmark> = Vec::new();
    assert(bookmark_values(out@) =~= seq![]);
    assert(all.take(0) =~= seq![]);
    let mut i: usize = 0;
    while i < list.len()
        invariant
            i <= list@.len(),
            all == bookmark_views(list@),
            bookmark_values(out@) == resolved_all(all.take(i as int)),
        decreases list@.len() - i,
    {
        proof {
            assert(all.take(i + 1).drop_last() =~= all.take(i as int));
            assert(all.take(i + 1).last() == list@[i as int]@);
        }
        match &list[i].local_target {
            Some(target) => {
                match resolved_commit_id(target) {
                    Some(id) => {
                        let ghost before = bookmark_values(out@);
                        let ghost value = (list@[i as int].name@, id@);
                        let name = list[i].name.as_str().to_owned();
                        out.push((name, id));
                        assert(bookmark_values(out@) =~= before.push(value));
                    },
                    None => {},
                }
            },
            None => {},
        }
        i = i + 1;
    }
    assert(all.take(i as int) =~= all);
    out
}

/// The bookmarks of a view that stand for one commit each. Bytes that are no
/// view give none.
pub fn bookmarks_from_view_bytes(data: &[u8]) -> (r: Vec<Bookmark>)
    ensures
        bookmark_values(r@) == match decoded_view(data@) {
            Some(list) => resolved_all(list),
            None => seq![],
        },
{
    match decode_view(data) {
        Some(list) => resolved_bookmarks(&list),
        None => {
            let out: Vec<Bookmark> = Vec::new();
            assert(bookmark_values(out@) =~= seq![]);
            out
        },
    }
}

} // verus!
