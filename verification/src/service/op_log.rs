//! The operation log and the refs of a mount.
//!
//! Blobs are stored and handed out as they are. With a remote, what is written
//! goes there as well, what is missing comes from there, and the refs are those
//! of the remote.
use vstd::prelude::*;
use crate::mount::MountView;
use crate::op_blobs::{
    blob_problem, validate_op_store_blob_id, OpStoreBlobKind, Rehashed, OP_ID_LEN,
};
use crate::remote::{is_ref_name, ref_name_message, validate_ref_name, CasOutcome};
use crate::service::{JujutsuService, ServiceView};
use crate::status::{decode_status, in_context, refusal, status_in, Code, Status, StatusView};
use crate::store::{
    begins_with_text, bytes_in, cas_view, lists, operation_ids, ref_value, resolves, row, slice_in,
    swapped, OpPrefixResult, PrefixView, Rows,
};
use crate::text::{concat2, decimal, decimal_str};

verus! {

/// The table of a kind of blob.
pub open spec fn table(kind: OpStoreBlobKind) -> Seq<char> {
    match kind {
        OpStoreBlobKind::View => "views_v1"@,
        OpStoreBlobKind::Operation => "operations_v1"@,
    }
}

/// A stored blob, and whether it has to be pushed.
#[derive(Clone, Debug)]
pub struct LogStored {
    pub push: bool,
}

/// What a read found.
#[derive(Clone, Debug)]
pub enum LogFound {
    /// The bytes.
    Here(Vec<u8>),
    /// The remote has to be asked.
    Elsewhere,
    /// There is no such blob.
    Nowhere,
}

/// The value of a [`LogFound`].
pub enum LogFoundView {
    Here(Seq<u8>),
    Elsewhere,
    Nowhere,
}

impl View for LogFound {
    type V = LogFoundView;

    open spec fn view(&self) -> LogFoundView {
        match self {
            LogFound::Here(data) => LogFoundView::Here(data@),
            LogFound::Elsewhere => LogFoundView::Elsewhere,
            LogFound::Nowhere => LogFoundView::Nowhere,
        }
    }
}

/// The mount with other rows in its database.
pub open spec fn with_rows(m: MountView, rows: Rows) -> MountView {
    MountView { rows, ..m }
}

/// The refusal is that of a database failure in a given step.
pub open spec fn database_failed(s: StatusView, context: Seq<char>) -> bool {
    s.code == Code::Internal && begins_with_text(s.message, context + ": "@)
}

/// What storing a blob does and gives. Where the database fails, the blob is
/// stored all the same or nothing has changed.
pub open spec fn blob_put(
    before: ServiceView,
    path: Seq<char>,
    kind: OpStoreBlobKind,
    id: Seq<u8>,
    data: Seq<u8>,
    context: Seq<char>,
    after: ServiceView,
    r: Result<LogStored, Status>,
) -> bool {
    let m = before.mounts[path];
    let stored = before.with_mount(path, with_rows(m, m.rows.insert((table(kind), id), data)));
    match r {
        Ok(answer) => answer.push == m.connected && after == stored,
        Err(s) => database_failed(s@, context) && (after == before || after == stored),
    }
}

/// What writing a blob does and gives: it is refused unless its content has the
/// id.
pub open spec fn log_written(
    before: ServiceView,
    path: Seq<char>,
    kind: OpStoreBlobKind,
    id: Seq<u8>,
    data: Seq<u8>,
    found: Rehashed,
    after: ServiceView,
    r: Result<LogStored, Status>,
) -> bool {
    match before.at(path) {
        Err(s) => after == before && (r matches Err(e) && e@ == s),
        Ok(_) => match blob_problem(kind, id, found) {
            Some(text) => after == before && (r matches Err(e) && e@ == in_context(
                Code::InvalidArgument,
                kind.tag() + " blob"@,
                text,
            )),
            None => blob_put(before, path, kind, id, data, "write_"@ + kind.tag(), after, r),
        },
    }
}

/// What keeping a blob of the remote does and gives: one whose content does not
/// have the id is reported as lost data.
pub open spec fn log_kept(
    before: ServiceView,
    path: Seq<char>,
    kind: OpStoreBlobKind,
    id: Seq<u8>,
    data: Seq<u8>,
    found: Rehashed,
    after: ServiceView,
    r: Result<LogStored, Status>,
) -> bool {
    match before.at(path) {
        Err(s) => after == before && (r matches Err(e) && e@ == s),
        Ok(_) => match blob_problem(kind, id, found) {
            Some(text) => after == before && (r matches Err(e) && e@ == in_context(
                Code::DataLoss,
                "remote "@ + kind.tag() + " blob"@,
                text,
            )),
            None => blob_put(
                before,
                path,
                kind,
                id,
                data,
                "cache write_"@ + kind.tag(),
                after,
                r,
            ),
        },
    }
}

/// What reading a blob gives.
pub open spec fn log_read(
    v: ServiceView,
    path: Seq<char>,
    kind: OpStoreBlobKind,
    id: Seq<u8>,
    r: Result<LogFound, Status>,
) -> bool {
    match v.at(path) {
        Err(s) => r matches Err(e) && e@ == s,
        Ok(m) => if id.len() != OP_ID_LEN {
            r matches Err(e) && e@ == refusal(
                Code::InvalidArgument,
                kind.tag() + "_id must be 64 bytes, got "@ + decimal(id.len()),
            )
        } else {
            match r {
                Err(e) => database_failed(e@, "get_"@ + kind.tag()),
                Ok(found) => found@ == match row(m.rows, table(kind), id) {
                    Some(data) => LogFoundView::Here(data),
                    None => if m.connected {
                        LogFoundView::Elsewhere
                    } else {
                        LogFoundView::Nowhere
                    },
                },
            }
        },
    }
}

/// The texts that name a kind, joined.
proof fn lemma_texts()
    ensures
        "view blob"@ == OpStoreBlobKind::View.tag() + " blob"@,
        "operation blob"@ == OpStoreBlobKind::Operation.tag() + " blob"@,
        "write_view"@ == "write_"@ + OpStoreBlobKind::View.tag(),
        "write_operation"@ == "write_"@ + OpStoreBlobKind::Operation.tag(),
        "get_view"@ == "get_"@ + OpStoreBlobKind::View.tag(),
        "get_operation"@ == "get_"@ + OpStoreBlobKind::Operation.tag(),
        "cache write_view"@ == "cache write_"@ + OpStoreBlobKind::View.tag(),
        "cache write_operation"@ == "cache write_"@ + OpStoreBlobKind::Operation.tag(),
        "remote view blob"@ == "remote "@ + OpStoreBlobKind::View.tag() + " blob"@,
        "remote operation blob"@ == "remote "@ + OpStoreBlobKind::Operation.tag() + " blob"@,
        "view_id must be 64 bytes, got "@ == OpStoreBlobKind::View.tag()
            + "_id must be 64 bytes, got "@,
        "operation_id must be 64 bytes, got "@ == OpStoreBlobKind::Operation.tag()
            + "_id must be 64 bytes, got "@,
{
    reveal_strlit("view blob");
    reveal_strlit("operation blob");
    reveal_strlit(" blob");
    reveal_strlit("write_view");
    reveal_strlit("write_operation");
    reveal_strlit("write_");
    reveal_strlit("get_view");
    reveal_strlit("get_operation");
    reveal_strlit("get_");
    reveal_strlit("cache write_view");
    reveal_strlit("cache write_operation");
    reveal_strlit("cache write_");
    reveal_strlit("remote view blob");
    reveal_strlit("remote operation blob");
    reveal_strlit("remote ");
    reveal_strlit("view_id must be 64 bytes, got ");
    reveal_strlit("operation_id must be 64 bytes, got ");
    reveal_strlit("_id must be 64 bytes, got ");
    reveal_strlit("view");
    reveal_strlit("operation");
}

/// What a prefix of an operation id stands for, as a number: none, one or
/// several. With one comes the whole id.
#[derive(Clone, Debug)]
pub struct PrefixReply {
    pub resolution: u32,
    pub full_id: Vec<u8>,
}

/// The answer for what a prefix stands for.
pub open spec fn prefix_reply(p: PrefixView) -> (u32, Seq<u8>) {
    match p {
        PrefixView::NoMatch => (0, seq![]),
        PrefixView::Single(id) => (1, id),
        PrefixView::Ambiguous => (2, seq![]),
    }
}

/// Where the value of a ref comes from.
#[derive(Clone, Debug)]
pub enum CatalogAnswer<T> {
    /// The remote has to be asked.
    Remote,
    /// The answer.
    Local(T),
}

/// The refusal of a name that cannot name a ref.
pub open spec fn ref_name_refusal(name: Seq<char>) -> StatusView {
    in_context(Code::InvalidArgument, "ref name"@, ref_name_message(name))
}

impl JujutsuService {
    fn put_blob(
        &mut self,
        path: &str,
        kind: OpStoreBlobKind,
        id: &[u8],
        data: &[u8],
        context: &str,
    ) -> (r: Result<LogStored, Status>)
        requires
            old(self)@.wf(),
            old(self)@.mounts.contains_key(path@),
        ensures
            final(self)@.wf(),
            blob_put(old(self)@, path@, kind, id@, data@, context@, final(self)@, r),
    {
        let ghost before = self@;
        let mut m = self.take_mount(path).unwrap();
        let ghost was = m@;
        assert(was.fs.tree.wf());
        let push: bool = m.connected;
        let outcome = match kind {
            OpStoreBlobKind::View => m.ops.write_view_bytes(id, data),
            OpStoreBlobKind::Operation => m.ops.write_operation_bytes(id, data),
        };
        let ghost value = m@;
        self.put_mount(path, m);
        proof {
            assert(self@.mounts =~= before.mounts.insert(path@, value));
            assert(value == with_rows(was, value.rows));
            if value.rows == was.rows {
                assert(self@.mounts =~= before.mounts);
            }
        }
        match outcome {
            Ok(()) => Ok(LogStored { push }),
            Err(e) => Err(e.status(context)),
        }
    }

    /// Store a view under its id. `found` is what came of reading it back and
    /// hashing its content.
    pub fn write_view(&mut self, path: &str, view_id: &[u8], data: &[u8], found: &Rehashed) -> (r:
        Result<LogStored, Status>)
        requires
            old(self)@.wf(),
        ensures
            final(self)@.wf(),
            log_written(
                old(self)@,
                path@,
                OpStoreBlobKind::View,
                view_id@,
                data@,
                *found,
                final(self)@,
                r,
            ),
    {
        proof {
            lemma_texts();
        }
        let kind = OpStoreBlobKind::View;
        match self.find(path) {
            Ok(_) => {},
            Err(s) => {
                return Err(s);
            },
        }
        match validate_op_store_blob_id(kind, view_id, found) {
            Ok(()) => {},
            Err(text) => {
                return Err(decode_status("view blob", text.as_str()));
            },
        }
        self.put_blob(path, kind, view_id, data, "write_view")
    }

    /// Read a view.
    pub fn read_view(&self, path: &str, view_id: &[u8]) -> (r: Result<LogFound, Status>)
        ensures
            log_read(self@, path@, OpStoreBlobKind::View, view_id@, r),
    {
        let m = match self.find(path) {
            Ok(m) => m,
            Err(s) => {
                return Err(s);
            },
        };
        proof {
            lemma_texts();
        }
        if view_id.len() != OP_ID_LEN {
            return Err(
                Status::new(
                    Code::InvalidArgument,
                    concat2(
                        "view_id must be 64 bytes, got ",
                        decimal_str(view_id.len() as u64).as_str(),
                    ),
                ),
            );
        }
        match m.ops.get_view_bytes(view_id) {
            Ok(Some(data)) => Ok(LogFound::Here(data)),
            Ok(None) => if m.connected {
                Ok(LogFound::Elsewhere)
            } else {
                Ok(LogFound::Nowhere)
            },
            Err(e) => Err(e.status("get_view")),
        }
    }

    /// Keep a view that the remote gave.
    pub fn keep_view(&mut self, path: &str, view_id: &[u8], data: &[u8], found: &Rehashed) -> (r:
        Result<LogStored, Status>)
        requires
            old(self)@.wf(),
        ensures
            final(self)@.wf(),
            log_kept(
                old(self)@,
                path@,
                OpStoreBlobKind::View,
                view_id@,
                data@,
                *found,
                final(self)@,
                r,
            ),
    {
        proof {
            lemma_texts();
        }
        let kind = OpStoreBlobKind::View;
        match self.find(path) {
            Ok(_) => {},
            Err(s) => {
                return Err(s);
            },
        }
        match validate_op_store_blob_id(kind, view_id, found) {
            Ok(()) => {},
            Err(text) => {
                return Err(
                    status_in(Code::DataLoss, "remote view blob", text.as_str()),
                );
            },
        }
        self.put_blob(path, kind, view_id, data, "cache write_view")
    }

    /// Store an operation under its id. `found` is what came of reading it back and
    /// hashing its content.
    pub fn write_operation(
        &mut self,
        path: &str,
        operation_id: &[u8],
        data: &[u8],
        found: &Rehashed,
    ) -> (r:
        Result<LogStored, Status>)
        requires
            old(self)@.wf(),
        ensures
            final(self)@.wf(),
            log_written(
                old(self)@,
                path@,
                OpStoreBlobKind::Operation,
                operation_id@,
                data@,
                *found,
                final(self)@,
                r,
            ),
    {
        proof {
            lemma_texts();
        }
        let kind = OpStoreBlobKind::Operation;
        match self.find(path) {
            Ok(_) => {},
            Err(s) => {
                return Err(s);
            },
        }
        match validate_op_store_blob_id(kind, operation_id, found) {
            Ok(()) => {},
            Err(text) => {
                return Err(decode_status("operation blob", text.as_str()));
            },
        }
        self.put_blob(path, kind, operation_id, data, "write_operation")
    }

    /// Read an operation.
    pub fn read_operation(&self, path: &str, operation_id: &[u8]) -> (r: Result<LogFound, Status>)
        ensures
            log_read(self@, path@, OpStoreBlobKind::Operation, operation_id@, r),
    {
        let m = match self.find(path) {
            Ok(m) => m,
            Err(s) => {
                return Err(s);
            },
        };
        proof {
            lemma_texts();
        }
        if operation_id.len() != OP_ID_LEN {
            return Err(
                Status::new(
                    Code::InvalidArgument,
                    concat2(
                        "operation_id must be 64 bytes, got ",
                        decimal_str(operation_id.len() as u64).as_str(),
                    ),
                ),
            );
        }
        match m.ops.get_operation_bytes(operation_id) {
            Ok(Some(data)) => Ok(LogFound::Here(data)),
            Ok(None) => if m.connected {
                Ok(LogFound::Elsewhere)
            } else {
                Ok(LogFound::Nowhere)
            },
            Err(e) => Err(e.status("get_operation")),
        }
    }

    /// Keep an operation that the remote gave.
    pub fn keep_operation(
        &mut self,
        path: &str,
        operation_id: &[u8],
        data: &[u8],
        found: &Rehashed,
    ) -> (r:
        Result<LogStored, Status>)
        requires
            old(self)@.wf(),
        ensures
            final(self)@.wf(),
            log_kept(
                old(self)@,
                path@,
                OpStoreBlobKind::Operation,
                operation_id@,
                data@,
                *found,
                final(self)@,
                r,
            ),
    {
        proof {
            lemma_texts();
        }
        let kind = OpStoreBlobKind::Operation;
        match self.find(path) {
            Ok(_) => {},
            Err(s) => {
                return Err(s);
            },
        }
        match validate_op_store_blob_id(kind, operation_id, found) {
            Ok(()) => {},
            Err(text) => {
                return Err(
                    status_in(Code::DataLoss, "remote operation blob", text.as_str()),
                );
            },
        }
        self.put_blob(path, kind, operation_id, data, "cache write_operation")
    }

    /// Find the operation that a prefix of hexadecimal digits stands for.
    pub fn resolve_operation_id_prefix(&self, path: &str, hex_prefix: &str) -> (r: Result<
        PrefixReply,
        Status,
    >)
        ensures
            match self@.at(path@) {
                Err(s) => r matches Err(e) && e@ == s,
                Ok(m) => match r {
                    Ok(reply) => exists|p: PrefixView| #[trigger]
                        resolves(operation_ids(m.rows), hex_prefix@, p) && (
                            reply.resolution,
                            reply.full_id@,
                        ) == prefix_reply(p),
                    Err(e) => database_failed(e@, "operation_ids_matching_prefix"@),
                },
            },
    {
        let m = match self.find(path) {
            Ok(m) => m,
            Err(s) => {
                return Err(s);
            },
        };
        match m.ops.operation_ids_matching_prefix(hex_prefix) {
            Ok(found) => {
                let ghost p = found@;
                assert(resolves(operation_ids(m@.rows), hex_prefix@, p));
                match found {
                    OpPrefixResult::NoMatch => Ok(
                        PrefixReply { resolution: 0, full_id: Vec::new() },
                    ),
                    OpPrefixResult::Single(id) => Ok(PrefixReply { resolution: 1, full_id: id }),
                    OpPrefixResult::Ambiguous => Ok(
                        PrefixReply { resolution: 2, full_id: Vec::new() },
                    ),
                }
            },
            Err(e) => Err(e.status("operation_ids_matching_prefix")),
        }
    }

    /// Read a ref.
    pub fn get_catalog_ref(&self, path: &str, name: &str) -> (r: Result<
        CatalogAnswer<Option<Vec<u8>>>,
        Status,
    >)
        ensures
            if !is_ref_name(name@) {
                r matches Err(e) && e@ == ref_name_refusal(name@)
            } else {
                match self@.at(path@) {
                    Err(s) => r matches Err(e) && e@ == s,
                    Ok(m) => if m.connected {
                        r matches Ok(CatalogAnswer::Remote)
                    } else {
                        match r {
                            Ok(CatalogAnswer::Local(value)) => bytes_in(value) == ref_value(
                                m.rows,
                                name@,
                            ),
                            Ok(CatalogAnswer::Remote) => false,
                            Err(e) => database_failed(e@, "catalog get_ref"@),
                        }
                    },
                }
            },
    {
        match validate_ref_name(name) {
            Ok(()) => {},
            Err(e) => {
                return Err(decode_status("ref name", e.to_string().as_str()));
            },
        }
        let m = match self.find(path) {
            Ok(m) => m,
            Err(s) => {
                return Err(s);
            },
        };
        if m.connected {
            return Ok(CatalogAnswer::Remote);
        }
        match m.ops.get_ref(name) {
            Ok(value) => Ok(CatalogAnswer::Local(value)),
            Err(e) => Err(e.status("catalog get_ref")),
        }
    }

    /// Swap a ref: it gets the new value if it has the expected one.
    pub fn cas_catalog_ref(
        &mut self,
        path: &str,
        name: &str,
        expected: Option<&[u8]>,
        new: Option<&[u8]>,
    ) -> (r: Result<CatalogAnswer<CasOutcome>, Status>)
        requires
            old(self)@.wf(),
        ensures
            final(self)@.wf(),
            if !is_ref_name(name@) {
                final(self)@ == old(self)@ && (r matches Err(e) && e@ == ref_name_refusal(name@))
            } else {
                match old(self)@.at(path@) {
                    Err(s) => final(self)@ == old(self)@ && (r matches Err(e) && e@ == s),
                    Ok(m) => if m.connected {
                        final(self)@ == old(self)@ && (r matches Ok(CatalogAnswer::Remote))
                    } else {
                        let (rows, view) = swapped(
                            m.rows,
                            name@,
                            slice_in(expected),
                            slice_in(new),
                        );
                        let done = old(self)@.with_mount(path@, with_rows(m, rows));
                        match r {
                            Ok(CatalogAnswer::Local(outcome)) => cas_view(outcome) == view
                                && final(self)@ == done,
                            Ok(CatalogAnswer::Remote) => false,
                            Err(e) => database_failed(e@, "catalog cas_ref"@) && (final(self)@
                                == old(self)@ || final(self)@ == done),
                        }
                    },
                }
            },
    {
        match validate_ref_name(name) {
            Ok(()) => {},
            Err(e) => {
                return Err(decode_status("ref name", e.to_string().as_str()));
            },
        }
        match self.find(path) {
            Ok(m) => {
                if m.connected {
                    return Ok(CatalogAnswer::Remote);
                }
            },
            Err(s) => {
                return Err(s);
            },
        }
        let ghost before = self@;
        let mut m = self.take_mount(path).unwrap();
        let ghost was = m@;
        assert(was.fs.tree.wf());
        let outcome = m.ops.cas_ref(name, expected, new);
        let ghost value = m@;
        self.put_mount(path, m);
        proof {
            assert(self@.mounts =~= before.mounts.insert(path@, value));
            assert(value == with_rows(was, value.rows));
            if value.rows == was.rows {
                assert(self@.mounts =~= before.mounts);
            }
        }
        match outcome {
            Ok(outcome) => Ok(CatalogAnswer::Local(outcome)),
            Err(e) => Err(e.status("catalog cas_ref")),
        }
    }

    /// The names of all refs.
    pub fn list_catalog_refs(&self, path: &str) -> (r: Result<CatalogAnswer<Vec<String>>, Status>)
        ensures
            match self@.at(path@) {
                Err(s) => r matches Err(e) && e@ == s,
                Ok(m) => if m.connected {
                    r matches Ok(CatalogAnswer::Remote)
                } else {
                    match r {
                        Ok(CatalogAnswer::Local(names)) => {
                            &&& forall|n: Seq<char>| #[trigger]
                                lists(names@, n) <==> ref_value(m.rows, n) is Some
                            &&& forall|i: int, j: int|
                                0 <= i < j < names@.len() ==> (#[trigger] names@[i])@ != (
                                #[trigger] names@[j])@
                        },
                        Ok(CatalogAnswer::Remote) => false,
                        Err(e) => database_failed(e@, "catalog list_refs"@),
                    }
                },
            },
    {
        let m = match self.find(path) {
            Ok(m) => m,
            Err(s) => {
                return Err(s);
            },
        };
        if m.connected {
            return Ok(CatalogAnswer::Remote);
        }
        match m.ops.list_refs() {
            Ok(names) => Ok(CatalogAnswer::Local(names)),
            Err(e) => Err(e.status("catalog list_refs")),
        }
    }
}

/// A blob that was stored, as it was written or as the remote gave it, is read
/// back under its id, unless the database fails.
pub proof fn stored_blob_is_read(
    before: ServiceView,
    path: Seq<char>,
    kind: OpStoreBlobKind,
    id: Seq<u8>,
    data: Seq<u8>,
    found: Rehashed,
    after: ServiceView,
    stored: Result<LogStored, Status>,
    read: Result<LogFound, Status>,
)
    requires
        log_written(before, path, kind, id, data, found, after, stored) || log_kept(
            before,
            path,
            kind,
            id,
            data,
            found,
            after,
            stored,
        ),
        stored is Ok,
        log_read(after, path, kind, id, read),
    ensures
        match read {
            Ok(blob) => blob@ == LogFoundView::Here(data),
            Err(e) => database_failed(e@, "get_"@ + kind.tag()),
        },
{
}

/// A blob whose content does not have the id is not stored. From a front end it
/// is an invalid argument, from the remote it is lost data.
pub proof fn forged_blob_is_refused(
    before: ServiceView,
    path: Seq<char>,
    kind: OpStoreBlobKind,
    id: Seq<u8>,
    data: Seq<u8>,
    actual: Vec<u8>,
    after: ServiceView,
    r: Result<LogStored, Status>,
)
    requires
        before.mounts.contains_key(path),
        actual@ != id,
    ensures
        log_written(before, path, kind, id, data, Rehashed::Canonical(actual), after, r) ==> after
            == before && (r matches Err(e) && e@.code == Code::InvalidArgument),
        log_kept(before, path, kind, id, data, Rehashed::Canonical(actual), after, r) ==> after
            == before && (r matches Err(e) && e@.code == Code::DataLoss),
{
}

/// What is stored for one mount is stored for no other.
pub proof fn logs_are_apart(
    before: ServiceView,
    path: Seq<char>,
    other: Seq<char>,
    kind: OpStoreBlobKind,
    id: Seq<u8>,
    data: Seq<u8>,
    found: Rehashed,
    after: ServiceView,
    r: Result<LogStored, Status>,
)
    requires
        other != path,
        log_written(before, path, kind, id, data, found, after, r) || log_kept(
            before,
            path,
            kind,
            id,
            data,
            found,
            after,
            r,
        ),
    ensures
        after.at(other) == before.at(other),
{
}

} // verus!
