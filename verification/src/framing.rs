//! The store protocol over a pipe.
//!
//! A frame is a four-byte big-endian length and that many bytes of message. The
//! protocol is sequential: the client sends one request and waits for one
//! response, which carries the id of the request.
use vstd::prelude::*;
use crate::remote::{
    is_ref_name, ref_name_message, validate_ref_name, BlobKind, CasOutcome, RefNameError,
    WireBlobKind,
};
use crate::text::{concat3, copy_bytes, decimal, decimal_str};

verus! {

broadcast use vstd::string::group_string_axioms;

/// The largest frame that is accepted: 64 MiB.
pub const MAX_FRAME_SIZE: u32 = 67_108_864;

// ---- frames ----------------------------------------------------------------------

/// The four bytes of a number, most significant first.
pub open spec fn be_bytes(n: int) -> Seq<u8> {
    seq![
        (n / 0x100_0000 % 256) as u8,
        (n / 0x1_0000 % 256) as u8,
        (n / 0x100 % 256) as u8,
        (n % 256) as u8,
    ]
}

/// The number in four bytes, most significant first.
pub open spec fn be_number(b: Seq<u8>) -> int {
    b[0] * 0x100_0000 + b[1] * 0x1_0000 + b[2] * 0x100 + b[3]
}

/// The frame of a message.
pub open spec fn frame(body: Seq<u8>) -> Seq<u8> {
    be_bytes((body.len() % 0x1_0000_0000) as int) + body
}

/// A number survives its four bytes.
pub proof fn be_round_trip(n: int)
    requires
        0 <= n < 0x1_0000_0000,
    ensures
        be_number(be_bytes(n)) == n,
{
    let b = be_bytes(n);
    assert(b[0] == n / 0x100_0000 % 256);
    assert(n / 0x100_0000 < 256);
}

/// Build the frame of an encoded message.
pub fn write_frame(body: &[u8]) -> (out: Vec<u8>)
    ensures
        out@ == frame(body@),
{
    let len: u64 = body.len() as u64 % 0x1_0000_0000;
    let mut out: Vec<u8> = Vec::new();
    out.push((len / 0x100_0000 % 256) as u8);
    out.push((len / 0x1_0000 % 256) as u8);
    out.push((len / 0x100 % 256) as u8);
    out.push((len % 256) as u8);
    assert(out@ =~= be_bytes((body@.len() % 0x1_0000_0000) as int));
    let mut copy = copy_bytes(body);
    out.append(&mut copy);
    out
}

/// What reading a frame gives.
#[derive(Debug, PartialEq, Eq)]
pub enum FrameRead {
    /// The peer closed the pipe before a whole length was there.
    Closed,
    /// The length is over the limit.
    TooLarge(u32),
    /// The pipe ended inside the message.
    Truncated,
    /// A message of this many bytes, behind the four bytes of its length.
    Message(Vec<u8>),
}

/// The value of a [`FrameRead`].
pub enum FrameView {
    Closed,
    TooLarge(int),
    Truncated,
    Message(Seq<u8>),
}

impl View for FrameRead {
    type V = FrameView;

    open spec fn view(&self) -> FrameView {
        match self {
            FrameRead::Closed => FrameView::Closed,
            FrameRead::TooLarge(len) => FrameView::TooLarge(*len as int),
            FrameRead::Truncated => FrameView::Truncated,
            FrameRead::Message(body) => FrameView::Message(body@),
        }
    }
}

/// What reading a frame off the front of `pipe` gives.
pub open spec fn frame_read(pipe: Seq<u8>) -> FrameView {
    if pipe.len() < 4 {
        FrameView::Closed
    } else {
        let len = be_number(pipe.take(4));
        if len > MAX_FRAME_SIZE {
            FrameView::TooLarge(len)
        } else if pipe.len() < 4 + len {
            FrameView::Truncated
        } else {
            FrameView::Message(pipe.subrange(4, 4 + len))
        }
    }
}

/// The length that the four bytes in front of a message give, or the error for
/// one that is over the limit.
pub fn frame_length(header: &[u8; 4]) -> (r: Result<u32, u32>)
    ensures
        match r {
            Ok(len) => len == be_number(header@) && len <= MAX_FRAME_SIZE,
            Err(len) => len == be_number(header@) && len > MAX_FRAME_SIZE,
        },
{
    let len: u32 = header[0] as u32 * 0x100_0000 + header[1] as u32 * 0x1_0000 + header[2] as u32
        * 0x100 + header[3] as u32;
    if len > MAX_FRAME_SIZE {
        Err(len)
    } else {
        Ok(len)
    }
}

/// Read a frame off the front of a pipe.
pub fn read_frame(pipe: &[u8]) -> (r: FrameRead)
    ensures
        r@ == frame_read(pipe@),
{
    if pipe.len() < 4 {
        return FrameRead::Closed;
    }
    let header: [u8; 4] = [pipe[0], pipe[1], pipe[2], pipe[3]];
    assert(header@ =~= pipe@.take(4));
    match frame_length(&header) {
        Err(len) => FrameRead::TooLarge(len),
        Ok(len) => {
            let n: usize = len as usize;
            if pipe.len() - 4 < n {
                return FrameRead::Truncated;
            }
            FrameRead::Message(copy_bytes(vstd::slice::slice_subrange(pipe, 4, 4 + n)))
        },
    }
}

/// The message that comes with a frame that is over the limit.
pub open spec fn too_large_message(len: nat) -> Seq<char> {
    "frame size "@ + decimal(len) + " exceeds maximum 67108864"@
}

/// Say that a frame is over the limit.
pub fn too_large(len: u32) -> (s: String)
    ensures
        s@ == too_large_message(len as nat),
{
    concat3("frame size ", decimal_str(len as u64).as_str(), " exceeds maximum 67108864")
}

/// What was framed is read back, whatever follows it in the pipe.
pub proof fn frame_round_trip(body: Seq<u8>, rest: Seq<u8>)
    requires
        body.len() <= MAX_FRAME_SIZE,
    ensures
        frame_read(frame(body) + rest) == FrameView::Message(body),
        (frame(body) + rest).skip(frame(body).len() as int) == rest,
{
    let pipe = frame(body) + rest;
    let len = body.len() as int;
    assert(body.len() % 0x1_0000_0000 == len);
    be_round_trip(len);
    assert(pipe.take(4) =~= be_bytes(len));
    assert(pipe.subrange(4, 4 + len) =~= body);
    assert(pipe.skip(frame(body).len() as int) =~= rest);
}

// ---- requests and responses ----------------------------------------------------------

/// What a client asks for, as it stands on the wire.
#[derive(Debug, Clone)]
pub enum Request {
    GetBlob { kind: i32, id: Vec<u8> },
    PutBlob { kind: i32, id: Vec<u8>, bytes: Vec<u8> },
    HasBlob { kind: i32, id: Vec<u8> },
    GetRef { name: String },
    CasRef { name: String, expected: Option<Vec<u8>>, new: Option<Vec<u8>> },
    ListRefs,
}

/// What a client sends: a request under an id.
#[derive(Debug, Clone)]
pub struct StoreRequest {
    pub id: u64,
    pub request: Option<Request>,
}

/// What the server answers.
#[derive(Debug, Clone, PartialEq, Eq)]
pub enum Response {
    GetBlob { found: bool, bytes: Vec<u8> },
    PutBlob,
    HasBlob { found: bool },
    GetRef { found: bool, value: Vec<u8> },
    CasRef { updated: bool, actual: Option<Vec<u8>> },
    ListRefs { names: Vec<String> },
    Error { message: String },
}

/// What the server sends: a response under the id of its request.
#[derive(Debug, Clone, PartialEq, Eq)]
pub struct StoreResponse {
    pub id: u64,
    pub response: Option<Response>,
}

/// What a store is asked to do.
#[derive(Debug)]
pub enum StoreCall {
    GetBlob { kind: BlobKind, id: Vec<u8> },
    PutBlob { kind: BlobKind, id: Vec<u8>, bytes: Vec<u8> },
    HasBlob { kind: BlobKind, id: Vec<u8> },
    GetRef { name: String },
    CasRef { name: String, expected: Option<Vec<u8>>, new: Option<Vec<u8>> },
    ListRefs,
}

/// What a store gave back.
#[derive(Debug)]
pub enum StoreAnswer {
    GetBlob(Option<Vec<u8>>),
    PutBlob,
    HasBlob(bool),
    GetRef(Option<Vec<u8>>),
    CasRef(CasOutcome),
    ListRefs(Vec<String>),
    /// The store failed, with its description.
    Failed(String),
}

/// Why a request is refused.
#[derive(Debug)]
pub enum RequestError {
    /// The request is empty.
    NoVariant,
    /// The number is no kind.
    UnknownKind(i32),
    /// The kind is the zero value.
    UnspecifiedKind,
    /// The blob id is empty.
    EmptyId,
    /// The ref name is refused.
    RefName(RefNameError),
}

/// A signed number in decimal.
pub open spec fn signed_decimal(n: int) -> Seq<char> {
    if n < 0 {
        "-"@ + decimal((-n) as nat)
    } else {
        decimal(n as nat)
    }
}

impl RequestError {
    /// What the error says.
    pub open spec fn message(self) -> Seq<char> {
        match self {
            RequestError::NoVariant => "empty request (no oneof variant set)"@,
            RequestError::UnknownKind(n) => "invalid BlobKind: unknown enumeration value "@
                + signed_decimal(n as int),
            RequestError::UnspecifiedKind => "BlobKind unspecified (zero) is not a valid kind"@,
            RequestError::EmptyId => "blob id must not be empty"@,
            RequestError::RefName(e) => e.message(),
        }
    }

    /// The message of the error.
    pub fn to_string(&self) -> (s: String)
        ensures
            s@ == self.message(),
    {
        match self {
            RequestError::NoVariant => "empty request (no oneof variant set)".to_owned(),
            RequestError::UnknownKind(n) => {
                let mut s = "invalid BlobKind: unknown enumeration value ".to_owned();
                if *n < 0 {
                    let m: i64 = -(*n as i64);
                    s.append("-");
                    s.append(decimal_str(m as u64).as_str());
                    assert(s@ =~= self.message());
                } else {
                    s.append(decimal_str(*n as u64).as_str());
                }
                s
            },
            RequestError::UnspecifiedKind =>
                "BlobKind unspecified (zero) is not a valid kind".to_owned(),
            RequestError::EmptyId => "blob id must not be empty".to_owned(),
            RequestError::RefName(e) => e.to_string(),
        }
    }
}

/// The kind that a number on the wire stands for, or why there is none.
pub open spec fn kind_result(kind: i32) -> Result<BlobKind, RequestError> {
    if kind < 0 || kind > 6 {
        Err(RequestError::UnknownKind(kind))
    } else if kind == 0 {
        Err(RequestError::UnspecifiedKind)
    } else {
        Ok(
            if kind == 1 {
                BlobKind::Tree
            } else if kind == 2 {
                BlobKind::Blob
            } else if kind == 3 {
                BlobKind::Commit
            } else if kind == 4 {
                BlobKind::View
            } else if kind == 5 {
                BlobKind::Operation
            } else {
                BlobKind::Extra
            },
        )
    }
}

/// Read a kind off the wire.
pub fn decode_kind(kind: i32) -> (r: Result<BlobKind, RequestError>)
    ensures
        r == kind_result(kind),
{
    match WireBlobKind::from_i32(kind) {
        None => Err(RequestError::UnknownKind(kind)),
        Some(wire) => match BlobKind::from_proto(wire) {
            None => Err(RequestError::UnspecifiedKind),
            Some(k) => Ok(k),
        },
    }
}

/// Every kind is read back from its wire number.
pub proof fn decoded_kind_round_trip(kind: BlobKind)
    ensures
        kind_result(kind.wire().number()) == Ok::<BlobKind, RequestError>(kind),
{
}

/// Check a blob id.
pub fn validate_id(id: &[u8]) -> (r: Result<(), RequestError>)
    ensures
        r == (if id@.len() == 0 {
            Err::<(), RequestError>(RequestError::EmptyId)
        } else {
            Ok(())
        }),
{
    if id.len() == 0 {
        Err(RequestError::EmptyId)
    } else {
        Ok(())
    }
}

/// The kind and id of a blob request, checked: the kind first, then the id.
pub open spec fn blob_key(kind: i32, id: Seq<u8>) -> Result<BlobKind, RequestError> {
    match kind_result(kind) {
        Err(e) => Err(e),
        Ok(k) => if id.len() == 0 {
            Err(RequestError::EmptyId)
        } else {
            Ok(k)
        },
    }
}

fn check_blob(kind: i32, id: &Vec<u8>) -> (r: Result<BlobKind, RequestError>)
    ensures
        r == blob_key(kind, id@),
{
    match decode_kind(kind) {
        Err(e) => Err(e),
        Ok(k) => match validate_id(id.as_slice()) {
            Err(e) => Err(e),
            Ok(()) => Ok(k),
        },
    }
}

/// The ref name is refused with this error.
pub open spec fn ref_refused(name: Seq<char>, e: RequestError) -> bool {
    !is_ref_name(name) && e is RefName && e.message() == ref_name_message(name)
}

/// Decide what a request asks of the store, or why it is refused.
pub fn dispatch(request: Option<Request>) -> (r: Result<StoreCall, RequestError>)
    ensures
        match request {
            None => r matches Err(e) && e == RequestError::NoVariant,
            Some(Request::GetBlob { kind, id }) => match blob_key(kind, id@) {
                Ok(k) => r matches Ok(StoreCall::GetBlob { kind: rk, id: rid }) && rk == k && rid
                    == id,
                Err(e) => r matches Err(re) && re == e,
            },
            Some(Request::PutBlob { kind, id, bytes }) => match blob_key(kind, id@) {
                Ok(k) => r matches Ok(StoreCall::PutBlob { kind: rk, id: rid, bytes: rb }) && rk == k
                    && rid == id && rb == bytes,
                Err(e) => r matches Err(re) && re == e,
            },
            Some(Request::HasBlob { kind, id }) => match blob_key(kind, id@) {
                Ok(k) => r matches Ok(StoreCall::HasBlob { kind: rk, id: rid }) && rk == k && rid
                    == id,
                Err(e) => r matches Err(re) && re == e,
            },
            Some(Request::GetRef { name }) => if is_ref_name(name@) {
                r matches Ok(StoreCall::GetRef { name: rn }) && rn == name
            } else {
                r matches Err(e) && ref_refused(name@, e)
            },
            Some(Request::CasRef { name, expected, new }) => if is_ref_name(name@) {
                r matches Ok(StoreCall::CasRef { name: rn, expected: re, new: rnew }) && rn == name
                    && re == expected && rnew == new
            } else {
                r matches Err(e) && ref_refused(name@, e)
            },
            Some(Request::ListRefs) => r matches Ok(StoreCall::ListRefs),
        },
{
    match request {
        None => Err(RequestError::NoVariant),
        Some(Request::GetBlob { kind, id }) => match check_blob(kind, &id) {
            Ok(k) => Ok(StoreCall::GetBlob { kind: k, id }),
            Err(e) => Err(e),
        },
        Some(Request::PutBlob { kind, id, bytes }) => match check_blob(kind, &id) {
            Ok(k) => Ok(StoreCall::PutBlob { kind: k, id, bytes }),
            Err(e) => Err(e),
        },
        Some(Request::HasBlob { kind, id }) => match check_blob(kind, &id) {
            Ok(k) => Ok(StoreCall::HasBlob { kind: k, id }),
            Err(e) => Err(e),
        },
        Some(Request::GetRef { name }) => match validate_ref_name(name.as_str()) {
            Ok(()) => Ok(StoreCall::GetRef { name }),
            Err(e) => Err(RequestError::RefName(e)),
        },
        Some(Request::CasRef { name, expected, new }) => match validate_ref_name(name.as_str()) {
            Ok(()) => Ok(StoreCall::CasRef { name, expected, new }),
            Err(e) => Err(RequestError::RefName(e)),
        },
        Some(Request::ListRefs) => Ok(StoreCall::ListRefs),
    }
}

/// The bytes of an optional blob; a missing one stands for none.
pub open spec fn or_empty(b: Option<Vec<u8>>) -> Seq<u8> {
    match b {
        Some(bytes) => bytes@,
        None => seq![],
    }
}

/// The response to what the store gave back.
pub fn respond(id: u64, answer: StoreAnswer) -> (r: StoreResponse)
    ensures
        r.id == id,
        r.response matches Some(response) && match answer {
            StoreAnswer::GetBlob(b) => response matches Response::GetBlob { found, bytes } && found
                == (b is Some) && bytes@ == or_empty(b),
            StoreAnswer::PutBlob => response is PutBlob,
            StoreAnswer::HasBlob(has) => response matches Response::HasBlob { found } && found == has,
            StoreAnswer::GetRef(b) => response matches Response::GetRef { found, value } && found == (
            b is Some) && value@ == or_empty(b),
            StoreAnswer::CasRef(CasOutcome::Updated) => response matches Response::CasRef {
                updated,
                actual,
            } && updated && actual is None,
            StoreAnswer::CasRef(CasOutcome::Conflict { actual: seen }) => response matches Response::CasRef {
                updated,
                actual,
            } && !updated && actual == seen,
            StoreAnswer::ListRefs(all) => response matches Response::ListRefs { names } && names
                == all,
            StoreAnswer::Failed(why) => response matches Response::Error { message } && message
                == why,
        },
{
    let response = match answer {
        StoreAnswer::GetBlob(Some(bytes)) => Response::GetBlob { found: true, bytes },
        StoreAnswer::GetBlob(None) => {
            let bytes: Vec<u8> = Vec::new();
            assert(bytes@ =~= seq![]);
            Response::GetBlob { found: false, bytes }
        },
        StoreAnswer::PutBlob => Response::PutBlob,
        StoreAnswer::HasBlob(found) => Response::HasBlob { found },
        StoreAnswer::GetRef(Some(value)) => Response::GetRef { found: true, value },
        StoreAnswer::GetRef(None) => {
            let value: Vec<u8> = Vec::new();
            assert(value@ =~= seq![]);
            Response::GetRef { found: false, value }
        },
        StoreAnswer::CasRef(CasOutcome::Updated) => Response::CasRef {
            updated: true,
            actual: None,
        },
        StoreAnswer::CasRef(CasOutcome::Conflict { actual }) => Response::CasRef {
            updated: false,
            actual,
        },
        StoreAnswer::ListRefs(names) => Response::ListRefs { names },
        StoreAnswer::Failed(message) => Response::Error { message },
    };
    StoreResponse { id, response: Some(response) }
}

/// The response to a refused request.
pub fn refuse(id: u64, error: RequestError) -> (r: StoreResponse)
    ensures
        r.id == id,
        r.response matches Some(Response::Error { message }) && message@ == error.message(),
{
    StoreResponse { id, response: Some(Response::Error { message: error.to_string() }) }
}

/// What the server does next.
#[derive(Debug)]
pub enum ServeStep {
    /// The client is gone: stop.
    Stop,
    /// Ask the store, and answer under this id with what it gives back.
    Call { id: u64, call: StoreCall },
    /// Send this response.
    Reply(StoreResponse),
}

/// Decide what to do with the next request; no request means that the client
/// closed the pipe.
pub fn serve_store_loop(next: Option<StoreRequest>) -> (step: ServeStep)
    ensures
        match next {
            None => step is Stop,
            Some(req) => match step {
                ServeStep::Stop => false,
                ServeStep::Call { id, call } => id == req.id && call_for(req.request, call),
                ServeStep::Reply(response) => {
                    &&& response.id == req.id
                    &&& refused(req.request)
                    &&& response.response matches Some(Response::Error { message }) && message@
                        == refusal(req.request)
                },
            },
        },
        next matches Some(req) ==> (step is Reply <==> refused(req.request)),
{
    match next {
        None => ServeStep::Stop,
        Some(req) => {
            let id: u64 = req.id;
            match dispatch(req.request) {
                Ok(call) => ServeStep::Call { id, call },
                Err(e) => ServeStep::Reply(refuse(id, e)),
            }
        },
    }
}

/// The request is refused: it is empty, its kind or id is not valid, or its ref
/// name is not.
pub open spec fn refused(request: Option<Request>) -> bool {
    match request {
        None => true,
        Some(Request::GetBlob { kind, id }) => blob_key(kind, id@) is Err,
        Some(Request::PutBlob { kind, id, .. }) => blob_key(kind, id@) is Err,
        Some(Request::HasBlob { kind, id }) => blob_key(kind, id@) is Err,
        Some(Request::GetRef { name }) => !is_ref_name(name@),
        Some(Request::CasRef { name, .. }) => !is_ref_name(name@),
        Some(Request::ListRefs) => false,
    }
}

/// What the client of a refused request is told.
pub open spec fn refusal(request: Option<Request>) -> Seq<char> {
    match request {
        None => RequestError::NoVariant.message(),
        Some(Request::GetBlob { kind, id }) => blob_key(kind, id@)->Err_0.message(),
        Some(Request::PutBlob { kind, id, .. }) => blob_key(kind, id@)->Err_0.message(),
        Some(Request::HasBlob { kind, id }) => blob_key(kind, id@)->Err_0.message(),
        Some(Request::GetRef { name }) => ref_name_message(name@),
        Some(Request::CasRef { name, .. }) => ref_name_message(name@),
        Some(Request::ListRefs) => arbitrary(),
    }
}

/// The call passes the request on.
pub open spec fn call_for(request: Option<Request>, call: StoreCall) -> bool {
    match (request, call) {
        (Some(Request::GetBlob { kind, id }), StoreCall::GetBlob { kind: k, id: i }) => blob_key(
            kind,
            id@,
        ) == Ok::<BlobKind, RequestError>(k) && i == id,
        (
            Some(Request::PutBlob { kind, id, bytes }),
            StoreCall::PutBlob { kind: k, id: i, bytes: b },
        ) => blob_key(kind, id@) == Ok::<BlobKind, RequestError>(k) && i == id && b == bytes,
        (Some(Request::HasBlob { kind, id }), StoreCall::HasBlob { kind: k, id: i }) => blob_key(
            kind,
            id@,
        ) == Ok::<BlobKind, RequestError>(k) && i == id,
        (Some(Request::GetRef { name }), StoreCall::GetRef { name: n }) => is_ref_name(name@) && n
            == name,
        (
            Some(Request::CasRef { name, expected, new }),
            StoreCall::CasRef { name: n, expected: e, new: w },
        ) => is_ref_name(name@) && n == name && e == expected && w == new,
        (Some(Request::ListRefs), StoreCall::ListRefs) => true,
        _ => false,
    }
}

} // verus!
