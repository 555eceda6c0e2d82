use std::collections::BTreeMap;

use kiki::framing::{
    decode_kind, frame_length, read_frame, respond, serve_store_loop, too_large, validate_id,
    write_frame, FrameRead, Request, RequestError, Response, ServeStep, StoreAnswer, StoreCall,
    StoreRequest, StoreResponse, MAX_FRAME_SIZE,
};
use kiki::remote::{BlobKind, CasOutcome};

/// A store in memory, served over frames.
#[derive(Default)]
struct Peer {
    blobs: BTreeMap<(String, Vec<u8>), Vec<u8>>,
    refs: BTreeMap<String, Vec<u8>>,
}

impl Peer {
    fn answer(&mut self, call: StoreCall) -> StoreAnswer {
        match call {
            StoreCall::GetBlob { kind, id } => {
                StoreAnswer::GetBlob(self.blobs.get(&(kind.to_string(), id)).cloned())
            }
            StoreCall::PutBlob { kind, id, bytes } => {
                self.blobs.insert((kind.to_string(), id), bytes);
                StoreAnswer::PutBlob
            }
            StoreCall::HasBlob { kind, id } => {
                StoreAnswer::HasBlob(self.blobs.contains_key(&(kind.to_string(), id)))
            }
            StoreCall::GetRef { name } => StoreAnswer::GetRef(self.refs.get(&name).cloned()),
            StoreCall::CasRef { name, expected, new } => {
                let actual = self.refs.get(&name).cloned();
                if actual != expected {
                    return StoreAnswer::CasRef(CasOutcome::Conflict { actual });
                }
                match new {
                    Some(value) => self.refs.insert(name, value),
                    None => self.refs.remove(&name),
                };
                StoreAnswer::CasRef(CasOutcome::Updated)
            }
            StoreCall::ListRefs => StoreAnswer::ListRefs(self.refs.keys().cloned().collect()),
        }
    }

    fn serve(&mut self, id: u64, request: Option<Request>) -> Response {
        let response: StoreResponse = match serve_store_loop(Some(StoreRequest { id, request })) {
            ServeStep::Call { id, call } => respond(id, self.answer(call)),
            ServeStep::Reply(response) => response,
            ServeStep::Stop => panic!("a request came"),
        };
        assert_eq!(response.id, id);
        response.response.expect("every request is answered")
    }

    fn put(&mut self, id: u64, kind: BlobKind, blob: &[u8], data: &[u8]) -> Response {
        let request = Request::PutBlob {
            kind: kind.as_proto().to_i32(),
            id: blob.to_vec(),
            bytes: data.to_vec(),
        };
        self.serve(id, Some(request))
    }

    fn get(&mut self, id: u64, kind: BlobKind, blob: &[u8]) -> Response {
        let request = Request::GetBlob { kind: kind.as_proto().to_i32(), id: blob.to_vec() };
        self.serve(id, Some(request))
    }

    fn has(&mut self, id: u64, kind: BlobKind, blob: &[u8]) -> Response {
        let request = Request::HasBlob { kind: kind.as_proto().to_i32(), id: blob.to_vec() };
        self.serve(id, Some(request))
    }

    fn get_ref(&mut self, id: u64, name: &str) -> Response {
        self.serve(id, Some(Request::GetRef { name: name.to_owned() }))
    }

    fn create_ref(&mut self, id: u64, name: &str, value: &[u8]) -> Response {
        let request =
            Request::CasRef { name: name.to_owned(), expected: None, new: Some(value.to_vec()) };
        self.serve(id, Some(request))
    }
}

#[test]
fn frame_round_trip() {
    let message = [42u8; 40];
    let mut pipe = write_frame(&message);
    assert_eq!(&pipe[..4], &[0, 0, 0, 40]);
    pipe.extend_from_slice(b"the next frame");
    assert_eq!(read_frame(&pipe), FrameRead::Message(message.to_vec()));
}

#[test]
fn eof_returns_none() {
    assert_eq!(read_frame(&[]), FrameRead::Closed);
    assert_eq!(read_frame(&[0, 0, 0]), FrameRead::Closed);
    assert!(matches!(serve_store_loop(None), ServeStep::Stop));
}

#[test]
fn serve_loop_blob_round_trip() {
    let mut peer = Peer::default();
    let id = vec![0x42u8; 32];
    assert_eq!(peer.put(1, BlobKind::Blob, &id, b"hello-ssh"), Response::PutBlob);
    assert_eq!(
        peer.get(2, BlobKind::Blob, &id),
        Response::GetBlob { found: true, bytes: b"hello-ssh".to_vec() }
    );
}

#[test]
fn e2e_blob_round_trip() {
    let mut peer = Peer::default();
    let blob_id = vec![0xAB_u8; 32];
    let blob_data = b"hello from e2e test".to_vec();
    assert_eq!(peer.put(1, BlobKind::Blob, &blob_id, &blob_data), Response::PutBlob);
    assert_eq!(
        peer.get(2, BlobKind::Blob, &blob_id),
        Response::GetBlob { found: true, bytes: blob_data }
    );
    assert_eq!(peer.has(3, BlobKind::Blob, &blob_id), Response::HasBlob { found: true });
    assert_eq!(peer.has(4, BlobKind::Blob, &[0; 32]), Response::HasBlob { found: false });
    assert_eq!(
        peer.get(5, BlobKind::Tree, &[1; 32]),
        Response::GetBlob { found: false, bytes: Vec::new() }
    );
}

#[test]
fn e2e_refs_round_trip() {
    let mut peer = Peer::default();
    assert_eq!(
        peer.get_ref(1, "op_heads"),
        Response::GetRef { found: false, value: Vec::new() }
    );
    let ref_value = b"op-id-bytes-1234".to_vec();
    assert_eq!(
        peer.create_ref(2, "op_heads", &ref_value),
        Response::CasRef { updated: true, actual: None }
    );
    assert_eq!(
        peer.get_ref(3, "op_heads"),
        Response::GetRef { found: true, value: ref_value.clone() }
    );
    assert_eq!(
        peer.create_ref(4, "op_heads", b"new-value"),
        Response::CasRef { updated: false, actual: Some(ref_value) }
    );
    assert_eq!(
        peer.create_ref(5, "head", b"head-value"),
        Response::CasRef { updated: true, actual: None }
    );
    assert_eq!(
        peer.serve(6, Some(Request::ListRefs)),
        Response::ListRefs { names: vec!["head".to_owned(), "op_heads".to_owned()] }
    );
}

#[test]
fn e2e_multiple_blob_kinds() {
    let mut peer = Peer::default();
    let blob_id = vec![0xCC_u8; 32];
    peer.put(1, BlobKind::Blob, &blob_id, b"blob-data");
    peer.put(2, BlobKind::Tree, &blob_id, b"tree-data");
    assert_eq!(
        peer.get(3, BlobKind::Blob, &blob_id),
        Response::GetBlob { found: true, bytes: b"blob-data".to_vec() }
    );
    assert_eq!(
        peer.get(4, BlobKind::Tree, &blob_id),
        Response::GetBlob { found: true, bytes: b"tree-data".to_vec() }
    );
    assert_eq!(peer.has(5, BlobKind::Commit, &blob_id), Response::HasBlob { found: false });
}

#[test]
fn frames_over_the_limit_are_refused() {
    assert_eq!(frame_length(&[0x04, 0, 0, 0]), Ok(MAX_FRAME_SIZE));
    assert_eq!(frame_length(&[0x04, 0, 0, 1]), Err(67_108_865));
    assert_eq!(read_frame(&[0xff; 8]), FrameRead::TooLarge(u32::MAX));
    assert_eq!(read_frame(&[0, 0, 0, 2, 9]), FrameRead::Truncated);
    assert_eq!(too_large(67_108_865), "frame size 67108865 exceeds maximum 67108864");
}

fn refused(request: Option<Request>) -> String {
    match Peer::default().serve(7, request) {
        Response::Error { message } => message,
        other => panic!("served: {other:?}"),
    }
}

#[test]
fn bad_requests_are_answered_with_errors() {
    assert_eq!(refused(None), "empty request (no oneof variant set)");
    let get = |kind: i32, id: &[u8]| Some(Request::GetBlob { kind, id: id.to_vec() });
    assert_eq!(refused(get(0, &[1])), "BlobKind unspecified (zero) is not a valid kind");
    assert_eq!(refused(get(7, &[1])), "invalid BlobKind: unknown enumeration value 7");
    assert_eq!(refused(get(-3, &[])), "invalid BlobKind: unknown enumeration value -3");
    assert_eq!(refused(get(1, &[])), "blob id must not be empty");
    let name = Some(Request::GetRef { name: "a/b".to_owned() });
    assert!(refused(name).contains("'/'"));
    let name = Some(Request::CasRef { name: String::new(), expected: None, new: None });
    assert!(refused(name).contains("must not be empty"));
    assert!(matches!(decode_kind(6), Ok(BlobKind::Extra)));
    assert!(matches!(validate_id(&[]), Err(RequestError::EmptyId)));
    assert!(validate_id(&[0]).is_ok());
}

#[test]
fn store_failures_are_passed_on() {
    let response = respond(9, StoreAnswer::Failed("disk full".to_owned()));
    assert_eq!(
        response,
        StoreResponse { id: 9, response: Some(Response::Error { message: "disk full".to_owned() }) }
    );
}
