//! What stands on the wire between a store's client and its server, and what a remote
//! names.
use vstd::prelude::*;
use crate::framing::{
    be_bytes, be_number, be_round_trip, blob_key, call_for, frame, frame_read, kind_result, or_empty,
    ref_refused, refusal, refused, too_large_message, FrameView, Request, RequestError, StoreCall,
};
use crate::remote::{
    is_ref_name, lemma_one_scheme_end, located, quoted_text, ref_name_message, scheme_end,
    scheme_ends_at, through_tunnel, usable, BlobKind, RemoteLocation, RemoteUrlError,
};
use crate::text::decimal;

verus! {

/// A frame is the length of its body in four bytes, the greatest first, and the body.
pub proof fn frame_begins_with_its_length(body: Seq<u8>)
    requires
        body.len() < 0x1_0000_0000,
    ensures
        frame(body).len() == 4 + body.len(),
        frame(body)[0] * 0x100_0000 + frame(body)[1] * 0x1_0000 + frame(body)[2] * 0x100 + frame(
            body,
        )[3] == body.len(),
        frame(body).skip(4) == body,
{
    let len = body.len() as int;
    assert(body.len() % 0x1_0000_0000 == len);
    be_round_trip(len);
    let head = be_bytes(len);
    let all = frame(body);
    assert(all[0] == head[0] && all[1] == head[1] && all[2] == head[2] && all[3] == head[3]);
    assert(be_number(head) == len);
    assert(all.skip(4) =~= body);
}

/// What a pipe gives: nothing before four bytes are there; no message whose length is
/// over 64 MiB, whatever follows; none of which a part is missing; else as many bytes
/// behind the length as it says.
pub proof fn pipe_gives_whole_messages(pipe: Seq<u8>)
    ensures
        pipe.len() < 4 ==> frame_read(pipe) == FrameView::Closed,
        pipe.len() >= 4 ==> {
            let len = pipe[0] * 0x100_0000 + pipe[1] * 0x1_0000 + pipe[2] * 0x100 + pipe[3];
            &&& len > 64 * 1024 * 1024 <==> frame_read(pipe) is TooLarge
            &&& len > 64 * 1024 * 1024 ==> frame_read(pipe) == FrameView::TooLarge(len)
            &&& len <= 64 * 1024 * 1024 && pipe.len() < 4 + len ==> frame_read(pipe)
                == FrameView::Truncated
            &&& len <= 64 * 1024 * 1024 && pipe.len() >= 4 + len ==> (frame_read(
                pipe,
            ) matches FrameView::Message(body) && body.len() == len && pipe.take(4) + body
                + pipe.skip(4 + len) == pipe)
        },
{
    if pipe.len() >= 4 {
        let len = pipe[0] * 0x100_0000 + pipe[1] * 0x1_0000 + pipe[2] * 0x100 + pipe[3];
        let head = pipe.take(4);
        assert(head[0] == pipe[0] && head[1] == pipe[1] && head[2] == pipe[2] && head[3] == pipe[3]);
        assert(be_number(head) == len);
        if len <= 64 * 1024 * 1024 && pipe.len() >= 4 + len {
            let body = pipe.subrange(4, 4 + len);
            assert(frame_read(pipe) == FrameView::Message(body));
            assert(pipe.take(4) + body + pipe.skip(4 + len) =~= pipe);
        }
    }
}

/// What is said of a length that is too great names it.
pub proof fn too_large_names_the_length(len: nat)
    ensures
        too_large_message(len).skip("frame size "@.len() as int).take(decimal(len).len() as int)
            == decimal(len),
        too_large_message(len) == "frame size "@ + decimal(len) + " exceeds maximum 67108864"@,
{
    assert(too_large_message(len).skip("frame size "@.len() as int).take(
        decimal(len).len() as int,
    ) =~= decimal(len));
}

/// The numbers of the kinds on the wire, and the tags of the kinds in files.
pub proof fn kinds_have_their_numbers_and_tags()
    ensures
        BlobKind::Tree.wire().number() == 1 && BlobKind::Tree.tag() == "tree"@,
        BlobKind::Blob.wire().number() == 2 && BlobKind::Blob.tag() == "blob"@,
        BlobKind::Commit.wire().number() == 3 && BlobKind::Commit.tag() == "commit"@,
        BlobKind::View.wire().number() == 4 && BlobKind::View.tag() == "view"@,
        BlobKind::Operation.wire().number() == 5 && BlobKind::Operation.tag() == "operation"@,
        BlobKind::Extra.wire().number() == 6 && BlobKind::Extra.tag() == "extra"@,
{
}

/// A number off the wire gives a kind only if it is the number of that kind.
pub proof fn decoded_kind_has_the_number(n: i32, kind: BlobKind)
    ensures
        kind_result(n) == Ok::<BlobKind, RequestError>(kind) <==> kind.wire().number() == n,
        kind_result(n) is Ok <==> 1 <= n <= 6,
        kind_result(n) == Err::<BlobKind, RequestError>(RequestError::UnspecifiedKind) <==> n == 0,
        n < 0 || n > 6 ==> kind_result(n) == Err::<BlobKind, RequestError>(
            RequestError::UnknownKind(n),
        ),
{
}

/// A blob is asked for by a kind and by an id that is not empty; a wrong kind is said
/// before a wrong id.
pub proof fn blobs_need_a_kind_and_an_id(n: i32, id: Seq<u8>, kind: BlobKind)
    ensures
        blob_key(n, id) == Ok::<BlobKind, RequestError>(kind) <==> kind.wire().number() == n
            && id.len() > 0,
        blob_key(n, id) is Ok <==> 1 <= n <= 6 && id.len() > 0,
        blob_key(n, id) == Err::<BlobKind, RequestError>(RequestError::EmptyId) <==> 1 <= n <= 6
            && id.len() == 0,
        blob_key(n, id) == Err::<BlobKind, RequestError>(RequestError::UnspecifiedKind) <==> n == 0,
{
}

/// A ref has a name without slash and NUL that is not the name of this or the upper
/// directory.
pub proof fn ref_names_are_flat(name: Seq<char>)
    ensures
        is_ref_name(name) <==> {
            &&& name.len() > 0
            &&& forall|i: int| 0 <= i < name.len() ==> #[trigger] name[i] != '/' && name[i] != '\0'
            &&& !(name.len() <= 2 && forall|i: int| 0 <= i < name.len() ==> #[trigger] name[i] == '.')
        },
{
    reveal_strlit(".");
    reveal_strlit("..");
    let clean = forall|i: int| 0 <= i < name.len() ==> #[trigger] name[i] != '/' && name[i] != '\0';
    let dots = name.len() <= 2 && forall|i: int| 0 <= i < name.len() ==> #[trigger] name[i] == '.';
    if clean {
        assert(!name.contains('/') && !name.contains('\0'));
    }
    if !name.contains('/') && !name.contains('\0') {
        assert forall|i: int| 0 <= i < name.len() implies #[trigger] name[i] != '/' && name[i]
            != '\0' by {
            assert(name.contains(name[i]));
        }
    }
    if name.len() > 0 && dots {
        if name.len() == 1 {
            assert(name =~= "."@);
        } else {
            assert(name =~= ".."@);
        }
    }
    if name == "."@ || name == ".."@ {
        assert forall|i: int| 0 <= i < name.len() implies #[trigger] name[i] == '.' by {}
    }
}

/// What is wrong with a name is said of the first thing that is: a NUL, a slash, or that
/// it is kept for a directory. The name is quoted.
pub proof fn wrong_ref_names_are_told(name: Seq<char>)
    ensures
        name.len() == 0 ==> ref_name_message(name) == "ref name must not be empty"@,
        name.contains('\0') ==> ref_name_message(name) == "ref name "@ + quoted_text(name)
            + " contains NUL"@,
        name.contains('/') && !name.contains('\0') ==> ref_name_message(name) == "ref name "@
            + quoted_text(name) + " contains '/' (refs are flat)"@,
        name == "."@ || name == ".."@ ==> ref_name_message(name) == "ref name "@ + quoted_text(name)
            + " is a reserved path component"@,
{
    reveal_strlit(".");
    reveal_strlit("..");
    if name == "."@ || name == ".."@ {
        assert forall|i: int| 0 <= i < name.len() implies #[trigger] name[i] == '.' by {}
        assert(!name.contains('\0') && !name.contains('/'));
    }
}

/// The blob request names this number and this id.
pub open spec fn asks_for_blob(request: Request, kind: i32, id: Seq<u8>) -> bool {
    match request {
        Request::GetBlob { kind: k, id: i } => k == kind && i@ == id,
        Request::PutBlob { kind: k, id: i, .. } => k == kind && i@ == id,
        Request::HasBlob { kind: k, id: i } => k == kind && i@ == id,
        _ => false,
    }
}

/// The ref request names this ref.
pub open spec fn asks_for_ref(request: Request, name: Seq<char>) -> bool {
    match request {
        Request::GetRef { name: n } => n@ == name,
        Request::CasRef { name: n, .. } => n@ == name,
        _ => false,
    }
}

/// A request is refused if it is empty, if it asks for a blob by a number that is no
/// kind or by an empty id, or if it asks for a ref by a name that no ref has, and the
/// client is told that.
pub proof fn only_wrong_requests_are_refused(
    request: Request,
    kind: i32,
    id: Seq<u8>,
    name: Seq<char>,
)
    ensures
        refused(None),
        !refused(Some(Request::ListRefs)),
        asks_for_blob(request, kind, id) ==> {
            &&& refused(Some(request)) <==> !(1 <= kind <= 6 && id.len() > 0)
            &&& kind == 0 ==> refusal(Some(request)) == RequestError::UnspecifiedKind.message()
            &&& kind < 0 || kind > 6 ==> refusal(Some(request)) == RequestError::UnknownKind(
                kind,
            ).message()
            &&& 1 <= kind <= 6 && id.len() == 0 ==> refusal(Some(request))
                == RequestError::EmptyId.message()
        },
        asks_for_ref(request, name) ==> {
            &&& refused(Some(request)) <==> !is_ref_name(name)
            &&& refusal(Some(request)) == ref_name_message(name)
        },
{
}

/// What a refused client is told.
pub proof fn refusals_have_their_words(n: i32, name: Seq<char>, e: RequestError)
    ensures
        refusal(None) == "empty request (no oneof variant set)"@,
        RequestError::UnspecifiedKind.message()
            == "BlobKind unspecified (zero) is not a valid kind"@,
        RequestError::EmptyId.message() == "blob id must not be empty"@,
        n >= 0 ==> RequestError::UnknownKind(n).message()
            == "invalid BlobKind: unknown enumeration value "@ + decimal(n as nat),
        n < 0 ==> RequestError::UnknownKind(n).message()
            == "invalid BlobKind: unknown enumeration value "@ + ("-"@ + decimal((-n) as nat)),
        ref_refused(name, e) ==> e is RefName && e.message() == ref_name_message(name),
{
}

/// The store is asked for what the client asked for: the same operation, on the same
/// blob or ref, with the same values.
pub proof fn store_is_asked_the_same(request: Request, call: StoreCall)
    requires
        call_for(Some(request), call),
    ensures
        !refused(Some(request)),
        match request {
            Request::GetBlob { kind: n, id } => (call matches StoreCall::GetBlob { kind, id: i }
                && kind.wire().number() == n && i@ == id@),
            Request::PutBlob { kind: n, id, bytes } => (call matches StoreCall::PutBlob {
                kind,
                id: i,
                bytes: b,
            } && kind.wire().number() == n && i@ == id@ && b@ == bytes@),
            Request::HasBlob { kind: n, id } => (call matches StoreCall::HasBlob { kind, id: i }
                && kind.wire().number() == n && i@ == id@),
            Request::GetRef { name } => (call matches StoreCall::GetRef { name: r } && r@ == name@),
            Request::CasRef { name, expected, new } => (call matches StoreCall::CasRef {
                name: r,
                expected: e,
                new: w,
            } && r@ == name@ && e == expected && w == new),
            Request::ListRefs => call is ListRefs,
        },
{
}

/// The bytes of what is missing are none.
pub proof fn missing_bytes_are_none(b: Option<Vec<u8>>)
    ensures
        b matches Some(bytes) ==> or_empty(b) == bytes@,
        b is None ==> or_empty(b).len() == 0,
{
}

/// A remote of the scheme: the scheme, `://` and the rest.
pub open spec fn remote_of(scheme: Seq<char>, rest: Seq<char>) -> Seq<char> {
    scheme + seq![':', '/', '/'] + rest
}

/// The text holds no `://` that begins in front of `end`.
pub open spec fn no_scheme_before(text: Seq<char>, end: int) -> bool {
    forall|j: int|
        0 <= j < end && j + 2 < text.len() ==> !(#[trigger] text[j] == ':' && text[j + 1] == '/'
            && text[j + 2] == '/')
}

proof fn lemma_scheme_ends(scheme: Seq<char>, rest: Seq<char>)
    requires
        no_scheme_before(remote_of(scheme, rest), scheme.len() as int),
    ensures
        scheme_end(remote_of(scheme, rest), scheme.len() as int),
        remote_of(scheme, rest).take(scheme.len() as int) == scheme,
        remote_of(scheme, rest).skip(scheme.len() as int + 3) == rest,
        forall|k: int| #[trigger]
            scheme_end(remote_of(scheme, rest), k) ==> k == scheme.len(),
{
    let all = remote_of(scheme, rest);
    let n = scheme.len() as int;
    assert(scheme_ends_at(all, n));
    assert forall|j: int| 0 <= j < n implies !#[trigger] scheme_ends_at(all, j) by {
        if scheme_ends_at(all, j) {
            assert(all[j] == ':');
        }
    }
    assert(all.take(n) =~= scheme);
    assert(all.skip(n + 3) =~= rest);
    lemma_one_scheme_end(all, n);
}

/// A remote `dir://` with an absolute path is that directory; one with another path is
/// refused, and so is any other scheme here.
pub proof fn dir_remotes_name_their_directory(
    scheme: Seq<char>,
    rest: Seq<char>,
    r: Result<RemoteLocation, RemoteUrlError>,
)
    requires
        no_scheme_before(remote_of(scheme, rest), scheme.len() as int),
        located(remote_of(scheme, rest), r),
    ensures
        scheme == "dir"@ && rest.len() > 0 && rest[0] == '/' ==> (
        r matches Ok(RemoteLocation::Dir(path)) && path@ == rest),
        scheme == "dir"@ && (rest.len() == 0 || rest[0] != '/') ==> (
        r matches Err(RemoteUrlError::Relative(text)) && text@ == rest),
        scheme != "dir"@ ==> (r matches Err(RemoteUrlError::OtherScheme(text)) && text@ == scheme),
{
    lemma_scheme_ends(scheme, rest);
}

/// No remote is no location; a remote without `://` has no scheme.
pub proof fn remotes_need_a_scheme(
    remote: Seq<char>,
    r: Result<RemoteLocation, RemoteUrlError>,
)
    requires
        no_scheme_before(remote, remote.len() as int),
        located(remote, r),
    ensures
        remote.len() == 0 ==> r == Ok::<RemoteLocation, RemoteUrlError>(RemoteLocation::Nowhere),
        remote.len() > 0 ==> (r matches Err(RemoteUrlError::NoScheme(text)) && text@ == remote),
        usable(remote) <==> remote.len() == 0,
        !through_tunnel(remote),
{
    assert forall|i: int| !#[trigger] scheme_ends_at(remote, i) by {
        if scheme_ends_at(remote, i) {
            assert(remote[i] == ':');
        }
    }
    assert forall|i: int| !#[trigger] scheme_end(remote, i) by {
        assert(!scheme_ends_at(remote, i));
    }
}

/// A remote with a scheme can be used unless it is `dir` with a path that is not
/// absolute; it is reached through a tunnel only if the scheme is `ssh`.
pub proof fn schemes_decide_use(scheme: Seq<char>, rest: Seq<char>)
    requires
        no_scheme_before(remote_of(scheme, rest), scheme.len() as int),
    ensures
        usable(remote_of(scheme, rest)) <==> (scheme != "dir"@ || (rest.len() > 0 && rest[0]
            == '/')),
        through_tunnel(remote_of(scheme, rest)) <==> scheme == "ssh"@,
{
    lemma_scheme_ends(scheme, rest);
    let all = remote_of(scheme, rest);
    let n = scheme.len() as int;
    assert(scheme_end(all, n));
    if rest.len() > 0 {
        assert(all[n + 3] == rest[0]);
    }
}

} // verus!
