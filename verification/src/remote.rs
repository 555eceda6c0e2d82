//! What the daemon and its remotes agree on: kinds of blobs, names of refs, and
//! where a remote is.
use vstd::prelude::*;
use crate::text::{concat3, same_str};

verus! {

broadcast use vstd::string::group_string_axioms;

/// Which content-addressed table an id belongs to. The kind travels with the id,
/// so that blobs of different kinds with the same id stay apart.
#[derive(Clone, Copy, Debug, PartialEq, Eq, Structural, Hash)]
pub enum BlobKind {
    Tree,
    Blob,
    Commit,
    View,
    Operation,
    Extra,
}

/// The kind as it stands on the wire, where the zero value is always possible.
#[derive(Clone, Copy, Debug, PartialEq, Eq, Structural, Hash)]
pub enum WireBlobKind {
    Unspecified,
    Tree,
    Blob,
    Commit,
    View,
    Operation,
    Extra,
}

impl WireBlobKind {
    /// The number of the kind on the wire.
    pub open spec fn number(self) -> i32 {
        match self {
            WireBlobKind::Unspecified => 0,
            WireBlobKind::Tree => 1,
            WireBlobKind::Blob => 2,
            WireBlobKind::Commit => 3,
            WireBlobKind::View => 4,
            WireBlobKind::Operation => 5,
            WireBlobKind::Extra => 6,
        }
    }

    /// The number of the kind on the wire.
    pub fn to_i32(self) -> (n: i32)
        ensures
            n == self.number(),
    {
        match self {
            WireBlobKind::Unspecified => 0,
            WireBlobKind::Tree => 1,
            WireBlobKind::Blob => 2,
            WireBlobKind::Commit => 3,
            WireBlobKind::View => 4,
            WireBlobKind::Operation => 5,
            WireBlobKind::Extra => 6,
        }
    }

    /// The kind of a number, if there is one.
    pub fn from_i32(n: i32) -> (r: Option<WireBlobKind>)
        ensures
            match r {
                Some(kind) => kind.number() == n,
                None => n < 0 || n > 6,
            },
    {
        if n == 0 {
            Some(WireBlobKind::Unspecified)
        } else if n == 1 {
            Some(WireBlobKind::Tree)
        } else if n == 2 {
            Some(WireBlobKind::Blob)
        } else if n == 3 {
            Some(WireBlobKind::Commit)
        } else if n == 4 {
            Some(WireBlobKind::View)
        } else if n == 5 {
            Some(WireBlobKind::Operation)
        } else if n == 6 {
            Some(WireBlobKind::Extra)
        } else {
            None
        }
    }
}

impl BlobKind {
    /// The tag of the kind in file-backed layouts.
    pub open spec fn tag(self) -> Seq<char> {
        match self {
            BlobKind::Tree => "tree"@,
            BlobKind::Blob => "blob"@,
            BlobKind::Commit => "commit"@,
            BlobKind::View => "view"@,
            BlobKind::Operation => "operation"@,
            BlobKind::Extra => "extra"@,
        }
    }

    /// The stable tag of the kind.
    pub fn as_str(self) -> (s: &'static str)
        ensures
            s@ == self.tag(),
    {
        match self {
            BlobKind::Tree => "tree",
            BlobKind::Blob => "blob",
            BlobKind::Commit => "commit",
            BlobKind::View => "view",
            BlobKind::Operation => "operation",
            BlobKind::Extra => "extra",
        }
    }

    /// The kind as text.
    pub fn to_string(&self) -> (s: String)
        ensures
            s@ == self.tag(),
    {
        self.as_str().to_owned()
    }

    /// The wire value of the kind.
    pub open spec fn wire(self) -> WireBlobKind {
        match self {
            BlobKind::Tree => WireBlobKind::Tree,
            BlobKind::Blob => WireBlobKind::Blob,
            BlobKind::Commit => WireBlobKind::Commit,
            BlobKind::View => WireBlobKind::View,
            BlobKind::Operation => WireBlobKind::Operation,
            BlobKind::Extra => WireBlobKind::Extra,
        }
    }

    /// The kind of a wire value; the zero value has none.
    pub open spec fn of_wire(p: WireBlobKind) -> Option<BlobKind> {
        match p {
            WireBlobKind::Unspecified => None,
            WireBlobKind::Tree => Some(BlobKind::Tree),
            WireBlobKind::Blob => Some(BlobKind::Blob),
            WireBlobKind::Commit => Some(BlobKind::Commit),
            WireBlobKind::View => Some(BlobKind::View),
            WireBlobKind::Operation => Some(BlobKind::Operation),
            WireBlobKind::Extra => Some(BlobKind::Extra),
        }
    }

    /// The wire value of the kind.
    pub fn as_proto(self) -> (p: WireBlobKind)
        ensures
            p == self.wire(),
    {
        match self {
            BlobKind::Tree => WireBlobKind::Tree,
            BlobKind::Blob => WireBlobKind::Blob,
            BlobKind::Commit => WireBlobKind::Commit,
            BlobKind::View => WireBlobKind::View,
            BlobKind::Operation => WireBlobKind::Operation,
            BlobKind::Extra => WireBlobKind::Extra,
        }
    }

    /// The kind of a wire value. The zero value is invalid input rather than a
    /// kind.
    pub fn from_proto(p: WireBlobKind) -> (r: Option<BlobKind>)
        ensures
            r == BlobKind::of_wire(p),
    {
        match p {
            WireBlobKind::Unspecified => None,
            WireBlobKind::Tree => Some(BlobKind::Tree),
            WireBlobKind::Blob => Some(BlobKind::Blob),
            WireBlobKind::Commit => Some(BlobKind::Commit),
            WireBlobKind::View => Some(BlobKind::View),
            WireBlobKind::Operation => Some(BlobKind::Operation),
            WireBlobKind::Extra => Some(BlobKind::Extra),
        }
    }
}

/// Every kind comes back from the wire as it was sent, and the kinds are the
/// wire values but the zero one.
pub proof fn kind_round_trip(kind: BlobKind, p: WireBlobKind)
    ensures
        BlobKind::of_wire(kind.wire()) == Some(kind),
        BlobKind::of_wire(p) matches Some(k) ==> k.wire() == p,
        BlobKind::of_wire(p) is None <==> p == WireBlobKind::Unspecified,
{
}

/// Different kinds have different tags.
pub proof fn tags_are_distinct(a: BlobKind, b: BlobKind)
    requires
        a.tag() == b.tag(),
    ensures
        a == b,
{
    reveal_strlit("tree");
    reveal_strlit("blob");
    reveal_strlit("commit");
    reveal_strlit("view");
    reveal_strlit("operation");
    reveal_strlit("extra");
    assert("tree"@.len() == 4 && "tree"@[0] == 't');
    assert("blob"@.len() == 4 && "blob"@[0] == 'b');
    assert("commit"@.len() == 6);
    assert("view"@.len() == 4 && "view"@[0] == 'v');
    assert("operation"@.len() == 9);
    assert("extra"@.len() == 5);
}

/// What swapping a ref gave.
#[derive(Clone, Debug, PartialEq, Eq)]
pub enum CasOutcome {
    /// The expected value matched and the swap was made.
    Updated,
    /// The expected value did not match; `actual` is the value that was seen.
    Conflict { actual: Option<Vec<u8>> },
}

/// Text between quotes, with the characters that need it escaped.
pub uninterp spec fn quoted_text(text: Seq<char>) -> Seq<char>;

/// Calls `std::fmt::Debug` of `str`, through `format!`.
///
/// Claimed of it: the text depends on the argument alone. How characters are
/// escaped is not stated.
#[verifier::external_body]
pub(crate) fn quoted(text: &str) -> (s: String)
    ensures
        s@ == quoted_text(text@),
{
    format!("{text:?}")
}

/// Why a name cannot be a ref name.
#[derive(Clone, Debug, PartialEq, Eq)]
pub enum RefNameError {
    Empty,
    /// The name holds a NUL character.
    Nul(String),
    /// The name holds a slash.
    Slash(String),
    /// The name is `.` or `..`.
    Reserved(String),
}

impl RefNameError {
    /// What the error says.
    pub open spec fn message(self) -> Seq<char> {
        match self {
            RefNameError::Empty => "ref name must not be empty"@,
            RefNameError::Nul(name) => "ref name "@ + quoted_text(name@) + " contains NUL"@,
            RefNameError::Slash(name) => "ref name "@ + quoted_text(name@)
                + " contains '/' (refs are flat)"@,
            RefNameError::Reserved(name) => "ref name "@ + quoted_text(name@)
                + " is a reserved path component"@,
        }
    }

    /// The message of the error.
    pub fn to_string(&self) -> (s: String)
        ensures
            s@ == self.message(),
    {
        match self {
            RefNameError::Empty => "ref name must not be empty".to_owned(),
            RefNameError::Nul(name) => concat3(
                "ref name ",
                quoted(name.as_str()).as_str(),
                " contains NUL",
            ),
            RefNameError::Slash(name) => concat3(
                "ref name ",
                quoted(name.as_str()).as_str(),
                " contains '/' (refs are flat)",
            ),
            RefNameError::Reserved(name) => concat3(
                "ref name ",
                quoted(name.as_str()).as_str(),
                " is a reserved path component",
            ),
        }
    }
}

/// The name can name a ref: it is not empty, holds no NUL and no slash, and is
/// neither `.` nor `..`.
pub open spec fn is_ref_name(name: Seq<char>) -> bool {
    &&& name.len() > 0
    &&& !name.contains('\0')
    &&& !name.contains('/')
    &&& name != "."@
    &&& name != ".."@
}

/// What is said of a name that cannot name a ref.
pub open spec fn ref_name_message(name: Seq<char>) -> Seq<char> {
    if name.len() == 0 {
        "ref name must not be empty"@
    } else if name.contains('\0') {
        "ref name "@ + quoted_text(name) + " contains NUL"@
    } else if name.contains('/') {
        "ref name "@ + quoted_text(name) + " contains '/' (refs are flat)"@
    } else {
        "ref name "@ + quoted_text(name) + " is a reserved path component"@
    }
}

/// Whether text holds a character.
fn has_char(text: &str, c: char) -> (r: bool)
    ensures
        r == text@.contains(c),
{
    let n: usize = text.unicode_len();
    let mut i: usize = 0;
    while i < n
        invariant
            i <= n,
            n == text@.len(),
            forall|j: int| 0 <= j < i ==> text@[j] != c,
        decreases n - i,
    {
        if text.get_char(i) == c {
            assert(text@[i as int] == c);
            return true;
        }
        i = i + 1;
    }
    false
}

/// Check a ref name. Refs live in a flat namespace, so that a name must not
/// leave its directory.
pub fn validate_ref_name(name: &str) -> (r: Result<(), RefNameError>)
    ensures
        r is Ok <==> is_ref_name(name@),
        r matches Err(e) ==> e.message() == ref_name_message(name@),
        r matches Err(e) ==> match e {
            RefNameError::Empty => name@.len() == 0,
            RefNameError::Nul(text) => text@ == name@ && name@.contains('\0'),
            RefNameError::Slash(text) => text@ == name@ && name@.contains('/') && !name@.contains(
                '\0',
            ),
            RefNameError::Reserved(text) => text@ == name@ && (name@ == "."@ || name@ == ".."@),
        },
{
    proof {
        reveal_strlit(".");
        reveal_strlit("..");
    }
    if name.unicode_len() == 0 {
        return Err(RefNameError::Empty);
    }
    if has_char(name, '\0') {
        return Err(RefNameError::Nul(name.to_owned()));
    }
    if has_char(name, '/') {
        return Err(RefNameError::Slash(name.to_owned()));
    }
    if same_str(name, ".") || same_str(name, "..") {
        return Err(RefNameError::Reserved(name.to_owned()));
    }
    Ok(())
}

/// Where a remote is.
#[derive(Clone, Debug, PartialEq, Eq)]
pub enum RemoteLocation {
    /// No remote is configured.
    Nowhere,
    /// A directory, by its absolute path.
    Dir(String),
}

/// Why a remote cannot be used.
#[derive(Clone, Debug, PartialEq, Eq)]
pub enum RemoteUrlError {
    /// There is no `://` in it.
    NoScheme(String),
    /// The path behind `dir://` is not absolute.
    Relative(String),
    /// The scheme is not `dir`.
    OtherScheme(String),
}

impl RemoteUrlError {
    /// What the error says.
    pub open spec fn message(self) -> Seq<char> {
        match self {
            RemoteUrlError::NoScheme(remote) => "remote "@ + quoted_text(remote@)
                + " has no scheme; expected dir://…, s3://…, kiki+ssh://…, or kiki://…"@,
            RemoteUrlError::Relative(rest) =>
                "dir:// remote must use absolute path (got dir://"@ + rest@ + ")"@,
            RemoteUrlError::OtherScheme(scheme) =>
                "store::parse_dir only handles dir://; got scheme "@ + quoted_text(scheme@),
        }
    }

    /// The message of the error.
    pub fn to_string(&self) -> (s: String)
        ensures
            s@ == self.message(),
    {
        match self {
            RemoteUrlError::NoScheme(remote) => concat3(
                "remote ",
                quoted(remote.as_str()).as_str(),
                " has no scheme; expected dir://…, s3://…, kiki+ssh://…, or kiki://…",
            ),
            RemoteUrlError::Relative(rest) => concat3(
                "dir:// remote must use absolute path (got dir://",
                rest.as_str(),
                ")",
            ),
            RemoteUrlError::OtherScheme(scheme) => {
                let mut s = "store::parse_dir only handles dir://; got scheme ".to_owned();
                s.append(quoted(scheme.as_str()).as_str());
                s
            },
        }
    }
}

/// `://` stands at position `i`.
pub open spec fn scheme_ends_at(text: Seq<char>, i: int) -> bool {
    0 <= i && i + 3 <= text.len() && text[i] == ':' && text[i + 1] == '/' && text[i + 2] == '/'
}

/// `i` is the first position of `://`.
pub open spec fn scheme_end(text: Seq<char>, i: int) -> bool {
    scheme_ends_at(text, i) && forall|j: int| 0 <= j < i ==> !#[trigger] scheme_ends_at(text, j)
}

/// Where a remote is, or what is wrong with it. The part in front of the first
/// `://` is the scheme; only `dir` with an absolute path is handled here.
pub open spec fn located(remote: Seq<char>, r: Result<RemoteLocation, RemoteUrlError>) -> bool {
    &&& remote.len() == 0 ==> r == Ok::<RemoteLocation, RemoteUrlError>(RemoteLocation::Nowhere)
    &&& remote.len() > 0 && (forall|i: int| !#[trigger] scheme_ends_at(remote, i)) ==> (
    r matches Err(RemoteUrlError::NoScheme(text)) && text@ == remote)
    &&& forall|i: int| #[trigger]
        scheme_end(remote, i) ==> {
            let scheme = remote.take(i);
            let rest = remote.skip(i + 3);
            if scheme != "dir"@ {
                r matches Err(RemoteUrlError::OtherScheme(text)) && text@ == scheme
            } else if rest.len() > 0 && rest[0] == '/' {
                r matches Ok(RemoteLocation::Dir(path)) && path@ == rest
            } else {
                r matches Err(RemoteUrlError::Relative(text)) && text@ == rest
            }
        }
}

/// A remote can be used: it is empty, or it has a scheme, behind which an absolute
/// path stands if it is `dir`.
pub open spec fn usable(remote: Seq<char>) -> bool {
    remote.len() == 0 || exists|i: int| #[trigger]
        scheme_end(remote, i) && (remote.take(i) == "dir"@ ==> i + 3 < remote.len() && remote[i + 3]
            == '/')
}

/// A remote is reached through a tunnel: its scheme is `ssh`.
pub open spec fn through_tunnel(remote: Seq<char>) -> bool {
    exists|i: int| #[trigger] scheme_end(remote, i) && remote.take(i) == "ssh"@
}

/// There is at most one first position of `://`.
pub proof fn lemma_one_scheme_end(text: Seq<char>, i: int)
    requires
        scheme_end(text, i),
    ensures
        forall|k: int| #[trigger] scheme_end(text, k) ==> k == i,
{
    assert forall|k: int| #[trigger] scheme_end(text, k) implies k == i by {
        if k < i {
            assert(!scheme_ends_at(text, k));
        }
        if i < k {
            assert(!scheme_ends_at(text, i));
        }
    }
}

/// Find the first position of `://`.
fn find_scheme_end(remote: &str) -> (r: Option<usize>)
    ensures
        match r {
            Some(i) => i + 3 <= remote@.len() && scheme_end(remote@, i as int),
            None => forall|i: int| !#[trigger] scheme_ends_at(remote@, i),
        },
{
    let n: usize = remote.unicode_len();
    let mut i: usize = 0;
    while i < n
        invariant
            i <= n,
            n == remote@.len(),
            forall|j: int| 0 <= j < i ==> !#[trigger] scheme_ends_at(remote@, j),
        decreases n - i,
    {
        if n - i >= 3 && remote.get_char(i) == ':' && remote.get_char(i + 1) == '/'
            && remote.get_char(i + 2) == '/' {
            assert(scheme_ends_at(remote@, i as int));
            return Some(i);
        }
        i = i + 1;
    }
    assert forall|j: int| !#[trigger] scheme_ends_at(remote@, j) by {}
    None
}

/// Whether a remote is reached through a tunnel.
pub fn is_through_tunnel(remote: &str) -> (r: bool)
    ensures
        r == through_tunnel(remote@),
{
    match find_scheme_end(remote) {
        Some(i) => {
            let scheme = remote.substring_char(0, i);
            proof {
                assert(scheme@ =~= remote@.take(i as int));
                lemma_one_scheme_end(remote@, i as int);
            }
            same_str(scheme, "ssh")
        },
        None => {
            assert forall|i: int| !#[trigger] scheme_end(remote@, i) by {
                assert(!scheme_ends_at(remote@, i));
            }
            false
        },
    }
}

/// Find out where a remote is.
pub fn parse_dir(remote: &str) -> (r: Result<RemoteLocation, RemoteUrlError>)
    ensures
        located(remote@, r),
{
    if remote.unicode_len() == 0 {
        assert forall|i: int| !#[trigger] scheme_end(remote@, i) by {
            assert(!scheme_ends_at(remote@, i));
        }
        return Ok(RemoteLocation::Nowhere);
    }
    match find_scheme_end(remote) {
        Some(i) => {
            let scheme = remote.substring_char(0, i);
            let rest = remote.substring_char(i + 3, remote.unicode_len());
            proof {
                assert(scheme@ =~= remote@.take(i as int));
                assert(rest@ =~= remote@.skip(i + 3));
                assert(scheme_ends_at(remote@, i as int));
                lemma_one_scheme_end(remote@, i as int);
            }
            if !same_str(scheme, "dir") {
                return Err(RemoteUrlError::OtherScheme(scheme.to_owned()));
            }
            if rest.unicode_len() > 0 && rest.get_char(0) == '/' {
                return Ok(RemoteLocation::Dir(rest.to_owned()));
            }
            Err(RemoteUrlError::Relative(rest.to_owned()))
        },
        None => {
            assert forall|i: int| !#[trigger] scheme_end(remote@, i) by {
                assert(!scheme_ends_at(remote@, i));
            }
            Err(RemoteUrlError::NoScheme(remote.to_owned()))
        },
    }
}

/// Why an object could not be fetched.
#[derive(Clone, Debug)]
pub enum FetchError {
    /// Neither side has the object.
    NotFound { kind: String, id: String },
    /// The bytes that came do not have the id.
    DataLoss(String),
    /// The object could not be kept.
    LocalWrite(String),
    /// The remote failed.
    Remote(String),
}

/// The value of a [`FetchError`].
pub enum FetchView {
    NotFound { kind: Seq<char>, id: Seq<char> },
    DataLoss(Seq<char>),
    LocalWrite(Seq<char>),
    Remote(Seq<char>),
}

impl View for FetchError {
    type V = FetchView;

    open spec fn view(&self) -> FetchView {
        match self {
            FetchError::NotFound { kind, id } => FetchView::NotFound { kind: kind@, id: id@ },
            FetchError::DataLoss(cause) => FetchView::DataLoss(cause@),
            FetchError::LocalWrite(cause) => FetchView::LocalWrite(cause@),
            FetchError::Remote(cause) => FetchView::Remote(cause@),
        }
    }
}

} // verus!
