//! Content-addressed store of git objects.
//!
//! Files and symlink targets are blobs, directories are trees, and every
//! object stands under the id that git gives it. An object is never changed
//! once it is stored. Reading objects from disk or from a remote is the caller's
//! work: [`GitContentStore::import_object`] takes what was fetched.
use vstd::prelude::*;
use vstd::utf8::*;
use crate::sorted_map::SortedMap;
use crate::text::{compare_bytes, copy_bytes, Relation};
use crate::ty::{id_ext, Id, ID_LEN};

verus! {

broadcast use vstd::string::group_string_axioms;

/// Kind of a stored object.
#[derive(Clone, Copy, Debug, PartialEq, Eq, Structural)]
pub enum GitObjectKind {
    Blob,
    Tree,
    Commit,
}

/// Kind of a tree entry.
#[derive(Clone, Copy, Debug, PartialEq, Eq, Structural)]
pub enum GitEntryKind {
    File { executable: bool },
    Tree,
    Symlink,
    Submodule,
}

/// One entry of a tree.
#[derive(Clone, Debug, PartialEq, Eq)]
pub struct GitTreeEntry {
    pub name: String,
    pub kind: GitEntryKind,
    pub id: Id,
}

/// The value of a [`GitTreeEntry`].
pub struct EntryView {
    pub name: Seq<char>,
    pub kind: GitEntryKind,
    pub id: Id,
}

impl View for GitTreeEntry {
    type V = EntryView;

    open spec fn view(&self) -> EntryView {
        EntryView { name: self.name@, kind: self.kind, id: self.id }
    }
}

impl GitTreeEntry {
    /// A copy of the entry.
    pub fn copy(&self) -> (e: GitTreeEntry)
        ensures
            e@ == self@,
    {
        GitTreeEntry { name: self.name.clone(), kind: self.kind, id: self.id }
    }
}

/// The values of a list of entries.
pub open spec fn tree_view(entries: Seq<GitTreeEntry>) -> Seq<EntryView> {
    entries.map_values(|e: GitTreeEntry| e@)
}

// ---- the order of tree entries ---------------------------------------------

/// What orders an entry: its name; in a git tree, with a slash behind it if it is
/// a directory.
pub open spec fn order_key(e: EntryView, slashes: bool) -> Seq<u8> {
    if slashes && e.kind is Tree {
        encode_utf8(e.name).push(47u8)
    } else {
        encode_utf8(e.name)
    }
}

/// `entries` with `e` put in before everything that is above it at the end.
pub open spec fn with_entry(entries: Seq<EntryView>, e: EntryView, slashes: bool) -> Seq<EntryView>
    decreases entries.len(),
{
    if entries.len() == 0 {
        seq![e]
    } else if crate::text::bytes_lt(order_key(e, slashes), order_key(entries.last(), slashes)) {
        with_entry(entries.drop_last(), e, slashes).push(entries.last())
    } else {
        entries.push(e)
    }
}

/// The entries in the order of their keys.
pub open spec fn key_order(entries: Seq<EntryView>, slashes: bool) -> Seq<EntryView>
    decreases entries.len(),
{
    if entries.len() == 0 {
        seq![]
    } else {
        with_entry(key_order(entries.drop_last(), slashes), entries.last(), slashes)
    }
}

/// The entries in the order of a git tree.
pub open spec fn tree_order(entries: Seq<EntryView>) -> Seq<EntryView> {
    key_order(entries, true)
}

/// The entries in the order of their names.
pub open spec fn name_order(entries: Seq<EntryView>) -> Seq<EntryView> {
    key_order(entries, false)
}

/// The entries as they come back from a tree that they were stored in.
pub open spec fn read_order(entries: Seq<EntryView>) -> Seq<EntryView> {
    name_order(tree_order(entries))
}

/// Putting an entry in keeps the others and adds it.
pub proof fn with_entry_contains(
    entries: Seq<EntryView>,
    e: EntryView,
    slashes: bool,
    x: EntryView,
)
    ensures
        with_entry(entries, e, slashes).contains(x) <==> entries.contains(x) || x == e,
        with_entry(entries, e, slashes).len() == entries.len() + 1,
    decreases entries.len(),
{
    if entries.len() == 0 {
        assert(seq![e][0] == e);
    } else if crate::text::bytes_lt(order_key(e, slashes), order_key(entries.last(), slashes)) {
        let rest = entries.drop_last();
        with_entry_contains(rest, e, slashes, x);
        let all = with_entry(rest, e, slashes).push(entries.last());
        if all.contains(x) {
            let i = choose|i: int| 0 <= i < all.len() && all[i] == x;
            if i < all.len() - 1 {
                assert(with_entry(rest, e, slashes)[i] == x);
                if rest.contains(x) {
                    let j = choose|j: int| 0 <= j < rest.len() && rest[j] == x;
                    assert(entries[j] == x);
                }
            } else {
                assert(entries[entries.len() - 1] == x);
            }
        }
        if entries.contains(x) || x == e {
            if x == entries.last() {
                assert(all[all.len() - 1] == x);
            } else {
                if entries.contains(x) {
                    let j = choose|j: int| 0 <= j < entries.len() && entries[j] == x;
                    assert(rest[j] == x);
                }
                let i = choose|i: int|
                    0 <= i < with_entry(rest, e, slashes).len() && with_entry(rest, e, slashes)[i] == x;
                assert(all[i] == x);
            }
        }
    } else {
        let all = entries.push(e);
        assert(all[all.len() - 1] == e);
        if entries.contains(x) {
            let j = choose|j: int| 0 <= j < entries.len() && entries[j] == x;
            assert(all[j] == x);
        }
    }
}

/// Ordering entries keeps them all and adds none.
pub proof fn key_order_contains(entries: Seq<EntryView>, slashes: bool, x: EntryView)
    ensures
        key_order(entries, slashes).contains(x) <==> entries.contains(x),
        key_order(entries, slashes).len() == entries.len(),
    decreases entries.len(),
{
    if entries.len() > 0 {
        let rest = entries.drop_last();
        key_order_contains(rest, slashes, x);
        with_entry_contains(key_order(rest, slashes), entries.last(), slashes, x);
        if entries.contains(x) {
            let j = choose|j: int| 0 <= j < entries.len() && entries[j] == x;
            if j < entries.len() - 1 {
                assert(rest[j] == x);
            }
        }
        if rest.contains(x) {
            let j = choose|j: int| 0 <= j < rest.len() && rest[j] == x;
            assert(entries[j] == x);
        }
        assert(entries[entries.len() - 1] == entries.last());
    }
}

/// Storing entries keeps them all and adds none.
pub proof fn read_order_contains(entries: Seq<EntryView>, x: EntryView)
    ensures
        read_order(entries).contains(x) <==> entries.contains(x),
        read_order(entries).len() == entries.len(),
{
    key_order_contains(entries, true, x);
    key_order_contains(tree_order(entries), false, x);
}

// ---- the byte form of a tree -----------------------------------------------

/// The mode that git writes for a kind of entry.
pub open spec fn mode_bytes(kind: GitEntryKind) -> Seq<u8> {
    match kind {
        GitEntryKind::Tree => seq![52u8, 48u8, 48u8, 48u8, 48u8],
        GitEntryKind::File { executable } => if executable {
            seq![49u8, 48u8, 48u8, 55u8, 53u8, 53u8]
        } else {
            seq![49u8, 48u8, 48u8, 54u8, 52u8, 52u8]
        },
        GitEntryKind::Symlink => seq![49u8, 50u8, 48u8, 48u8, 48u8, 48u8],
        GitEntryKind::Submodule => seq![49u8, 54u8, 48u8, 48u8, 48u8, 48u8],
    }
}

/// One entry in bytes: mode, space, name, zero byte, id.
pub open spec fn encode_entry(e: EntryView) -> Seq<u8> {
    mode_bytes(e.kind).push(32u8) + encode_utf8(e.name).push(0u8) + e.id@
}

/// A tree in bytes: its entries one after the other.
pub open spec fn encode_tree(entries: Seq<EntryView>) -> Seq<u8>
    decreases entries.len(),
{
    if entries.len() == 0 {
        seq![]
    } else {
        encode_entry(entries[0]) + encode_tree(entries.drop_first())
    }
}

/// The name can stand in a tree: it holds no zero byte.
pub open spec fn name_fits(name: Seq<char>) -> bool {
    !encode_utf8(name).contains(0u8)
}

/// Every name can stand in a tree.
pub open spec fn names_fit(entries: Seq<EntryView>) -> bool {
    forall|i: int| 0 <= i < entries.len() ==> name_fits(#[trigger] entries[i].name)
}

/// Octal digits.
pub open spec fn octal(b: Seq<u8>) -> bool {
    forall|i: int| 0 <= i < b.len() ==> 48 <= #[trigger] b[i] <= 55
}

/// The number that octal digits stand for.
pub open spec fn octal_value(b: Seq<u8>) -> int
    decreases b.len(),
{
    if b.len() == 0 {
        0
    } else {
        octal_value(b.drop_last()) * 8 + (b.last() - 48)
    }
}

/// The position of the first space at or behind `from`.
pub open spec fn space_from(b: Seq<u8>, from: int) -> Option<int>
    decreases b.len() - from,
{
    if from >= b.len() {
        None
    } else if b[from] == 32 {
        Some(from)
    } else {
        space_from(b, from + 1)
    }
}

/// Where the mode ends: at a space behind six bytes, and else at the first space.
pub open spec fn mode_end(b: Seq<u8>) -> Option<int> {
    if b.len() > 6 && b[6] == 32 && b[5] != 32 {
        Some(6)
    } else {
        space_from(b, 0)
    }
}

/// The kind that a mode of sixteen bits stands for. The upper four bits are the
/// type: a file, a symlink, a directory (in two forms), and anything else is a
/// submodule. A file is executable by its owner or not.
pub open spec fn kind_of_mode(mode: int) -> GitEntryKind {
    let upper = mode / 4096;
    if upper == 8 {
        GitEntryKind::File { executable: (mode / 64) % 2 == 1 }
    } else if upper == 10 {
        GitEntryKind::Symlink
    } else if upper == 4 || upper == 12 {
        GitEntryKind::Tree
    } else {
        GitEntryKind::Submodule
    }
}

/// The kind whose mode `b` begins with, and the position behind the space. A mode
/// is at most seven octal digits, of which the lower sixteen bits count.
pub open spec fn parse_mode(b: Seq<u8>) -> Option<(GitEntryKind, int)> {
    match mode_end(b) {
        Some(n) => if n <= 7 && octal(b.take(n)) {
            Some((kind_of_mode(octal_value(b.take(n)) % 65536), n + 1))
        } else {
            None
        },
        None => None,
    }
}

/// The position of the first zero byte at or behind `from`.
pub open spec fn zero_from(b: Seq<u8>, from: int) -> Option<int>
    decreases b.len() - from,
{
    if from >= b.len() {
        None
    } else if b[from] == 0 {
        Some(from)
    } else {
        zero_from(b, from + 1)
    }
}

/// The id of twenty bytes.
pub open spec fn id_of(b: Seq<u8>) -> Id {
    choose|id: Id| id@ == b
}

/// Twenty bytes are the bytes of an id.
pub proof fn id_of_bytes(b: Seq<u8>)
    requires
        b.len() == ID_LEN,
    ensures
        id_of(b)@ == b,
{
    let bytes: [u8; 20] = [
        b[0],
        b[1],
        b[2],
        b[3],
        b[4],
        b[5],
        b[6],
        b[7],
        b[8],
        b[9],
        b[10],
        b[11],
        b[12],
        b[13],
        b[14],
        b[15],
        b[16],
        b[17],
        b[18],
        b[19],
    ];
    assert(Id(bytes)@ =~= b);
}

/// The first entry of a tree in bytes, and where the next one starts.
pub open spec fn parse_entry(b: Seq<u8>) -> Option<(EntryView, int)> {
    match parse_mode(b) {
        None => None,
        Some((kind, start)) => match zero_from(b, start) {
            None => None,
            Some(end) => if end + 21 <= b.len() && valid_utf8(b.subrange(start, end)) {
                Some(
                    (
                        EntryView {
                            name: decode_utf8(b.subrange(start, end)),
                            kind,
                            id: id_of(b.subrange(end + 1, end + 21)),
                        },
                        end + 21,
                    ),
                )
            } else {
                None
            },
        },
    }
}

/// The entries of a tree in bytes, if it is well formed.
pub open spec fn parse_tree(b: Seq<u8>) -> Option<Seq<EntryView>>
    decreases b.len(),
    when b.len() >= 0
    via parse_tree_decreases
{
    if b.len() == 0 {
        Some(seq![])
    } else {
        match parse_entry(b) {
            None => None,
            Some((e, next)) => match parse_tree(b.skip(next)) {
                None => None,
                Some(rest) => Some(seq![e] + rest),
            },
        }
    }
}

#[via_fn]
proof fn parse_tree_decreases(b: Seq<u8>) {
    if let Some((e, next)) = parse_entry(b) {
        lemma_parse_entry_bounds(b);
    }
}

pub proof fn lemma_zero_from(b: Seq<u8>, from: int)
    requires
        0 <= from,
    ensures
        match zero_from(b, from) {
            Some(end) => from <= end < b.len() && b[end] == 0 && forall|i: int|
                from <= i < end ==> b[i] != 0,
            None => forall|i: int| from <= i < b.len() ==> b[i] != 0,
        },
    decreases b.len() - from,
{
    if from < b.len() && b[from] != 0 {
        lemma_zero_from(b, from + 1);
    }
}

pub proof fn lemma_space_from(b: Seq<u8>, from: int)
    requires
        0 <= from,
    ensures
        match space_from(b, from) {
            Some(end) => from <= end < b.len() && b[end] == 32 && forall|i: int|
                from <= i < end ==> b[i] != 32,
            None => forall|i: int| from <= i < b.len() ==> b[i] != 32,
        },
    decreases b.len() - from,
{
    if from < b.len() && b[from] != 32 {
        lemma_space_from(b, from + 1);
    }
}

proof fn lemma_parse_entry_bounds(b: Seq<u8>)
    ensures
        parse_entry(b) matches Some((e, next)) ==> 0 < next <= b.len(),
{
    lemma_space_from(b, 0);
    if let Some((kind, start)) = parse_mode(b) {
        lemma_zero_from(b, start);
    }
}

/// The number that five octal digits stand for.
proof fn lemma_five_digits(d: Seq<u8>)
    requires
        d.len() == 5,
    ensures
        octal_value(d) == (d[0] - 48) * 4096 + (d[1] - 48) * 512 + (d[2] - 48) * 64 + (d[3] - 48) * 8
            + (d[4] - 48),
{
    let d4 = d.drop_last();
    let d3 = d4.drop_last();
    let d2 = d3.drop_last();
    let d1 = d2.drop_last();
    assert(d1.drop_last().len() == 0);
    assert(octal_value(d1.drop_last()) == 0);
    assert(octal_value(d1) == d[0] - 48);
    assert(octal_value(d2) == (d[0] - 48) * 8 + (d[1] - 48));
    assert(octal_value(d3) == (d[0] - 48) * 64 + (d[1] - 48) * 8 + (d[2] - 48));
    assert(octal_value(d4) == (d[0] - 48) * 512 + (d[1] - 48) * 64 + (d[2] - 48) * 8 + (d[3] - 48));
}

/// The mode that is written for a kind is read back as the kind.
proof fn lemma_parse_mode(kind: GitEntryKind, rest: Seq<u8>)
    ensures
        parse_mode(mode_bytes(kind).push(32u8) + rest) == Some(
            (kind, mode_bytes(kind).len() as int + 1),
        ),
{
    let mode = mode_bytes(kind);
    let n = mode.len() as int;
    let b = mode.push(32u8) + rest;
    assert(b.take(n) =~= mode);
    assert(b[n] == 32);
    assert forall|i: int| 0 <= i < n implies b[i] == mode[i] by {}
    lemma_space_from(b, 0);
    if kind is Tree {
        assert(b[5] == 32);
        assert(space_from(b, 0) == Some(5int));
        lemma_five_digits(mode);
    } else {
        assert(b[5] != 32 && b[6] == 32);
        let front = mode.drop_last();
        assert(front =~= seq![mode[0], mode[1], mode[2], mode[3], mode[4]]);
        lemma_five_digits(front);
        assert(octal_value(mode) == octal_value(front) * 8 + (mode[5] - 48));
    }
}

/// Reading back an encoded entry gives the entry.
pub proof fn parse_encoded_entry(e: EntryView, rest: Seq<u8>)
    requires
        name_fits(e.name),
    ensures
        parse_entry(encode_entry(e) + rest) == Some((e, encode_entry(e).len() as int)),
{
    let mode = mode_bytes(e.kind).push(32u8);
    let name = encode_utf8(e.name);
    let b = encode_entry(e) + rest;
    let start = mode.len() as int;
    let end = start + name.len();
    assert(b =~= mode + (name.push(0u8) + e.id@ + rest));
    lemma_parse_mode(e.kind, name.push(0u8) + e.id@ + rest);
    lemma_zero_from(b, start);
    assert(b[end] == 0) by {
        assert(b[end] == (name.push(0u8) + e.id@ + rest)[name.len() as int]);
    }
    assert forall|i: int| start <= i < end implies b[i] != 0 by {
        assert(b[i] == name[i - start]);
        assert(name.contains(name[i - start]));
    }
    assert(zero_from(b, start) == Some(end));
    assert(b.subrange(start, end) =~= name);
    encode_utf8_valid_utf8(e.name);
    encode_utf8_decode_utf8(e.name);
    assert(b.subrange(end + 1, end + 21) =~= e.id@);
    id_ext(id_of(e.id@), e.id);
}

/// A tree read back from its bytes is the tree that was written.
pub proof fn parse_encoded_tree(entries: Seq<EntryView>)
    requires
        names_fit(entries),
    ensures
        parse_tree(encode_tree(entries)) == Some(entries),
    decreases entries.len(),
{
    if entries.len() == 0 {
        assert(entries =~= seq![]);
    } else {
        let e = entries[0];
        let rest = entries.drop_first();
        let b = encode_tree(entries);
        assert forall|i: int| 0 <= i < rest.len() implies name_fits(#[trigger] rest[i].name) by {
            assert(rest[i] == entries[i + 1]);
        }
        parse_encoded_tree(rest);
        parse_encoded_entry(e, encode_tree(rest));
        assert(b.skip(encode_entry(e).len() as int) =~= encode_tree(rest));
        assert(seq![e] + rest =~= entries);
    }
}

proof fn lemma_encode_push(entries: Seq<EntryView>, e: EntryView)
    ensures
        encode_tree(entries.push(e)) == encode_tree(entries) + encode_entry(e),
    decreases entries.len(),
{
    let all = entries.push(e);
    if entries.len() == 0 {
        let none: Seq<EntryView> = seq![];
        assert(all.drop_first() =~= none);
        assert(encode_tree(none) =~= seq![]);
        assert(all[0] == e);
        assert(encode_tree(all) =~= encode_entry(e));
        assert(encode_tree(entries) + encode_entry(e) =~= encode_entry(e));
    } else {
        assert(all.drop_first() =~= entries.drop_first().push(e));
        lemma_encode_push(entries.drop_first(), e);
        assert(encode_tree(all) =~= encode_tree(entries) + encode_entry(e));
    }
}

// ---- hashing and the byte form, executable ---------------------------------

/// The id that git gives an object, or nothing where the hash function refuses
/// the bytes.
pub uninterp spec fn git_object_id(kind: GitObjectKind, data: Seq<u8>) -> Option<Seq<u8>>;

/// Calls `gix_object::compute_hash` for SHA-1.
///
/// Claimed of it: the result depends on the object kind and the bytes alone,
/// and an id has twenty bytes. No id comes back where the bytes carry a
/// known collision attack on the hash. What the id is of given bytes is not
/// stated.
#[verifier::external_body]
fn compute_hash(kind: GitObjectKind, data: &[u8]) -> (r: Option<Vec<u8>>)
    ensures
        r matches Some(v) ==> v@.len() == 20,
        (match r {
            Some(v) => Some(v@),
            None => None,
        }) == git_object_id(kind, data@),
{
    let kind = match kind {
        GitObjectKind::Blob => gix_object::Kind::Blob,
        GitObjectKind::Tree => gix_object::Kind::Tree,
        GitObjectKind::Commit => gix_object::Kind::Commit,
    };
    match gix_object::compute_hash(gix_hash::Kind::Sha1, kind, data) {
        Ok(id) => Some(id.as_slice().to_vec()),
        Err(_) => None,
    }
}

/// Calls `std::str::from_utf8`.
///
/// Claimed of it: the bytes are a string exactly if they are well-formed
/// UTF-8, and the string is what they encode.
#[verifier::external_body]
pub(crate) fn utf8_string(bytes: &[u8]) -> (r: Option<String>)
    ensures
        match r {
            Some(s) => valid_utf8(bytes@) && s@ == decode_utf8(bytes@),
            None => !valid_utf8(bytes@),
        },
{
    match std::str::from_utf8(bytes) {
        Ok(s) => Some(s.to_owned()),
        Err(_) => None,
    }
}

/// The id of an object, or nothing where the hash function refuses the bytes.
pub open spec fn object_id(kind: GitObjectKind, data: Seq<u8>) -> Option<Id> {
    match git_object_id(kind, data) {
        Some(b) => Some(id_of(b)),
        None => None,
    }
}

/// The id under which an object is stored.
pub fn hash_object(kind: GitObjectKind, data: &[u8]) -> (r: Option<Id>)
    ensures
        r == object_id(kind, data@),
{
    match compute_hash(kind, data) {
        Some(v) => match Id::from_bytes(v.as_slice()) {
            Ok(id) => {
                proof {
                    id_ext(id, id_of(v@));
                }
                Some(id)
            },
            Err(_) => {
                assert(false);
                None
            },
        },
        None => None,
    }
}

fn push_all(out: &mut Vec<u8>, bytes: &[u8])
    ensures
        final(out)@ == old(out)@ + bytes@,
{
    let ghost before = out@;
    let mut i: usize = 0;
    while i < bytes.len()
        invariant
            i <= bytes.len(),
            out@ == before + bytes@.take(i as int),
        decreases bytes.len() - i,
    {
        out.push(bytes[i]);
        i = i + 1;
        assert(out@ =~= before + bytes@.take(i as int));
    }
    assert(bytes@.take(i as int) =~= bytes@);
}

fn push_mode(out: &mut Vec<u8>, kind: GitEntryKind)
    ensures
        final(out)@ == old(out)@ + mode_bytes(kind).push(32u8),
{
    let ghost before = out@;
    match kind {
        GitEntryKind::Tree => {
            push_all(out, &[52u8, 48, 48, 48, 48, 32]);
        },
        GitEntryKind::File { executable } => {
            if executable {
                push_all(out, &[49u8, 48, 48, 55, 53, 53, 32]);
            } else {
                push_all(out, &[49u8, 48, 48, 54, 52, 52, 32]);
            }
        },
        GitEntryKind::Symlink => {
            push_all(out, &[49u8, 50, 48, 48, 48, 48, 32]);
        },
        GitEntryKind::Submodule => {
            push_all(out, &[49u8, 54, 48, 48, 48, 48, 32]);
        },
    }
    assert(out@ =~= before + mode_bytes(kind).push(32u8));
}

fn has_zero(bytes: &[u8]) -> (r: bool)
    ensures
        r == bytes@.contains(0u8),
{
    let mut i: usize = 0;
    while i < bytes.len()
        invariant
            i <= bytes.len(),
            forall|j: int| 0 <= j < i ==> bytes@[j] != 0,
        decreases bytes.len() - i,
    {
        if bytes[i] == 0 {
            assert(bytes@[i as int] == 0);
            return true;
        }
        i = i + 1;
    }
    false
}

/// Write the entries of a tree in bytes. A name that holds a zero byte has no
/// byte form.
pub fn tree_to_bytes(entries: &Vec<GitTreeEntry>) -> (r: Option<Vec<u8>>)
    ensures
        match r {
            Some(b) => names_fit(tree_view(entries@)) && b@ == encode_tree(tree_view(entries@)),
            None => !names_fit(tree_view(entries@)),
        },
{
    let mut out: Vec<u8> = Vec::new();
    let ghost all = tree_view(entries@);
    let mut i: usize = 0;
    while i < entries.len()
        invariant
            i <= entries.len(),
            all == tree_view(entries@),
            out@ == encode_tree(all.take(i as int)),
            forall|j: int| 0 <= j < i ==> name_fits(#[trigger] all[j].name),
        decreases entries.len() - i,
    {
        let e = &entries[i];
        let name = e.name.as_str().as_bytes();
        assert(all[i as int] == e@);
        if has_zero(name) {
            assert(!name_fits(all[i as int].name));
            return None;
        }
        let ghost before = out@;
        push_mode(&mut out, e.kind);
        push_all(&mut out, name);
        out.push(0);
        push_all(&mut out, e.id.0.as_slice());
        proof {
            assert(out@ =~= before + encode_entry(e@));
            lemma_encode_push(all.take(i as int), e@);
            assert(all.take(i + 1) =~= all.take(i as int).push(e@));
        }
        i = i + 1;
    }
    assert(all.take(i as int) =~= all);
    Some(out)
}

fn find_space(b: &[u8], base: usize, from: usize) -> (r: Option<usize>)
    requires
        base <= from <= b.len(),
    ensures
        match r {
            Some(end) => from <= end < b.len() && space_from(b@.skip(base as int), from - base)
                == Some(end - base),
            None => space_from(b@.skip(base as int), from - base) is None,
        },
    decreases b.len() - from,
{
    if from >= b.len() {
        None
    } else if b[from] == 32 {
        Some(from)
    } else {
        find_space(b, base, from + 1)
    }
}

fn mode_at(b: &[u8], from: usize) -> (r: Option<(GitEntryKind, usize)>)
    requires
        from <= b.len(),
    ensures
        match r {
            Some((kind, n)) => parse_mode(b@.skip(from as int)) == Some((kind, n as int)) && from + n
                <= b.len(),
            None => parse_mode(b@.skip(from as int)) is None,
        },
{
    let ghost tail = b@.skip(from as int);
    let left: usize = b.len() - from;
    let end: usize = if left > 6 && b[from + 6] == 32 && b[from + 5] != 32 {
        6
    } else {
        match find_space(b, from, from) {
            Some(end) => end - from,
            None => {
                return None;
            },
        }
    };
    assert(mode_end(tail) == Some(end as int));
    if end > 7 {
        return None;
    }
    let mut value: u32 = 0;
    let mut i: usize = 0;
    assert(tail.take(0).len() == 0);
    while i < end
        invariant
            i <= end <= 7,
            end < left,
            left == b.len() - from,
            from <= b.len(),
            tail == b@.skip(from as int),
            mode_end(tail) == Some(end as int),
            octal(tail.take(i as int)),
            value == octal_value(tail.take(i as int)),
            i == 0 ==> value == 0,
            i == 1 ==> value < 8,
            i == 2 ==> value < 64,
            i == 3 ==> value < 512,
            i == 4 ==> value < 4096,
            i == 5 ==> value < 32768,
            i == 6 ==> value < 262144,
            i == 7 ==> value < 2097152,
        decreases end - i,
    {
        let digit: u8 = b[from + i];
        assert(tail[i as int] == digit);
        if digit < 48 || digit > 55 {
            assert(tail.take(end as int)[i as int] == digit);
            return None;
        }
        proof {
            assert(tail.take(i + 1).drop_last() =~= tail.take(i as int));
            assert(tail.take(i + 1).last() == digit);
            assert forall|k: int| 0 <= k < i + 1 implies 48 <= #[trigger] tail.take(i + 1)[k]
                <= 55 by {
                if k < i {
                    assert(tail.take(i as int)[k] == tail.take(i + 1)[k]);
                }
            }
        }
        value = value * 8 + (digit - 48) as u32;
        i = i + 1;
    }
    let mode: u32 = value % 65536;
    let upper: u32 = mode / 4096;
    let kind = if upper == 8 {
        GitEntryKind::File { executable: (mode / 64) % 2 == 1 }
    } else if upper == 10 {
        GitEntryKind::Symlink
    } else if upper == 4 || upper == 12 {
        GitEntryKind::Tree
    } else {
        GitEntryKind::Submodule
    };
    Some((kind, end + 1))
}

fn find_zero(b: &[u8], base: usize, from: usize) -> (r: Option<usize>)
    requires
        base <= from <= b.len(),
    ensures
        match r {
            Some(end) => from <= end < b.len() && zero_from(b@.skip(base as int), from - base)
                == Some(end - base),
            None => zero_from(b@.skip(base as int), from - base) is None,
        },
    decreases b.len() - from,
{
    if from >= b.len() {
        None
    } else if b[from] == 0 {
        Some(from)
    } else {
        find_zero(b, base, from + 1)
    }
}

fn entry_at(b: &[u8], from: usize) -> (r: Option<(GitTreeEntry, usize)>)
    requires
        from <= b.len(),
    ensures
        match r {
            Some((e, next)) => from < next <= b.len() && parse_entry(b@.skip(from as int)) == Some(
                (e@, next - from),
            ),
            None => parse_entry(b@.skip(from as int)) is None,
        },
{
    let ghost tail = b@.skip(from as int);
    let (kind, n) = match mode_at(b, from) {
        Some(m) => m,
        None => {
            return None;
        },
    };
    let start: usize = from + n;
    let end: usize = match find_zero(b, from, start) {
        Some(end) => end,
        None => {
            return None;
        },
    };
    if b.len() - end < 21 {
        return None;
    }
    let name = match utf8_string(vstd::slice::slice_subrange(b, start, end)) {
        Some(name) => {
            assert(tail.subrange(start - from, end - from) =~= b@.subrange(
                start as int,
                end as int,
            ));
            name
        },
        None => {
            assert(tail.subrange(start - from, end - from) =~= b@.subrange(
                start as int,
                end as int,
            ));
            return None;
        },
    };
    match Id::from_bytes(vstd::slice::slice_subrange(b, end + 1, end + 21)) {
        Ok(id) => {
            proof {
                let raw = tail.subrange(end - from + 1, end - from + 21);
                assert(raw =~= b@.subrange(end + 1, end + 21));
                id_ext(id, id_of(raw));
            }
            Some((GitTreeEntry { name, kind, id }, end + 21))
        },
        Err(_) => {
            assert(false);
            None
        },
    }
}

/// Read a tree from bytes; nothing comes back if it is not well formed.
pub fn tree_from_bytes(b: &[u8]) -> (r: Option<Vec<GitTreeEntry>>)
    ensures
        match r {
            Some(es) => parse_tree(b@) == Some(tree_view(es@)),
            None => parse_tree(b@) is None,
        },
{
    let mut out: Vec<GitTreeEntry> = Vec::new();
    let mut from: usize = 0;
    assert(b@.skip(0) =~= b@);
    while from < b.len()
        invariant
            from <= b.len(),
            match parse_tree(b@.skip(from as int)) {
                Some(rest) => parse_tree(b@) == Some(tree_view(out@) + rest),
                None => parse_tree(b@) is None,
            },
        decreases b.len() - from,
    {
        match entry_at(b, from) {
            Some((e, next)) => {
                let ghost done = tree_view(out@);
                let ghost value = e@;
                out.push(e);
                proof {
                    assert(b@.skip(from as int).skip(next - from) =~= b@.skip(next as int));
                    assert(tree_view(out@) =~= done.push(value));
                    if let Some(rest) = parse_tree(b@.skip(next as int)) {
                        assert(done + (seq![value] + rest) =~= done.push(value) + rest);
                    }
                }
                from = next;
            },
            None => {
                return None;
            },
        }
    }
    assert(b@.skip(from as int) =~= seq![]);
    assert(tree_view(out@) + Seq::<EntryView>::empty() =~= tree_view(out@));
    Some(out)
}

/// Put the entries of a tree in git's order.
pub fn order_entries(entries: &Vec<GitTreeEntry>) -> (out: Vec<GitTreeEntry>)
    ensures
        tree_view(out@) == tree_order(tree_view(entries@)),
{
    order_by_key(entries, true)
}

fn order_by_key(entries: &Vec<GitTreeEntry>, slashes: bool) -> (out: Vec<GitTreeEntry>)
    ensures
        tree_view(out@) == key_order(tree_view(entries@), slashes),
{
    let mut out: Vec<GitTreeEntry> = Vec::new();
    let ghost all = tree_view(entries@);
    assert(tree_view(out@) =~= key_order(all.take(0), slashes));
    let mut i: usize = 0;
    while i < entries.len()
        invariant
            i <= entries.len(),
            all == tree_view(entries@),
            tree_view(out@) == key_order(all.take(i as int), slashes),
        decreases entries.len() - i,
    {
        let e = entries[i].copy();
        proof {
            assert(all.take(i + 1).drop_last() =~= all.take(i as int));
            assert(all.take(i + 1).last() == e@);
        }
        insert_entry(&mut out, e, slashes);
        i = i + 1;
    }
    assert(all.take(i as int) =~= all);
    out
}

fn key_of(e: &GitTreeEntry, slashes: bool) -> (k: Vec<u8>)
    ensures
        k@ == order_key(e@, slashes),
{
    let mut k = copy_bytes(e.name.as_str().as_bytes());
    if slashes && matches!(e.kind, GitEntryKind::Tree) {
        k.push(47);
    }
    k
}

fn insert_entry(out: &mut Vec<GitTreeEntry>, e: GitTreeEntry, slashes: bool)
    ensures
        tree_view(final(out)@) == with_entry(tree_view(old(out)@), e@, slashes),
{
    let ghost before = tree_view(out@);
    let key = key_of(&e, slashes);
    let mut at: usize = out.len();
    proof {
        assert(before.take(at as int) =~= before);
        assert(with_entry(before, e@, slashes) =~= with_entry(before, e@, slashes) + before.skip(at as int));
        assert(before.take(0) =~= seq![]);
        assert(before.take(0).push(e@) =~= seq![e@]);
    }
    while at > 0
        invariant_except_break
            at <= out@.len(),
            before == tree_view(out@),
            key@ == order_key(e@, slashes),
            before.take(0) == Seq::<EntryView>::empty(),
            before.take(0).push(e@) == seq![e@],
            with_entry(before, e@, slashes) == with_entry(before.take(at as int), e@, slashes) + before.skip(at as int),
        ensures
            at <= out@.len(),
            before == tree_view(out@),
            with_entry(before, e@, slashes) == before.take(at as int).push(e@) + before.skip(at as int),
        decreases at,
    {
        let ghost head = before.take(at as int);
        let below = matches!(
            compare_bytes(key.as_slice(), key_of(&out[at - 1], slashes).as_slice()),
            Relation::Below
        );
        assert(head.last() == out@[at - 1]@);
        if !below {
            break;
        }
        proof {
            assert(head.drop_last() =~= before.take(at - 1));
            assert(with_entry(before.take(at - 1), e@, slashes).push(head.last()) + before.skip(at as int)
                =~= with_entry(before.take(at - 1), e@, slashes) + before.skip(at - 1));
        }
        at = at - 1;
    }
    let ghost value = e@;
    out.insert(at, e);
    assert(tree_view(out@) =~= before.take(at as int).push(value) + before.skip(at as int));
}

// ---- the store ---------------------------------------------------------------

/// A stored object.
#[derive(Debug)]
pub struct GitObject {
    pub kind: GitObjectKind,
    pub data: Vec<u8>,
}

/// The value of a [`GitObject`].
pub struct ObjectView {
    pub kind: GitObjectKind,
    pub data: Seq<u8>,
}

impl View for GitObject {
    type V = ObjectView;

    open spec fn view(&self) -> ObjectView {
        ObjectView { kind: self.kind, data: self.data@ }
    }
}

/// Why the store could not do what was asked.
#[derive(Clone, Copy, Debug, PartialEq, Eq, Structural)]
pub enum StoreFault {
    /// The object under the id is not a blob.
    NotABlob,
    /// The object under the id is not a tree.
    NotATree,
    /// The object under the id is not a commit.
    NotACommit,
    /// The bytes of the tree are not well formed.
    MalformedTree,
    /// The blob is no symlink target: it is not UTF-8.
    TargetNotUtf8,
    /// A name holds a zero byte, which a tree cannot carry.
    ZeroInName,
    /// The hash function refused the bytes.
    HashRefused,
    /// The bytes do not have the id they were said to have.
    IdMismatch,
}

impl StoreFault {
    /// What the fault says.
    pub open spec fn message(self) -> Seq<char> {
        match self {
            StoreFault::NotABlob => "object is not a blob"@,
            StoreFault::NotATree => "object is not a tree"@,
            StoreFault::NotACommit => "object is not a commit"@,
            StoreFault::MalformedTree => "malformed tree object"@,
            StoreFault::TargetNotUtf8 => "symlink target is not UTF-8"@,
            StoreFault::ZeroInName => "Nullbytes are invalid in file paths as they are separators"@,
            StoreFault::HashRefused => "object hash refused"@,
            StoreFault::IdMismatch => "object bytes do not match their id"@,
        }
    }

    /// The message of the fault.
    pub fn to_string(&self) -> (s: String)
        ensures
            s@ == self.message(),
    {
        match self {
            StoreFault::NotABlob => "object is not a blob".to_owned(),
            StoreFault::NotATree => "object is not a tree".to_owned(),
            StoreFault::NotACommit => "object is not a commit".to_owned(),
            StoreFault::MalformedTree => "malformed tree object".to_owned(),
            StoreFault::TargetNotUtf8 => "symlink target is not UTF-8".to_owned(),
            StoreFault::ZeroInName =>
                "Nullbytes are invalid in file paths as they are separators".to_owned(),
            StoreFault::HashRefused => "object hash refused".to_owned(),
            StoreFault::IdMismatch => "object bytes do not match their id".to_owned(),
        }
    }
}

/// The id of the empty tree, which every store knows.
pub const EMPTY_TREE: [u8; 20] = [
    0x4b,
    0x82,
    0x5d,
    0xc6,
    0x42,
    0xcb,
    0x6e,
    0xb9,
    0xa0,
    0x60,
    0xe5,
    0x4b,
    0xf8,
    0xd6,
    0x92,
    0x88,
    0xfb,
    0xee,
    0x49,
    0x04,
];

/// The objects of a store, by id.
pub type Objects = Map<Id, ObjectView>;

/// The objects after one more was written: an object that is there stays.
pub open spec fn written(objects: Objects, kind: GitObjectKind, data: Seq<u8>) -> Objects {
    match object_id(kind, data) {
        Some(id) => if objects.contains_key(id) {
            objects
        } else {
            objects.insert(id, ObjectView { kind, data })
        },
        None => objects,
    }
}

/// What a blob read gives.
pub open spec fn file_at(objects: Objects, id: Id) -> Result<Option<Seq<u8>>, StoreFault> {
    if !objects.contains_key(id) {
        Ok(None)
    } else if objects[id].kind is Blob {
        Ok(Some(objects[id].data))
    } else {
        Err(StoreFault::NotABlob)
    }
}

/// What a commit read gives: the encoded commit.
pub open spec fn commit_at(objects: Objects, id: Id) -> Result<Option<Seq<u8>>, StoreFault> {
    if !objects.contains_key(id) {
        Ok(None)
    } else if objects[id].kind is Commit {
        Ok(Some(objects[id].data))
    } else {
        Err(StoreFault::NotACommit)
    }
}

/// What a symlink read gives.
pub open spec fn link_at(objects: Objects, id: Id) -> Result<Option<Seq<char>>, StoreFault> {
    match file_at(objects, id) {
        Ok(Some(data)) => if valid_utf8(data) {
            Ok(Some(decode_utf8(data)))
        } else {
            Err(StoreFault::TargetNotUtf8)
        },
        Ok(None) => Ok(None),
        Err(e) => Err(e),
    }
}

/// What a tree read gives: the entries in the order of their names.
pub open spec fn tree_at(objects: Objects, id: Id) -> Result<Option<Seq<EntryView>>, StoreFault> {
    if id == Id(EMPTY_TREE) {
        Ok(Some(seq![]))
    } else if !objects.contains_key(id) {
        Ok(None)
    } else if !(objects[id].kind is Tree) {
        Err(StoreFault::NotATree)
    } else {
        match parse_tree(objects[id].data) {
            Some(entries) => Ok(Some(name_order(entries))),
            None => Err(StoreFault::MalformedTree),
        }
    }
}

/// The bytes under which a tree is stored.
pub open spec fn tree_data(entries: Seq<EntryView>) -> Seq<u8> {
    encode_tree(tree_order(entries))
}

/// The id that writing a tree gives.
pub open spec fn tree_id(entries: Seq<EntryView>) -> Result<Id, StoreFault> {
    if !names_fit(entries) {
        Err(StoreFault::ZeroInName)
    } else {
        match object_id(GitObjectKind::Tree, tree_data(entries)) {
            Some(id) => Ok(id),
            None => Err(StoreFault::HashRefused),
        }
    }
}

/// The id that writing a blob gives.
pub open spec fn blob_id(data: Seq<u8>) -> Result<Id, StoreFault> {
    match object_id(GitObjectKind::Blob, data) {
        Some(id) => Ok(id),
        None => Err(StoreFault::HashRefused),
    }
}

/// The store of one mount.
#[derive(Debug)]
pub struct GitContentStore {
    objects: SortedMap<Id, GitObject>,
    git_repo_path: String,
}

impl View for GitContentStore {
    type V = Objects;

    closed spec fn view(&self) -> Objects {
        Map::new(
            |id: Id| self.objects@.contains_key(id@),
            |id: Id| self.objects@[id@]@,
        )
    }
}

impl GitContentStore {
    /// Where the git repository of the store is.
    pub closed spec fn path(&self) -> Seq<char> {
        self.git_repo_path@
    }

    /// An empty store for the repository at a path.
    pub fn new(git_repo_path: String) -> (s: GitContentStore)
        ensures
            s@ == Map::<Id, ObjectView>::empty(),
            s.path() == git_repo_path@,
    {
        let s = GitContentStore { objects: SortedMap::new(), git_repo_path };
        assert(s@ =~= Map::<Id, ObjectView>::empty());
        s
    }

    /// An empty store without a repository on disk.
    pub fn new_in_memory() -> (s: GitContentStore)
        ensures
            s@ == Map::<Id, ObjectView>::empty(),
            s.path() == Seq::<char>::empty(),
    {
        GitContentStore::new(String::new())
    }

    /// Where the git repository of the store is.
    pub fn git_repo_path(&self) -> (p: &str)
        ensures
            p@ == self.path(),
    {
        self.git_repo_path.as_str()
    }

    /// The id of the empty tree.
    pub fn empty_tree_id(&self) -> (id: Id)
        ensures
            id == Id(EMPTY_TREE),
            tree_at(self@, id) == Ok::<Option<Seq<EntryView>>, StoreFault>(Some(seq![])),
    {
        Id(EMPTY_TREE)
    }

    /// The object under an id.
    pub fn object(&self, id: &Id) -> (r: Option<&GitObject>)
        ensures
            match r {
                Some(o) => self@.contains_key(*id) && o@ == self@[*id],
                None => !self@.contains_key(*id),
            },
    {
        self.objects.get(id.0.as_slice())
    }

    /// The raw bytes of the object under an id, with its kind.
    pub fn read_git_object_bytes(&self, id: &Id) -> (r: Option<(GitObjectKind, Vec<u8>)>)
        ensures
            match r {
                Some((kind, data)) => self@.contains_key(*id) && self@[*id] == (ObjectView {
                    kind,
                    data: data@,
                }),
                None => !self@.contains_key(*id),
            },
    {
        match self.object(id) {
            Some(o) => Some((o.kind, copy_bytes(o.data.as_slice()))),
            None => None,
        }
    }

    fn add_object(&mut self, id: Id, kind: GitObjectKind, data: Vec<u8>)
        ensures
            final(self)@ == (if old(self)@.contains_key(id) {
                old(self)@
            } else {
                old(self)@.insert(id, ObjectView { kind, data: data@ })
            }),
            final(self).path() == old(self).path(),
    {
        if self.object(&id).is_some() {
            return ;
        }
        let ghost before = self@;
        let ghost value = ObjectView { kind, data: data@ };
        self.objects.insert(id, GitObject { kind, data });
        proof {
            assert forall|other: Id| #[trigger] other@ == id@ implies other == id by {
                id_ext(other, id);
            }
            assert(self@ =~= before.insert(id, value));
        }
    }

    /// Store an object, and return its id.
    pub fn write_object(
        &mut self,
        kind: GitObjectKind,
        data: Vec<u8>,
    ) -> (r: Result<Id, StoreFault>)
        ensures
            final(self)@ == written(old(self)@, kind, data@),
            final(self).path() == old(self).path(),
            match r {
                Ok(id) => object_id(kind, data@) == Some(id) && final(self)@.contains_key(id),
                Err(e) => object_id(kind, data@) is None && e == StoreFault::HashRefused,
            },
    {
        match hash_object(kind, data.as_slice()) {
            Some(id) => {
                self.add_object(id, kind, data);
                Ok(id)
            },
            None => Err(StoreFault::HashRefused),
        }
    }

    /// Take in an object that was fetched from elsewhere under `id`. It is
    /// stored only if its bytes have that id.
    pub fn import_object(&mut self, id: Id, kind: GitObjectKind, data: Vec<u8>) -> (r: Result<
        (),
        StoreFault,
    >)
        ensures
            final(self).path() == old(self).path(),
            match r {
                Ok(()) => {
                    &&& object_id(kind, data@) == Some(id)
                    &&& final(self)@ == written(old(self)@, kind, data@)
                },
                Err(e) => {
                    &&& final(self)@ == old(self)@
                    &&& object_id(kind, data@) != Some(id)
                    &&& e == (if object_id(kind, data@) is None {
                        StoreFault::HashRefused
                    } else {
                        StoreFault::IdMismatch
                    })
                },
            },
    {
        match hash_object(kind, data.as_slice()) {
            Some(actual) => {
                if !actual.same(&id) {
                    return Err(StoreFault::IdMismatch);
                }
                self.add_object(id, kind, data);
                Ok(())
            },
            None => Err(StoreFault::HashRefused),
        }
    }

    /// Store file content.
    pub fn write_file(&mut self, content: &[u8]) -> (r: Result<Id, StoreFault>)
        ensures
            r == blob_id(content@),
            final(self)@ == written(old(self)@, GitObjectKind::Blob, content@),
            final(self).path() == old(self).path(),
            r matches Ok(id) ==> final(self)@.contains_key(id),
    {
        self.write_object(GitObjectKind::Blob, copy_bytes(content))
    }

    /// Read file content; nothing comes back if the id is not in the store.
    pub fn read_file(&self, id: &Id) -> (r: Result<Option<Vec<u8>>, StoreFault>)
        ensures
            (match r {
                Ok(Some(data)) => Ok(Some(data@)),
                Ok(None) => Ok(None),
                Err(e) => Err(e),
            }) == file_at(self@, *id),
    {
        match self.object(id) {
            Some(o) => match o.kind {
                GitObjectKind::Blob => Ok(Some(copy_bytes(o.data.as_slice()))),
                _ => Err(StoreFault::NotABlob),
            },
            None => Ok(None),
        }
    }

    /// Read an encoded commit; nothing comes back if the id is not in the
    /// store.
    pub fn read_commit(&self, id: &Id) -> (r: Result<Option<Vec<u8>>, StoreFault>)
        ensures
            (match r {
                Ok(Some(data)) => Ok(Some(data@)),
                Ok(None) => Ok(None),
                Err(e) => Err(e),
            }) == commit_at(self@, *id),
    {
        match self.object(id) {
            Some(o) => match o.kind {
                GitObjectKind::Commit => Ok(Some(copy_bytes(o.data.as_slice()))),
                _ => Err(StoreFault::NotACommit),
            },
            None => Ok(None),
        }
    }

    /// Store a symlink target.
    pub fn write_symlink(&mut self, target: &str) -> (r: Result<Id, StoreFault>)
        ensures
            r == blob_id(encode_utf8(target@)),
            final(self)@ == written(old(self)@, GitObjectKind::Blob, encode_utf8(target@)),
            final(self).path() == old(self).path(),
            r matches Ok(id) ==> final(self)@.contains_key(id),
    {
        self.write_object(GitObjectKind::Blob, copy_bytes(target.as_bytes()))
    }

    /// Read a symlink target; nothing comes back if the id is not in the store.
    pub fn read_symlink(&self, id: &Id) -> (r: Result<Option<String>, StoreFault>)
        ensures
            (match r {
                Ok(Some(target)) => Ok(Some(target@)),
                Ok(None) => Ok(None),
                Err(e) => Err(e),
            }) == link_at(self@, *id),
    {
        match self.object(id) {
            Some(o) => match o.kind {
                GitObjectKind::Blob => match utf8_string(o.data.as_slice()) {
                    Some(s) => Ok(Some(s)),
                    None => Err(StoreFault::TargetNotUtf8),
                },
                _ => Err(StoreFault::NotABlob),
            },
            None => Ok(None),
        }
    }

    /// Store a tree. The entries may come in any order.
    pub fn write_tree(&mut self, entries: &Vec<GitTreeEntry>) -> (r: Result<Id, StoreFault>)
        ensures
            r == tree_id(tree_view(entries@)),
            final(self)@ == (if names_fit(tree_view(entries@)) {
                written(old(self)@, GitObjectKind::Tree, tree_data(tree_view(entries@)))
            } else {
                old(self)@
            }),
            final(self).path() == old(self).path(),
            r matches Ok(id) ==> final(self)@.contains_key(id),
    {
        let ordered = order_entries(entries);
        proof {
            lemma_names_fit_ordered(tree_view(entries@));
        }
        match tree_to_bytes(&ordered) {
            Some(data) => self.write_object(GitObjectKind::Tree, data),
            None => Err(StoreFault::ZeroInName),
        }
    }

    /// Read a tree; nothing comes back if the id is not in the store.
    pub fn read_tree(&self, id: &Id) -> (r: Result<Option<Vec<GitTreeEntry>>, StoreFault>)
        ensures
            (match r {
                Ok(Some(entries)) => Ok(Some(tree_view(entries@))),
                Ok(None) => Ok(None),
                Err(e) => Err(e),
            }) == tree_at(self@, *id),
    {
        if id.same(&Id(EMPTY_TREE)) {
            let none: Vec<GitTreeEntry> = Vec::new();
            assert(tree_view(none@) =~= seq![]);
            return Ok(Some(none));
        }
        match self.object(id) {
            Some(o) => match o.kind {
                GitObjectKind::Tree => match tree_from_bytes(o.data.as_slice()) {
                    Some(entries) => Ok(Some(order_by_key(&entries, false))),
                    None => Err(StoreFault::MalformedTree),
                },
                _ => Err(StoreFault::NotATree),
            },
            None => Ok(None),
        }
    }
}

/// Ordering entries does not change whether their names fit.
pub proof fn lemma_names_fit_ordered(entries: Seq<EntryView>)
    ensures
        names_fit(tree_order(entries)) == names_fit(entries),
{
    let ordered = tree_order(entries);
    if names_fit(entries) {
        assert forall|i: int| 0 <= i < ordered.len()
            implies name_fits(#[trigger] ordered[i].name) by {
            key_order_contains(entries, true, ordered[i]);
            assert(ordered.contains(ordered[i]));
            let j = choose|j: int| 0 <= j < entries.len() && entries[j] == ordered[i];
            assert(name_fits(entries[j].name));
        }
    }
    if names_fit(ordered) {
        assert forall|i: int| 0 <= i < entries.len()
            implies name_fits(#[trigger] entries[i].name) by {
            key_order_contains(entries, true, entries[i]);
            assert(entries.contains(entries[i]));
            let j = choose|j: int| 0 <= j < ordered.len() && ordered[j] == entries[i];
            assert(name_fits(ordered[j].name));
        }
    }
}

/// What is written can be read back: after a blob was stored, reading its id
/// gives the content, unless another object had the id before.
pub proof fn file_round_trip(objects: Objects, content: Seq<u8>, id: Id)
    requires
        blob_id(content) == Ok::<Id, StoreFault>(id),
        objects.contains_key(id) ==> objects[id] == (ObjectView {
            kind: GitObjectKind::Blob,
            data: content,
        }),
    ensures
        file_at(written(objects, GitObjectKind::Blob, content), id) == Ok::<
            Option<Seq<u8>>,
            StoreFault,
        >(Some(content)),
{
}

/// After a symlink was stored, reading its id gives the target, unless another
/// object had the id before.
pub proof fn symlink_round_trip(objects: Objects, target: Seq<char>, id: Id)
    requires
        blob_id(encode_utf8(target)) == Ok::<Id, StoreFault>(id),
        objects.contains_key(id) ==> objects[id] == (ObjectView {
            kind: GitObjectKind::Blob,
            data: encode_utf8(target),
        }),
    ensures
        link_at(written(objects, GitObjectKind::Blob, encode_utf8(target)), id) == Ok::<
            Option<Seq<char>>,
            StoreFault,
        >(Some(target)),
{
    encode_utf8_valid_utf8(target);
    encode_utf8_decode_utf8(target);
}

/// After a tree was stored, reading its id gives its entries by their names,
/// unless another object had the id before.
pub proof fn tree_round_trip(objects: Objects, entries: Seq<EntryView>, id: Id)
    requires
        tree_id(entries) == Ok::<Id, StoreFault>(id),
        objects.contains_key(id) ==> objects[id] == (ObjectView {
            kind: GitObjectKind::Tree,
            data: tree_data(entries),
        }),
        id == Id(EMPTY_TREE) ==> entries.len() == 0,
    ensures
        tree_at(written(objects, GitObjectKind::Tree, tree_data(entries)), id) == Ok::<
            Option<Seq<EntryView>>,
            StoreFault,
        >(Some(read_order(entries))),
{
    lemma_names_fit_ordered(entries);
    parse_encoded_tree(tree_order(entries));
    if entries.len() == 0 {
        assert(tree_order(entries) =~= seq![]);
        assert(read_order(entries) =~= seq![]);
    }
}

/// Writing never changes or drops an object that is there.
pub proof fn written_keeps(objects: Objects, kind: GitObjectKind, data: Seq<u8>, id: Id)
    requires
        objects.contains_key(id),
    ensures
        written(objects, kind, data).contains_key(id),
        written(objects, kind, data)[id] == objects[id],
{
}

} // verus!
