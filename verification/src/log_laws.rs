//! What a database and the logs in it hold, and which blobs are taken.
use vstd::prelude::*;
use vstd::utf8::{encode_utf8, encode_utf8_decode_utf8, encode_utf8_valid_utf8, valid_utf8};
use crate::op_blobs::{
    blob_problem, id_problem, resolved, resolved_all, BookmarkValue, OpStoreBlobKind, RefTargetView,
    RefValueView, Rehashed, ViewBookmarkView,
};
use crate::store::{
    all_tables, atomic, has_hex_prefix, named, no_rows, no_tables, operation_ids, ref_value, resolves, row,
    swapped, CasView, Contents, PrefixView, Rows,
};
use crate::text::{decimal, hex};

verus! {

// ---- rows ------------------------------------------------------------------

/// A row is what stands under its table and its key; the value of a ref stands under
/// the ref's name, and the ids of operations are the keys of their table.
pub proof fn rows_stand_under_their_keys(
    db: Rows,
    table: Seq<char>,
    key: Seq<u8>,
    name: Seq<char>,
    bytes: Seq<u8>,
)
    ensures
        row(db, table, key) == Some(bytes) <==> db.contains_pair((table, key), bytes),
        row(db, table, key) is None <==> !db.contains_key((table, key)),
        ref_value(db, name) == Some(bytes) <==> db.contains_pair(
            ("refs_v1"@, encode_utf8(name)),
            bytes,
        ),
        ref_value(db, name) is None <==> !db.contains_key(("refs_v1"@, encode_utf8(name))),
        operation_ids(db).contains(key) <==> db.contains_key(("operations_v1"@, key)),
{
}

/// A change of a database is there as a whole or not at all, and one that succeeds is
/// there. A row that is put in or taken out makes its table and touches no other row.
pub proof fn changes_are_made_as_a_whole(
    before: Contents,
    table: Seq<char>,
    fixed: bool,
    key: Seq<u8>,
    bytes: Seq<u8>,
    after: Contents,
    ok: bool,
    other_table: Seq<char>,
    other: Seq<u8>,
)
    ensures
        atomic(before, before.with_row(table, fixed, key, bytes), after, ok) ==> {
            &&& ok ==> row(after.rows, table, key) == Some(bytes) && after.tables.contains(
                (table, fixed),
            )
            &&& row(after.rows, table, key) == Some(bytes) || after == before
            &&& (other_table, other) != (table, key) ==> row(after.rows, other_table, other) == row(
                before.rows,
                other_table,
                other,
            )
        },
        atomic(before, before.without_row(table, fixed, key), after, ok) ==> {
            &&& ok ==> row(after.rows, table, key) is None && after.tables.contains((table, fixed))
            &&& row(after.rows, table, key) is None || after == before
            &&& (other_table, other) != (table, key) ==> row(after.rows, other_table, other) == row(
                before.rows,
                other_table,
                other,
            )
        },
        before.with_table(table, fixed).rows == before.rows,
        before.with_table(table, fixed).tables.contains((table, fixed)),
{
}

/// A store has seven tables: those of objects have keys of fixed length, those of the
/// logs and of the refs do not.
pub proof fn stores_have_seven_tables(table: Seq<char>, fixed: bool)
    ensures
        all_tables().contains((table, fixed)) <==> if fixed {
            table == "commits_v1"@ || table == "files_v1"@ || table == "symlinks_v1"@ || table
                == "trees_v1"@
        } else {
            table == "views_v1"@ || table == "operations_v1"@ || table == "refs_v1"@
        },
        !no_tables().contains((table, fixed)),
        no_rows() == Map::<(Seq<char>, Seq<u8>), Seq<u8>>::empty(),
{
}

/// The names of refs are those that their keys encode, in their order; a key that is no
/// text names none.
pub proof fn keys_name_their_refs(front: Seq<Seq<u8>>, key: Seq<u8>, name: Seq<char>)
    ensures
        named(Seq::<Seq<u8>>::empty()).len() == 0,
        key == encode_utf8(name) ==> named(front.push(key)) == named(front).push(name),
        !valid_utf8(key) ==> named(front.push(key)) == named(front),
{
    assert(front.push(key).drop_last() =~= front);
    encode_utf8_valid_utf8(name);
    encode_utf8_decode_utf8(name);
}

/// A swap is made only of a ref that has the expected value; one that is not made tells
/// the value and changes nothing.
pub proof fn swaps_are_made_from_the_expected_value(
    db: Rows,
    name: Seq<char>,
    expected: Option<Seq<u8>>,
    new: Option<Seq<u8>>,
    table: Seq<char>,
    key: Seq<u8>,
)
    ensures
        ({
            let (after, outcome) = swapped(db, name, expected, new);
            &&& outcome == CasView::Updated <==> ref_value(db, name) == expected
            &&& ref_value(db, name) != expected ==> outcome == CasView::Conflict(
                ref_value(db, name),
            ) && after == db
            &&& ref_value(db, name) == expected ==> ref_value(after, name) == new
            &&& (table, key) != ("refs_v1"@, encode_utf8(name)) ==> row(after, table, key) == row(
                db,
                table,
                key,
            )
        }),
{
}

/// The id has a hexadecimal form that begins with these digits.
pub open spec fn written_from(id: Seq<u8>, prefix: Seq<char>, rest: Seq<char>) -> bool {
    hex(id) == prefix + rest
}

proof fn lemma_hex_prefix(id: Seq<u8>, prefix: Seq<char>)
    ensures
        has_hex_prefix(id, prefix) <==> exists|rest: Seq<char>| #[trigger]
            written_from(id, prefix, rest),
{
    let n = prefix.len() as int;
    if has_hex_prefix(id, prefix) {
        assert(hex(id) =~= prefix + hex(id).skip(n));
        assert(written_from(id, prefix, hex(id).skip(n)));
    }
    if exists|rest: Seq<char>| #[trigger] written_from(id, prefix, rest) {
        let rest = choose|rest: Seq<char>| #[trigger] written_from(id, prefix, rest);
        assert(hex(id).take(n) =~= prefix);
    }
}

/// A prefix stands for an id if the id's digits begin with it and those of no other id
/// do. It stands for nothing if no id's digits begin with it, and is ambiguous if those
/// of two ids do.
pub proof fn prefix_stands_for_the_only_id(
    ids: Set<Seq<u8>>,
    prefix: Seq<char>,
    r: PrefixView,
    id: Seq<u8>,
    rest: Seq<char>,
    other: Seq<u8>,
    other_rest: Seq<char>,
)
    requires
        resolves(ids, prefix, r),
    ensures
        ids.contains(id) && hex(id) == prefix + rest ==> r == PrefixView::Single(id) || r
            == PrefixView::Ambiguous,
        ids.contains(id) && hex(id) == prefix + rest && ids.contains(other) && hex(other) == prefix
            + other_rest && id != other ==> r == PrefixView::Ambiguous,
        r == PrefixView::Single(id) ==> ids.contains(id) && hex(id) == prefix + hex(id).skip(
            prefix.len() as int,
        ),
        r == PrefixView::Ambiguous ==> exists|a: Seq<u8>, b: Seq<u8>|
            a != b && #[trigger] ids.contains(a) && #[trigger] ids.contains(b) && hex(a) == prefix
                + hex(a).skip(prefix.len() as int) && hex(b) == prefix + hex(b).skip(
                prefix.len() as int,
            ),
{
    let n = prefix.len() as int;
    if hex(id) == prefix + rest {
        assert(written_from(id, prefix, rest));
        lemma_hex_prefix(id, prefix);
    }
    if hex(other) == prefix + other_rest {
        assert(written_from(other, prefix, other_rest));
        lemma_hex_prefix(other, prefix);
    }
    if r == PrefixView::Single(id) {
        assert(hex(id) =~= prefix + hex(id).skip(n));
    }
    if r == PrefixView::Ambiguous {
        let (a, b) = choose|a: Seq<u8>, b: Seq<u8>|
            a != b && #[trigger] ids.contains(a) && #[trigger] ids.contains(b) && has_hex_prefix(
                a,
                prefix,
            ) && has_hex_prefix(b, prefix);
        assert(ids.contains(a) && ids.contains(b));
        assert(hex(a) =~= prefix + hex(a).skip(n));
        assert(hex(b) =~= prefix + hex(b).skip(n));
    }
}

// ---- blobs of the operation log --------------------------------------------

/// A blob of the operation log is taken only under an id of 64 bytes, not all of them
/// zero, that is the one which its content has.
pub proof fn only_blobs_under_their_own_id_are_taken(
    kind: OpStoreBlobKind,
    id: Seq<u8>,
    found: Rehashed,
)
    ensures
        blob_problem(kind, id, found) is None <==> {
            &&& id.len() == 64
            &&& exists|i: int| 0 <= i < id.len() && #[trigger] id[i] != 0u8
            &&& found matches Rehashed::Canonical(actual) && actual@ == id
        },
        id_problem(kind, id) is None <==> id.len() == 64 && exists|i: int|
            0 <= i < id.len() && #[trigger] id[i] != 0u8,
{
}

/// What is said of a blob that is not taken: first what is wrong with its id, then what
/// is wrong with its content, with the kind of the blob in words.
pub proof fn refused_blobs_are_told(kind: OpStoreBlobKind, id: Seq<u8>, found: Rehashed)
    ensures
        ({
            let what = if kind is View {
                "view"@
            } else {
                "operation"@
            };
            let good = id.len() == 64 && exists|i: int| 0 <= i < id.len() && #[trigger] id[i] != 0u8;
            &&& id.len() != 64 ==> blob_problem(kind, id, found) == Some(
                what + " id must be 64 bytes, got "@ + decimal(id.len()),
            )
            &&& id.len() == 64 && !good ==> blob_problem(kind, id, found) == Some(
                what + " id is the reserved all-zero root id and must not be stored"@,
            )
            &&& good ==> (found matches Rehashed::Canonical(actual) ==> (actual@ != id
                ==> blob_problem(kind, id, found) == Some(
                what + " id/bytes mismatch: requested "@ + hex(id) + " but canonical id is "@ + hex(
                    actual@,
                ),
            )))
            &&& !good ==> blob_problem(kind, id, found) == id_problem(kind, id)
            &&& good ==> match found {
                Rehashed::NoScratch(cause) => blob_problem(kind, id, found) == Some(
                    "creating temp op-store scratch dir: "@ + cause@,
                ),
                Rehashed::NoStore(cause) => blob_problem(kind, id, found) == Some(
                    "initializing temp "@ + what + " store: "@ + cause@,
                ),
                Rehashed::NotWritten(cause) => blob_problem(kind, id, found) == Some(
                    "writing temp "@ + what + " blob: "@ + cause@,
                ),
                Rehashed::NotDecoded(cause) => blob_problem(kind, id, found) == Some(
                    "decoding "@ + what + " blob: "@ + cause@,
                ),
                Rehashed::NotHashed(cause) => blob_problem(kind, id, found) == Some(
                    "rehashing "@ + what + " blob: "@ + cause@,
                ),
                Rehashed::Canonical(actual) => actual@ == id || blob_problem(kind, id, found)
                    is Some,
            }
        }),
{
    if id.len() == 64 && !crate::op_blobs::all_zero(id) {
        let i = choose|i: int| 0 <= i < id.len() && #[trigger] id[i] != 0u8;
        assert(id[i] != 0u8);
    }
}

/// A target is a commit only if one value is added and none is removed.
pub proof fn plain_targets_are_resolved(target: RefTargetView, id: Seq<u8>)
    ensures
        resolved(target) == Some(id) <==> (target.value matches Some(
            RefValueView::Conflict { removes, adds },
        ) && removes.len() == 0 && adds.len() == 1 && adds[0] == Some(id)),
{
}

/// The bookmarks of a view are those whose local target is a commit, in their order.
pub proof fn resolved_bookmarks_keep_their_order(
    front: Seq<ViewBookmarkView>,
    last: ViewBookmarkView,
)
    ensures
        resolved_all(Seq::<ViewBookmarkView>::empty()) == Seq::<BookmarkValue>::empty(),
        last.local_target is None ==> resolved_all(front.push(last)) == resolved_all(front),
        last.local_target matches Some(target) ==> match resolved(target) {
            Some(id) => resolved_all(front.push(last)) == resolved_all(front).push((last.name, id)),
            None => resolved_all(front.push(last)) == resolved_all(front),
        },
{
    assert(front.push(last).drop_last() =~= front);
}

} // verus!
