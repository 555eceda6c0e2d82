//! What the objects of a git repository look like, and in what order the entries of a
//! tree stand.
use vstd::prelude::*;
use vstd::utf8::{
    decode_utf8, decode_utf8_encode_utf8, encode_utf8, encode_utf8_decode_utf8,
    encode_utf8_valid_utf8, valid_utf8,
};
use crate::git_store::{
    commit_at, encode_entry, encode_tree, file_at, git_object_id, id_of, id_of_bytes, key_order,
    kind_of_mode, lemma_space_from, lemma_zero_from, link_at, mode_end, name_fits, name_order, names_fit,
    object_id, octal, octal_value, order_key, parse_entry, parse_mode, parse_tree, read_order,
    space_from, tree_at, tree_data, tree_id, tree_order, with_entry, written, zero_from, EntryView,
    GitEntryKind, GitObjectKind, Objects, StoreFault, EMPTY_TREE,
};
use crate::text::bytes_lt;
use crate::ty::{id_ext, Id};

verus! {

// ---- order -----------------------------------------------------------------

/// No entry stands behind one that it belongs before.
pub open spec fn in_order(entries: Seq<EntryView>, slashes: bool) -> bool {
    forall|i: int, j: int|
        0 <= i < j < entries.len() ==> !bytes_lt(
            order_key(#[trigger] entries[j], slashes),
            order_key(#[trigger] entries[i], slashes),
        )
}

proof fn lemma_not_below(a: Seq<u8>, b: Seq<u8>, c: Seq<u8>)
    requires
        !bytes_lt(b, a),
        !bytes_lt(c, b),
    ensures
        !bytes_lt(c, a),
{
    crate::text::bytes_lt_total(a, b);
    crate::text::bytes_lt_total(b, c);
    if bytes_lt(c, a) {
        if a != b {
            crate::text::bytes_lt_transitive(c, a, b);
        }
    }
}

proof fn lemma_with_entry_in_order(entries: Seq<EntryView>, e: EntryView, slashes: bool)
    requires
        in_order(entries, slashes),
    ensures
        in_order(with_entry(entries, e, slashes), slashes),
        with_entry(entries, e, slashes).to_multiset() == entries.to_multiset().insert(e),
    decreases entries.len(),
{
    broadcast use vstd::seq_lib::group_to_multiset_ensures;
    let all = with_entry(entries, e, slashes);
    if entries.len() == 0 {
        assert(entries =~= Seq::<EntryView>::empty());
        assert(all =~= entries.push(e));
    } else if bytes_lt(order_key(e, slashes), order_key(entries.last(), slashes)) {
        let front = entries.drop_last();
        let last = entries.last();
        lemma_with_entry_in_order(front, e, slashes);
        let before = with_entry(front, e, slashes);
        assert(entries =~= front.push(last));
        assert forall|i: int| 0 <= i < before.len() implies !bytes_lt(
            order_key(last, slashes),
            order_key(#[trigger] before[i], slashes),
        ) by {
            crate::git_store::with_entry_contains(front, e, slashes, before[i]);
            assert(before.contains(before[i]));
            if before[i] == e {
                if bytes_lt(order_key(last, slashes), order_key(e, slashes)) {
                    crate::text::bytes_lt_transitive(
                        order_key(e, slashes),
                        order_key(last, slashes),
                        order_key(e, slashes),
                    );
                    crate::text::bytes_lt_irreflexive(order_key(e, slashes));
                }
            } else {
                let k = choose|k: int| 0 <= k < front.len() && front[k] == before[i];
                assert(entries[k] == before[i]);
                assert(entries[entries.len() - 1] == last);
            }
        }
        assert(all == before.push(last));
    } else {
        assert(all == entries.push(e));
        assert forall|i: int| 0 <= i < entries.len() implies !bytes_lt(
            order_key(e, slashes),
            order_key(#[trigger] entries[i], slashes),
        ) by {
            let last = entries.last();
            if i < entries.len() - 1 {
                assert(entries[entries.len() - 1] == last);
                lemma_not_below(
                    order_key(entries[i], slashes),
                    order_key(last, slashes),
                    order_key(e, slashes),
                );
            }
        }
    }
}

/// Putting entries in order keeps each as often as it was there, and leaves none behind
/// one that it belongs before.
pub proof fn ordering_sorts(entries: Seq<EntryView>, slashes: bool)
    ensures
        in_order(key_order(entries, slashes), slashes),
        key_order(entries, slashes).to_multiset() == entries.to_multiset(),
    decreases entries.len(),
{
    broadcast use vstd::seq_lib::group_to_multiset_ensures;
    if entries.len() == 0 {
        assert(entries =~= Seq::<EntryView>::empty());
    } else {
        let front = entries.drop_last();
        ordering_sorts(front, slashes);
        lemma_with_entry_in_order(key_order(front, slashes), entries.last(), slashes);
        assert(entries =~= front.push(entries.last()));
    }
}

/// The entries of a tree are ordered by their names, where a directory counts as if a
/// slash stood behind its name; the entries that are read are ordered by the names
/// alone.
pub proof fn trees_are_in_order(entries: Seq<EntryView>)
    ensures
        tree_order(entries).to_multiset() == entries.to_multiset(),
        forall|i: int, j: int|
            0 <= i < j < entries.len() ==> {
                let a = #[trigger] tree_order(entries)[i];
                let b = #[trigger] tree_order(entries)[j];
                let above = if a.kind is Tree {
                    encode_utf8(a.name).push(47u8)
                } else {
                    encode_utf8(a.name)
                };
                let below = if b.kind is Tree {
                    encode_utf8(b.name).push(47u8)
                } else {
                    encode_utf8(b.name)
                };
                !bytes_lt(below, above)
            },
        name_order(entries).to_multiset() == entries.to_multiset(),
        read_order(entries).to_multiset() == entries.to_multiset(),
        forall|i: int, j: int|
            0 <= i < j < entries.len() ==> !bytes_lt(
                encode_utf8((#[trigger] name_order(entries)[j]).name),
                encode_utf8((#[trigger] name_order(entries)[i]).name),
            ),
        forall|i: int, j: int|
            0 <= i < j < entries.len() ==> !bytes_lt(
                encode_utf8((#[trigger] read_order(entries)[j]).name),
                encode_utf8((#[trigger] read_order(entries)[i]).name),
            ),
{
    broadcast use vstd::seq_lib::group_to_multiset_ensures;
    ordering_sorts(entries, true);
    ordering_sorts(entries, false);
    ordering_sorts(tree_order(entries), false);
    assert(tree_order(entries).len() == entries.to_multiset().len());
    assert(name_order(entries).len() == entries.to_multiset().len());
    assert(read_order(entries).len() == entries.to_multiset().len());
}

// ---- bytes -----------------------------------------------------------------

/// The octal mode of a kind of entry, in digits.
pub open spec fn mode_digits(kind: GitEntryKind) -> Seq<u8> {
    match kind {
        GitEntryKind::File { executable: false } => seq![49u8, 48u8, 48u8, 54u8, 52u8, 52u8],
        GitEntryKind::File { executable: true } => seq![49u8, 48u8, 48u8, 55u8, 53u8, 53u8],
        GitEntryKind::Tree => seq![52u8, 48u8, 48u8, 48u8, 48u8],
        GitEntryKind::Symlink => seq![49u8, 50u8, 48u8, 48u8, 48u8, 48u8],
        GitEntryKind::Submodule => seq![49u8, 54u8, 48u8, 48u8, 48u8, 48u8],
    }
}

/// An entry stands in a tree as its mode, a space, its name, a zero byte and its id;
/// the entries of a tree follow one another.
pub proof fn entries_stand_one_after_another(e: EntryView, rest: Seq<EntryView>)
    ensures
        encode_entry(e) == mode_digits(e.kind) + seq![32u8] + encode_utf8(e.name) + seq![0u8]
            + e.id@,
        encode_tree(seq![e] + rest) == encode_entry(e) + encode_tree(rest),
        encode_tree(Seq::<EntryView>::empty()) == Seq::<u8>::empty(),
{
    assert(encode_entry(e) =~= mode_digits(e.kind) + seq![32u8] + encode_utf8(e.name) + seq![0u8]
        + e.id@);
    let all = seq![e] + rest;
    assert(all.drop_first() =~= rest);
    assert(all[0] == e);
}

/// A name can stand in a tree if no byte of it is zero.
pub proof fn names_without_zero_fit(entries: Seq<EntryView>, name: Seq<char>)
    ensures
        name_fits(name) <==> forall|i: int|
            0 <= i < encode_utf8(name).len() ==> #[trigger] encode_utf8(name)[i] != 0u8,
        names_fit(entries) <==> forall|i: int|
            0 <= i < entries.len() ==> name_fits(#[trigger] entries[i].name),
{
    let b = encode_utf8(name);
    if name_fits(name) {
        assert forall|i: int| 0 <= i < b.len() implies #[trigger] b[i] != 0u8 by {
            assert(b.contains(b[i]));
        }
    }
}

/// The number that octal digits write.
pub proof fn octal_digits_write_a_number(front: Seq<u8>, digit: u8)
    ensures
        octal_value(Seq::<u8>::empty()) == 0,
        octal_value(front.push(digit)) == 8 * octal_value(front) + (digit - 48),
        octal(front) <==> forall|i: int| 0 <= i < front.len() ==> 48 <= #[trigger] front[i] < 56,
{
    assert(front.push(digit).drop_last() =~= front);
}

/// The kinds of modes: by their upper bits a file, a symlink or a directory, and a
/// submodule else. Of the others only the right of the owner to execute counts, and only
/// for a file.
pub proof fn modes_have_their_kinds(upper: int, lower: int)
    requires
        0 <= upper < 16,
        0 <= lower < 4096,
    ensures
        upper == 8 ==> (kind_of_mode(upper * 4096 + lower) matches GitEntryKind::File { executable }
            && executable == ((lower / 64) % 2 == 1)),
        upper == 10 ==> kind_of_mode(upper * 4096 + lower) is Symlink,
        upper == 4 || upper == 12 ==> kind_of_mode(upper * 4096 + lower) is Tree,
        upper != 8 && upper != 10 && upper != 4 && upper != 12 ==> kind_of_mode(
            upper * 4096 + lower,
        ) is Submodule,
{
    let mode = upper * 4096 + lower;
    assert(mode / 4096 == upper);
    assert((mode / 64) % 2 == (lower / 64) % 2);
}

/// What stands at the front of a tree: an octal mode, a space, a name, a zero byte and
/// an id.
pub open spec fn begins_with(b: Seq<u8>, mode: Seq<u8>, name: Seq<u8>, id: Seq<u8>) -> bool {
    let front = mode + seq![32u8] + name + seq![0u8] + id;
    front.len() <= b.len() && b.take(front.len() as int) == front
}

/// An entry that is read stands at the front of the bytes, and its kind is that of the
/// mode there.
pub proof fn read_entry_stands_there(b: Seq<u8>)
    ensures
        parse_entry(b) matches Some((e, next)) ==> exists|mode: Seq<u8>| #[trigger]
            begins_with(b, mode, encode_utf8(e.name), e.id@) && octal(mode) && mode.len() <= 7
                && e.kind == kind_of_mode(octal_value(mode) % 65536) && name_fits(e.name) && next
                == mode.len() + 1 + encode_utf8(e.name).len() + 1 + 20,
{
    if let Some((e, next)) = parse_entry(b) {
        let found = parse_mode(b)->Some_0;
        let start = found.1;
        let n = start - 1;
        lemma_space_from(b, 0);
        let mode = b.take(n);
        lemma_zero_from(b, start);
        let end = zero_from(b, start)->Some_0;
        let name = b.subrange(start, end);
        decode_utf8_encode_utf8(name);
        assert(encode_utf8(e.name) == name);
        id_of_bytes(b.subrange(end + 1, end + 21));
        assert(e.id@ == b.subrange(end + 1, end + 21));
        let front = mode + seq![32u8] + name + seq![0u8] + e.id@;
        assert(b[n] == 32);
        assert(b[end] == 0);
        assert(b.take(front.len() as int) =~= front);
        assert(begins_with(b, mode, encode_utf8(e.name), e.id@));
        assert(!name.contains(0u8)) by {
            if name.contains(0u8) {
                let i = choose|i: int| 0 <= i < name.len() && name[i] == 0u8;
                assert(b[start + i] == 0);
            }
        }
    }
}

/// An entry at the front of the bytes is read, whatever follows: its mode has at most
/// seven octal digits. A mode of less than five is told apart by its space only where no
/// space stands at the place of that of a mode of six.
pub proof fn standing_entry_is_read(mode: Seq<u8>, name: Seq<char>, id: Id, rest: Seq<u8>)
    requires
        octal(mode),
        mode.len() <= 7,
        mode.len() < 5 ==> ({
            let b = mode + seq![32u8] + encode_utf8(name) + seq![0u8] + id@ + rest;
            b[5] == 32u8 || b[6] != 32u8
        }),
        name_fits(name),
    ensures
        parse_entry(mode + seq![32u8] + encode_utf8(name) + seq![0u8] + id@ + rest) == Some(
            (
                EntryView { name, kind: kind_of_mode(octal_value(mode) % 65536), id },
                mode.len() as int + 1 + encode_utf8(name).len() + 1 + 20,
            ),
        ),
{
    let text = encode_utf8(name);
    let b = mode + seq![32u8] + text + seq![0u8] + id@ + rest;
    let n = mode.len() as int;
    let start = n + 1;
    let end = start + text.len();
    assert forall|i: int| 0 <= i < n implies #[trigger] b[i] == mode[i] by {}
    assert(b[n] == 32);
    lemma_space_from(b, 0);
    assert(space_from(b, 0) == Some(n)) by {
        assert(space_from(b, 0) is Some);
        let k = space_from(b, 0)->Some_0;
        if k < n {
            assert(b[k] == mode[k]);
        }
    }
    if n == 5 {
        assert(b[5] == 32);
    } else if n > 5 {
        assert(b[5] == mode[5]);
        if n == 7 {
            assert(b[6] == mode[6]);
        }
    }
    assert(mode_end(b) == Some(n));
    assert(b.take(n) =~= mode);
    lemma_zero_from(b, start);
    assert(b[end] == 0);
    assert forall|i: int| start <= i < end implies b[i] != 0 by {
        assert(b[i] == text[i - start]);
        assert(text.contains(text[i - start]));
    }
    assert(zero_from(b, start) == Some(end));
    assert(b.subrange(start, end) =~= text);
    encode_utf8_valid_utf8(name);
    encode_utf8_decode_utf8(name);
    assert(b.subrange(end + 1, end + 21) =~= id@);
    id_of_bytes(id@);
    id_ext(id_of(id@), id);
}

/// A tree is read entry by entry, to the end of the bytes.
pub proof fn trees_are_read_entry_by_entry(b: Seq<u8>)
    ensures
        parse_tree(Seq::<u8>::empty()) == Some(Seq::<EntryView>::empty()),
        b.len() > 0 && parse_entry(b) is None ==> parse_tree(b) is None,
        b.len() > 0 ==> (parse_entry(b) matches Some((e, next)) ==> match parse_tree(b.skip(next)) {
            Some(rest) => parse_tree(b) == Some(seq![e] + rest),
            None => parse_tree(b) is None,
        }),
{
}

// ---- objects ---------------------------------------------------------------

/// An object is stored under the id that its kind and its bytes have.
pub proof fn objects_have_the_id_of_their_bytes(kind: GitObjectKind, data: Seq<u8>, id: Id)
    ensures
        git_object_id(kind, data) == Some(id@) ==> object_id(kind, data) == Some(id),
        git_object_id(kind, data) is None <==> object_id(kind, data) is None,
{
    if git_object_id(kind, data) == Some(id@) {
        id_of_bytes(id@);
        id_ext(id_of(id@), id);
    }
}

/// A blob is written under the id of its bytes, a tree under that of its entries one
/// after the other, in the order of a git tree.
pub proof fn written_ids_are_those_of_the_bytes(data: Seq<u8>, entries: Seq<EntryView>, id: Id)
    ensures
        crate::git_store::blob_id(data) == Ok::<Id, StoreFault>(id) <==> object_id(
            GitObjectKind::Blob,
            data,
        ) == Some(id),
        tree_id(entries) == Ok::<Id, StoreFault>(id) <==> names_fit(entries) && object_id(
            GitObjectKind::Tree,
            encode_tree(tree_order(entries)),
        ) == Some(id),
        tree_id(entries) == Err::<Id, StoreFault>(StoreFault::ZeroInName) <==> !names_fit(entries),
        tree_data(entries) == encode_tree(tree_order(entries)),
{
}

/// The id of the empty tree is that of a git tree without entries.
pub proof fn empty_tree_has_its_id()
    ensures
        EMPTY_TREE@ == seq![
            0x4bu8,
            0x82u8,
            0x5du8,
            0xc6u8,
            0x42u8,
            0xcbu8,
            0x6eu8,
            0xb9u8,
            0xa0u8,
            0x60u8,
            0xe5u8,
            0x4bu8,
            0xf8u8,
            0xd6u8,
            0x92u8,
            0x88u8,
            0xfbu8,
            0xeeu8,
            0x49u8,
            0x04u8,
        ],
{
    assert(EMPTY_TREE@ =~= seq![
        0x4bu8,
        0x82u8,
        0x5du8,
        0xc6u8,
        0x42u8,
        0xcbu8,
        0x6eu8,
        0xb9u8,
        0xa0u8,
        0x60u8,
        0xe5u8,
        0x4bu8,
        0xf8u8,
        0xd6u8,
        0x92u8,
        0x88u8,
        0xfbu8,
        0xeeu8,
        0x49u8,
        0x04u8,
    ]);
}

/// Writing adds the object under its id, if nothing stands there, and nothing else.
pub proof fn writing_adds_one_object(
    objects: Objects,
    kind: GitObjectKind,
    data: Seq<u8>,
    id: Id,
    other: Id,
)
    requires
        object_id(kind, data) == Some(id),
    ensures
        written(objects, kind, data).contains_key(id),
        !objects.contains_key(id) ==> written(objects, kind, data)[id].kind == kind && written(
            objects,
            kind,
            data,
        )[id].data == data,
        objects.contains_key(id) ==> written(objects, kind, data) == objects,
        other != id ==> (written(objects, kind, data).contains_key(other) <==> objects.contains_key(
            other,
        )),
        other != id && objects.contains_key(other) ==> written(objects, kind, data)[other]
            == objects[other],
{
}

/// What a read gives is what stands under the id: nothing where nothing stands there,
/// and a fault where an object of another kind does.
pub proof fn reads_give_what_stands_there(objects: Objects, id: Id)
    ensures
        !objects.contains_key(id) ==> {
            &&& file_at(objects, id) == Ok::<Option<Seq<u8>>, StoreFault>(None)
            &&& link_at(objects, id) == Ok::<Option<Seq<char>>, StoreFault>(None)
            &&& commit_at(objects, id) == Ok::<Option<Seq<u8>>, StoreFault>(None)
            &&& id@ != EMPTY_TREE@ ==> tree_at(objects, id) == Ok::<
                Option<Seq<EntryView>>,
                StoreFault,
            >(None)
        },
        objects.contains_key(id) ==> match objects[id].kind {
            GitObjectKind::Blob => {
                &&& file_at(objects, id) == Ok::<Option<Seq<u8>>, StoreFault>(
                    Some(objects[id].data),
                )
                &&& commit_at(objects, id) is Err
                &&& id@ != EMPTY_TREE@ ==> tree_at(objects, id) is Err
                &&& valid_utf8(objects[id].data) ==> link_at(objects, id) == Ok::<
                    Option<Seq<char>>,
                    StoreFault,
                >(Some(decode_utf8(objects[id].data)))
                &&& !valid_utf8(objects[id].data) ==> link_at(objects, id) is Err
            },
            GitObjectKind::Tree => {
                &&& file_at(objects, id) is Err
                &&& link_at(objects, id) is Err
                &&& commit_at(objects, id) is Err
            },
            GitObjectKind::Commit => {
                &&& commit_at(objects, id) == Ok::<Option<Seq<u8>>, StoreFault>(
                    Some(objects[id].data),
                )
                &&& file_at(objects, id) is Err
                &&& link_at(objects, id) is Err
                &&& id@ != EMPTY_TREE@ ==> tree_at(objects, id) is Err
            },
        },
{
    id_ext(id, Id(EMPTY_TREE));
}

/// The tree that is read holds the entries of the bytes under the id, by their names.
/// The empty tree is there always.
pub proof fn read_tree_holds_the_entries(objects: Objects, id: Id)
    ensures
        id@ == EMPTY_TREE@ ==> (tree_at(objects, id) matches Ok(Some(entries)) && entries.len()
            == 0),
        id@ != EMPTY_TREE@ && objects.contains_key(id) && objects[id].kind is Tree ==> (match parse_tree(
            objects[id].data,
        ) {
            Some(stored) => (tree_at(objects, id) matches Ok(Some(entries)) && entries.to_multiset()
                == stored.to_multiset() && in_order(entries, false)),
            None => tree_at(objects, id) is Err,
        }),
{
    id_ext(id, Id(EMPTY_TREE));
    if objects.contains_key(id) {
        if let Some(stored) = parse_tree(objects[id].data) {
            ordering_sorts(stored, false);
        }
    }
}

} // verus!
