//! The per-mount database: tables of encoded blobs by id.
//!
//! Trees, files, symlinks and commits have fixed-length ids; views and
//! operations, which the daemon stores without looking inside, have ids of any
//! length.
use redb::{Database, ReadableDatabase, ReadableTable, TableDefinition};
use vstd::prelude::*;
use vstd::utf8::{
    decode_utf8, decode_utf8_encode_utf8, encode_utf8, encode_utf8_decode_utf8,
    encode_utf8_valid_utf8, valid_utf8,
};
use crate::git_store::utf8_string;
use crate::remote::CasOutcome;
use crate::status::{status_in, Code, Status};
use crate::text::{hex, hex_encode, same_bytes};

verus! {

broadcast use vstd::string::group_string_axioms;

/// The database behind a [`Store`].
#[verifier::external_type_specification]
#[verifier::external_body]
pub struct DatabaseType(redb::Database);

/// What the database fails with.
#[verifier::external_type_specification]
#[verifier::external_body]
pub struct DatabaseErrorType(redb::Error);

/// A row is found by the name of its table and its key.
pub type Rows = Map<(Seq<char>, Seq<u8>), Seq<u8>>;

/// The committed rows of a database.
pub uninterp spec fn rows(db: redb::Database) -> Map<(Seq<char>, Seq<u8>), Seq<u8>>;

/// The committed tables of a database whose values are bytes: each by its name,
/// and whether its keys are of 32 bytes (else they are of any length).
pub uninterp spec fn tables(db: redb::Database) -> Set<(Seq<char>, bool)>;

/// What a database holds.
#[verifier::ext_equal]
pub struct Contents {
    pub rows: Rows,
    pub tables: Set<(Seq<char>, bool)>,
}

impl Contents {
    /// The contents with a table, which may be there already.
    pub open spec fn with_table(self, table: Seq<char>, fixed: bool) -> Contents {
        Contents { tables: self.tables.insert((table, fixed)), ..self }
    }

    /// The contents with bytes under a key, in place of what was there.
    pub open spec fn with_row(
        self,
        table: Seq<char>,
        fixed: bool,
        key: Seq<u8>,
        bytes: Seq<u8>,
    ) -> Contents {
        Contents {
            rows: self.rows.insert((table, key), bytes),
            ..self.with_table(table, fixed)
        }
    }

    /// The contents with nothing under a key.
    pub open spec fn without_row(self, table: Seq<char>, fixed: bool, key: Seq<u8>) -> Contents {
        Contents { rows: self.rows.remove((table, key)), ..self.with_table(table, fixed) }
    }
}

/// What a database holds.
pub open spec fn contents(db: redb::Database) -> Contents {
    Contents { rows: rows(db), tables: tables(db) }
}

/// A change is made as a whole: one that succeeds is there, and one that fails
/// is there or has left everything as it was.
pub open spec fn atomic(before: Contents, changed: Contents, after: Contents, ok: bool) -> bool {
    after == changed || (!ok && after == before)
}

/// The tables of a store.
pub open spec fn all_tables() -> Set<(Seq<char>, bool)> {
    Set::empty().insert(("commits_v1"@, true)).insert(("files_v1"@, true)).insert(
        ("symlinks_v1"@, true),
    ).insert(("trees_v1"@, true)).insert(("views_v1"@, false)).insert(
        ("operations_v1"@, false),
    ).insert(("refs_v1"@, false))
}

/// No tables at all.
pub open spec fn no_tables() -> Set<(Seq<char>, bool)> {
    Set::empty()
}

/// No rows at all.
pub open spec fn no_rows() -> Rows {
    Map::empty()
}

/// The row under a key.
pub open spec fn row(db: Rows, table: Seq<char>, key: Seq<u8>) -> Option<Seq<u8>> {
    if db.contains_key((table, key)) {
        Some(db[(table, key)])
    } else {
        None
    }
}

/// The rows with an encoded tree under its id, unless one is there.
pub open spec fn seeded(db: Rows, id: Seq<u8>, bytes: Seq<u8>) -> Rows {
    if db.contains_key(("trees_v1"@, id)) {
        db
    } else {
        db.insert(("trees_v1"@, id), bytes)
    }
}

/// The bytes in an optional blob.
pub open spec fn bytes_in(b: Option<Vec<u8>>) -> Option<Seq<u8>> {
    match b {
        Some(bytes) => Some(bytes@),
        None => None,
    }
}

/// Calls `redb::Builder::create_with_backend` with
/// `redb::backends::InMemoryBackend::new`.
///
/// Claimed of it: a database that it gives has no tables and no rows. Success is
/// not promised.
#[verifier::external_body]
fn create_in_memory() -> (r: Result<redb::Database, redb::Error>)
    ensures
        r matches Ok(db) ==> rows(db) == no_rows() && tables(db) == no_tables(),
{
    Ok(redb::Builder::new().create_with_backend(redb::backends::InMemoryBackend::new())?)
}

/// Calls `redb::WriteTransaction::open_table` for a table with fixed-length
/// keys, in a transaction of its own.
///
/// Claimed of it: a table that is opened is there with such keys, and opening it
/// changes no row and no other table. Where it fails, the table was made or
/// nothing was changed. Success is not promised.
#[verifier::external_body]
fn make_fixed(db: &mut redb::Database, table: &str) -> (r: Result<(), redb::Error>)
    requires
        table@.len() > 0,
    ensures
        atomic(
            contents(*old(db)),
            contents(*old(db)).with_table(table@, true),
            contents(*final(db)),
            r is Ok,
        ),
{
    let txn = db.begin_write()?;
    let definition: TableDefinition<&[u8; 32], &[u8]> = TableDefinition::new(table);
    let _ = txn.open_table(definition)?;
    Ok(txn.commit()?)
}

/// Calls `redb::WriteTransaction::open_table` for a table with keys of any
/// length, in a transaction of its own.
///
/// Claimed of it: a table that is opened is there with such keys, and opening it
/// changes no row and no other table. Where it fails, the table was made or
/// nothing was changed. Success is not promised.
#[verifier::external_body]
fn make_open(db: &mut redb::Database, table: &str) -> (r: Result<(), redb::Error>)
    requires
        table@.len() > 0,
    ensures
        atomic(
            contents(*old(db)),
            contents(*old(db)).with_table(table@, false),
            contents(*final(db)),
            r is Ok,
        ),
{
    let txn = db.begin_write()?;
    let definition: TableDefinition<&[u8], &[u8]> = TableDefinition::new(table);
    let _ = txn.open_table(definition)?;
    Ok(txn.commit()?)
}

/// Calls `redb::ReadOnlyTable::get` on a table with fixed-length keys, in a read
/// transaction.
///
/// Claimed of it: a read that succeeds gives the row under the key, or nothing
/// where there is none. Success is not promised.
#[verifier::external_body]
fn read_fixed(db: &redb::Database, table: &str, key: &[u8; 32]) -> (r: Result<
    Option<Vec<u8>>,
    redb::Error,
>)
    requires
        table@.len() > 0,
    ensures
        r matches Ok(found) ==> bytes_in(found) == row(rows(*db), table@, key@),
{
    let definition: TableDefinition<&[u8; 32], &[u8]> = TableDefinition::new(table);
    let tbl = db.begin_read()?.open_table(definition)?;
    Ok(tbl.get(key)?.map(|slot| slot.value().to_vec()))
}

/// Calls `redb::ReadOnlyTable::get` on a table with keys of any length, in a
/// read transaction.
///
/// Claimed of it: a read that succeeds gives the row under the key, or nothing
/// where there is none. Success is not promised.
#[verifier::external_body]
fn read_open(db: &redb::Database, table: &str, key: &[u8]) -> (r: Result<
    Option<Vec<u8>>,
    redb::Error,
>)
    requires
        table@.len() > 0,
    ensures
        r matches Ok(found) ==> bytes_in(found) == row(rows(*db), table@, key@),
{
    let definition: TableDefinition<&[u8], &[u8]> = TableDefinition::new(table);
    let tbl = db.begin_read()?.open_table(definition)?;
    Ok(tbl.get(key)?.map(|slot| slot.value().to_vec()))
}

/// Calls `redb::Table::insert` on a table with fixed-length keys, and
/// `redb::WriteTransaction::commit`.
///
/// Claimed of them: a write that succeeds puts the bytes under the key, in a
/// table that is made where it was not there, and changes no other row. A
/// transaction is atomic: one that fails has done all of that or nothing.
/// Success is not promised.
#[verifier::external_body]
fn write_fixed(db: &mut redb::Database, table: &str, key: &[u8; 32], bytes: &[u8]) -> (r: Result<
    (),
    redb::Error,
>)
    requires
        table@.len() > 0,
    ensures
        atomic(
            contents(*old(db)),
            contents(*old(db)).with_row(table@, true, key@, bytes@),
            contents(*final(db)),
            r is Ok,
        ),
{
    let txn = db.begin_write()?;
    let definition: TableDefinition<&[u8; 32], &[u8]> = TableDefinition::new(table);
    txn.open_table(definition)?.insert(key, bytes)?;
    Ok(txn.commit()?)
}

/// Calls `redb::Table::insert` on a table with keys of any length, and
/// `redb::WriteTransaction::commit`.
///
/// Claimed of them: a write that succeeds puts the bytes under the key, in a
/// table that is made where it was not there, and changes no other row. A
/// transaction is atomic: one that fails has done all of that or nothing.
/// Success is not promised.
#[verifier::external_body]
fn write_open(db: &mut redb::Database, table: &str, key: &[u8], bytes: &[u8]) -> (r: Result<
    (),
    redb::Error,
>)
    requires
        table@.len() > 0,
    ensures
        atomic(
            contents(*old(db)),
            contents(*old(db)).with_row(table@, false, key@, bytes@),
            contents(*final(db)),
            r is Ok,
        ),
{
    let txn = db.begin_write()?;
    let definition: TableDefinition<&[u8], &[u8]> = TableDefinition::new(table);
    txn.open_table(definition)?.insert(key, bytes)?;
    Ok(txn.commit()?)
}

/// Calls `redb::Table::remove` on a table with keys of any length, and
/// `redb::WriteTransaction::commit`.
///
/// Claimed of them: a removal that succeeds takes the row under the key away, if
/// there is one, from a table that is made where it was not there, and changes
/// no other row. A transaction is atomic: one that fails has done all of that or
/// nothing. Success is not promised.
#[verifier::external_body]
fn remove_open(db: &mut redb::Database, table: &str, key: &[u8]) -> (r: Result<(), redb::Error>)
    requires
        table@.len() > 0,
    ensures
        atomic(
            contents(*old(db)),
            contents(*old(db)).without_row(table@, false, key@),
            contents(*final(db)),
            r is Ok,
        ),
{
    let txn = db.begin_write()?;
    let definition: TableDefinition<&[u8], &[u8]> = TableDefinition::new(table);
    txn.open_table(definition)?.remove(key)?;
    Ok(txn.commit()?)
}

/// Calls `redb::ReadableTable::iter` on a table with keys of any length, in a
/// read transaction.
///
/// Claimed of it: a scan that succeeds gives each key of the table once and no
/// other. The order and success are not promised.
#[verifier::external_body]
fn keys_of(db: &redb::Database, table: &str) -> (r: Result<Vec<Vec<u8>>, redb::Error>)
    requires
        table@.len() > 0,
    ensures
        r matches Ok(keys) ==> {
            &&& forall|k: Seq<u8>| #[trigger]
                rows(*db).contains_key((table@, k)) <==> exists|i: int|
                    0 <= i < keys@.len() && (#[trigger] keys@[i])@ == k
            &&& forall|i: int, j: int|
                0 <= i < j < keys@.len() ==> (#[trigger] keys@[i])@ != (#[trigger] keys@[j])@
        },
{
    let definition: TableDefinition<&[u8], &[u8]> = TableDefinition::new(table);
    let tbl = db.begin_read()?.open_table(definition)?;
    let mut keys: Vec<Vec<u8>> = Vec::new();
    for entry in tbl.iter()? {
        keys.push(entry?.0.value().to_vec());
    }
    Ok(keys)
}

/// Calls `std::fmt::Display` of `redb::Error`, through `format!`.
///
/// Nothing is claimed of the text.
#[verifier::external_body]
fn error_text(cause: &redb::Error) -> (s: String) {
    format!("{cause}")
}

/// Why a store request failed.
#[derive(Debug)]
pub struct StoreFailure {
    pub cause: redb::Error,
}

impl StoreFailure {
    /// A refusal that says where the store failed, and then how.
    pub fn status(&self, context: &str) -> (s: Status)
        ensures
            s@.code == Code::Internal,
            begins_with_text(s@.message, context@ + ": "@),
    {
        let cause = error_text(&self.cause);
        let s = status_in(Code::Internal, context, cause.as_str());
        assert(s@.message.take((context@ + ": "@).len() as int) =~= context@ + ": "@);
        s
    }
}

/// The answer to what the database gave back: a fault becomes the cause of a
/// failure.
pub fn store_answer<T>(given: Result<T, redb::Error>) -> (r: Result<T, StoreFailure>)
    ensures
        match given {
            Ok(value) => r == Ok::<T, StoreFailure>(value),
            Err(cause) => r == Err::<T, StoreFailure>(StoreFailure { cause }),
        },
{
    match given {
        Ok(value) => Ok(value),
        Err(cause) => Err(StoreFailure { cause }),
    }
}

/// A text begins with another one.
pub open spec fn begins_with_text(text: Seq<char>, front: Seq<char>) -> bool {
    front.len() <= text.len() && text.take(front.len() as int) == front
}

/// What a prefix of an operation id stands for.
#[derive(Clone, Debug, PartialEq, Eq)]
pub enum OpPrefixResult {
    NoMatch,
    Single(Vec<u8>),
    Ambiguous,
}

/// The value of an [`OpPrefixResult`].
pub enum PrefixView {
    NoMatch,
    Single(Seq<u8>),
    Ambiguous,
}

impl View for OpPrefixResult {
    type V = PrefixView;

    open spec fn view(&self) -> PrefixView {
        match self {
            OpPrefixResult::NoMatch => PrefixView::NoMatch,
            OpPrefixResult::Single(id) => PrefixView::Single(id@),
            OpPrefixResult::Ambiguous => PrefixView::Ambiguous,
        }
    }
}

/// The id begins with these hexadecimal digits.
pub open spec fn has_hex_prefix(id: Seq<u8>, prefix: Seq<char>) -> bool {
    prefix.len() <= hex(id).len() && hex(id).take(prefix.len() as int) == prefix
}

/// The operation ids of a database.
pub open spec fn operation_ids(db: Rows) -> Set<Seq<u8>> {
    Set::new(|k: Seq<u8>| db.contains_key(("operations_v1"@, k)))
}

/// What a prefix stands for among a set of ids.
pub open spec fn resolves(ids: Set<Seq<u8>>, prefix: Seq<char>, r: PrefixView) -> bool {
    match r {
        PrefixView::NoMatch => forall|id: Seq<u8>| #[trigger]
            ids.contains(id) ==> !has_hex_prefix(id, prefix),
        PrefixView::Single(only) => {
            &&& ids.contains(only)
            &&& has_hex_prefix(only, prefix)
            &&& forall|id: Seq<u8>| #[trigger]
                ids.contains(id) && has_hex_prefix(id, prefix) ==> id == only
        },
        PrefixView::Ambiguous => exists|a: Seq<u8>, b: Seq<u8>|
            a != b && #[trigger] ids.contains(a) && #[trigger] ids.contains(b) && has_hex_prefix(
                a,
                prefix,
            ) && has_hex_prefix(b, prefix),
    }
}

/// A prefix stands for one thing.
pub proof fn resolution_is_unique(
    ids: Set<Seq<u8>>,
    prefix: Seq<char>,
    a: PrefixView,
    b: PrefixView,
)
    requires
        resolves(ids, prefix, a),
        resolves(ids, prefix, b),
    ensures
        a == b,
{
}

/// The whole hexadecimal form of an id stands for that id, as far as no other id
/// begins with it.
pub proof fn full_prefix_finds_its_id(ids: Set<Seq<u8>>, id: Seq<u8>)
    requires
        ids.contains(id),
        forall|other: Seq<u8>| #[trigger] ids.contains(other) ==> other.len() == id.len(),
    ensures
        resolves(ids, hex(id), PrefixView::Single(id)),
{
    assert(hex(id).take(hex(id).len() as int) =~= hex(id));
    assert forall|other: Seq<u8>| #[trigger] ids.contains(other) && has_hex_prefix(
        other,
        hex(id),
    ) implies other == id by {
        assert(hex(other).take(hex(id).len() as int) =~= hex(other));
        crate::text::hex_injective(other, id);
    }
}

fn starts_with_hex(id: &[u8], prefix: &str) -> (r: bool)
    ensures
        r == has_hex_prefix(id@, prefix@),
{
    let text = hex_encode(id);
    let n: usize = prefix.unicode_len();
    let m: usize = text.as_str().unicode_len();
    if n > m {
        return false;
    }
    let mut i: usize = 0;
    while i < n
        invariant
            i <= n <= m,
            n == prefix@.len(),
            m == text@.len(),
            text@ == hex(id@),
            forall|j: int| 0 <= j < i ==> text@[j] == prefix@[j],
        decreases n - i,
    {
        if text.as_str().get_char(i) != prefix.get_char(i) {
            assert(hex(id@).take(n as int)[i as int] != prefix@[i as int]);
            return false;
        }
        i = i + 1;
    }
    assert(hex(id@).take(n as int) =~= prefix@);
    true
}

/// Find the id that a prefix of hexadecimal digits stands for.
pub fn resolve_prefix(ids: &Vec<Vec<u8>>, prefix: &str) -> (r: OpPrefixResult)
    requires
        forall|i: int, j: int|
            0 <= i < j < ids@.len() ==> (#[trigger] ids@[i])@ != (#[trigger] ids@[j])@,
    ensures
        forall|all: Set<Seq<u8>>|
            (forall|k: Seq<u8>| #[trigger]
                all.contains(k) <==> exists|i: int| 0 <= i < ids@.len() && (#[trigger] ids@[i])@ == k)
                ==> #[trigger] resolves(all, prefix@, r@),
{
    let mut matched: Option<usize> = None;
    let mut i: usize = 0;
    while i < ids.len()
        invariant
            i <= ids@.len(),
            forall|a: int, b: int|
                0 <= a < b < ids@.len() ==> (#[trigger] ids@[a])@ != (#[trigger] ids@[b])@,
            match matched {
                None => forall|j: int|
                    0 <= j < i ==> !has_hex_prefix((#[trigger] ids@[j])@, prefix@),
                Some(m) => m < i && has_hex_prefix(ids@[m as int]@, prefix@) && forall|j: int|
                    0 <= j < i && j != m ==> !has_hex_prefix((#[trigger] ids@[j])@, prefix@),
            },
        decreases ids@.len() - i,
    {
        if starts_with_hex(ids[i].as_slice(), prefix) {
            match matched {
                Some(m) => {
                    proof {
                        let a = ids@[m as int]@;
                        let b = ids@[i as int]@;
                        assert forall|all: Set<Seq<u8>>|
                            (forall|k: Seq<u8>| #[trigger]
                                all.contains(k) <==> exists|i: int|
                                    0 <= i < ids@.len() && (#[trigger] ids@[i])@
                                        == k) implies #[trigger] resolves(
                            all,
                            prefix@,
                            PrefixView::Ambiguous,
                        ) by {
                            assert(all.contains(a) && all.contains(b));
                        }
                    }
                    return OpPrefixResult::Ambiguous;
                },
                None => {
                    matched = Some(i);
                },
            }
        }
        i = i + 1;
    }
    match matched {
        None => OpPrefixResult::NoMatch,
        Some(m) => {
            let id = crate::text::copy_bytes(ids[m].as_slice());
            proof {
                assert forall|all: Set<Seq<u8>>|
                    (forall|k: Seq<u8>| #[trigger]
                        all.contains(k) <==> exists|i: int|
                            0 <= i < ids@.len() && (#[trigger] ids@[i])@ == k)
                                implies #[trigger] resolves(
                    all,
                    prefix@,
                    PrefixView::Single(id@),
                ) by {
                    assert(ids@[m as int]@ == id@);
                }
            }
            OpPrefixResult::Single(id)
        },
    }
}

/// The database of one mount.
#[derive(Debug)]
pub struct Store {
    db: redb::Database,
    empty_tree_id: [u8; 32],
}

impl View for Store {
    type V = Rows;

    closed spec fn view(&self) -> Rows {
        rows(self.db)
    }
}

impl Store {
    /// The tables that are there.
    pub closed spec fn tables(&self) -> Set<(Seq<char>, bool)> {
        tables(self.db)
    }

    /// What the store holds.
    pub open spec fn contents(&self) -> Contents {
        Contents { rows: self@, tables: self.tables() }
    }

    /// The id of the empty tree.
    pub closed spec fn empty_tree(&self) -> Seq<u8> {
        self.empty_tree_id@
    }

    /// Use a database, and make sure that it has the seven tables and the empty
    /// tree, which has the given id and encoding.
    pub fn from_database(db: redb::Database, empty_id: &[u8; 32], empty_tree: &[u8]) -> (r: Result<
        Store,
        StoreFailure,
    >)
        ensures
            r matches Ok(s) ==> {
                &&& s@ == seeded(rows(db), empty_id@, empty_tree@)
                &&& s.tables() == tables(db).union(all_tables())
                &&& s.empty_tree() == empty_id@
            },
    {
        let mut db = db;
        proof {
            reveal_strlit("trees_v1");
        }
        match store_answer(make_tables(&mut db)) {
            Ok(()) => {},
            Err(e) => {
                return Err(e);
            },
        }
        match store_answer(read_fixed(&db, "trees_v1", empty_id)) {
            Ok(Some(_)) => {},
            Ok(None) => {
                let ghost before = tables(db);
                match store_answer(write_fixed(&mut db, "trees_v1", empty_id, empty_tree)) {
                    Ok(()) => {
                        assert(before.insert(("trees_v1"@, true)) =~= before);
                    },
                    Err(e) => {
                        return Err(e);
                    },
                }
            },
            Err(e) => {
                return Err(e);
            },
        }
        Ok(Store { db, empty_tree_id: *empty_id })
    }

    /// A new store that is gone when it is dropped. It holds the empty tree.
    pub fn new_in_memory(empty_id: &[u8; 32], empty_tree: &[u8]) -> (r: Result<
        Store,
        StoreFailure,
    >)
        ensures
            r matches Ok(s) ==> {
                &&& s@ == seeded(no_rows(), empty_id@, empty_tree@)
                &&& s.tables() == all_tables()
                &&& s.empty_tree() == empty_id@
            },
    {
        match store_answer(create_in_memory()) {
            Ok(db) => {
                let r = Store::from_database(db, empty_id, empty_tree);
                assert(tables(db).union(all_tables()) =~= all_tables());
                r
            },
            Err(e) => Err(e),
        }
    }

    /// The id of the empty tree.
    pub fn get_empty_tree_id(&self) -> (id: [u8; 32])
        ensures
            id@ == self.empty_tree(),
    {
        self.empty_tree_id
    }

    /// The database. What is said of the store holds as long as nothing is written
    /// through it.
    pub fn database(&self) -> (db: &redb::Database)
        ensures
            rows(*db) == self@,
    {
        &self.db
    }

    fn get_fixed(&self, table: &str, id: &[u8; 32]) -> (r: Result<Option<Vec<u8>>, StoreFailure>)
        requires
            table@.len() > 0,
        ensures
            r matches Ok(found) ==> bytes_in(found) == row(self@, table@, id@),
    {
        store_answer(read_fixed(&self.db, table, id))
    }

    fn get_open(&self, table: &str, id: &[u8]) -> (r: Result<Option<Vec<u8>>, StoreFailure>)
        requires
            table@.len() > 0,
        ensures
            r matches Ok(found) ==> bytes_in(found) == row(self@, table@, id@),
    {
        store_answer(read_open(&self.db, table, id))
    }

    fn put_fixed(&mut self, table: &str, id: &[u8; 32], bytes: &[u8]) -> (r: Result<
        (),
        StoreFailure,
    >)
        requires
            table@.len() > 0,
        ensures
            atomic(
                old(self).contents(),
                old(self).contents().with_row(table@, true, id@, bytes@),
                final(self).contents(),
                r is Ok,
            ),
    {
        store_answer(write_fixed(&mut self.db, table, id, bytes))
    }

    fn put_open(&mut self, table: &str, id: &[u8], bytes: &[u8]) -> (r: Result<(), StoreFailure>)
        requires
            table@.len() > 0,
        ensures
            atomic(
                old(self).contents(),
                old(self).contents().with_row(table@, false, id@, bytes@),
                final(self).contents(),
                r is Ok,
            ),
    {
        store_answer(write_open(&mut self.db, table, id, bytes))
    }

    /// Read an encoded tree.
    pub fn get_tree_bytes(&self, id: &[u8; 32]) -> (r: Result<Option<Vec<u8>>, StoreFailure>)
        ensures
            r matches Ok(found) ==> bytes_in(found) == row(self@, "trees_v1"@, id@),
    {
        proof {
            reveal_strlit("trees_v1");
        }
        self.get_fixed("trees_v1", id)
    }

    /// Store an encoded tree under its id.
    pub fn write_tree(&mut self, id: &[u8; 32], bytes: &[u8]) -> (r: Result<(), StoreFailure>)
        ensures
            atomic(
                old(self).contents(),
                old(self).contents().with_row("trees_v1"@, true, id@, bytes@),
                final(self).contents(),
                r is Ok,
            ),
    {
        proof {
            reveal_strlit("trees_v1");
        }
        self.put_fixed("trees_v1", id, bytes)
    }

    /// Read an encoded file.
    pub fn get_file_bytes(&self, id: &[u8; 32]) -> (r: Result<Option<Vec<u8>>, StoreFailure>)
        ensures
            r matches Ok(found) ==> bytes_in(found) == row(self@, "files_v1"@, id@),
    {
        proof {
            reveal_strlit("files_v1");
        }
        self.get_fixed("files_v1", id)
    }

    /// Store an encoded file under its id.
    pub fn write_file(&mut self, id: &[u8; 32], bytes: &[u8]) -> (r: Result<(), StoreFailure>)
        ensures
            atomic(
                old(self).contents(),
                old(self).contents().with_row("files_v1"@, true, id@, bytes@),
                final(self).contents(),
                r is Ok,
            ),
    {
        proof {
            reveal_strlit("files_v1");
        }
        self.put_fixed("files_v1", id, bytes)
    }

    /// Read an encoded symlink.
    pub fn get_symlink_bytes(&self, id: &[u8; 32]) -> (r: Result<Option<Vec<u8>>, StoreFailure>)
        ensures
            r matches Ok(found) ==> bytes_in(found) == row(self@, "symlinks_v1"@, id@),
    {
        proof {
            reveal_strlit("symlinks_v1");
        }
        self.get_fixed("symlinks_v1", id)
    }

    /// Store an encoded symlink under its id.
    pub fn write_symlink(&mut self, id: &[u8; 32], bytes: &[u8]) -> (r: Result<(), StoreFailure>)
        ensures
            atomic(
                old(self).contents(),
                old(self).contents().with_row("symlinks_v1"@, true, id@, bytes@),
                final(self).contents(),
                r is Ok,
            ),
    {
        proof {
            reveal_strlit("symlinks_v1");
        }
        self.put_fixed("symlinks_v1", id, bytes)
    }

    /// Read an encoded commit.
    pub fn get_commit_bytes(&self, id: &[u8; 32]) -> (r: Result<Option<Vec<u8>>, StoreFailure>)
        ensures
            r matches Ok(found) ==> bytes_in(found) == row(self@, "commits_v1"@, id@),
    {
        proof {
            reveal_strlit("commits_v1");
        }
        self.get_fixed("commits_v1", id)
    }

    /// Store an encoded commit under its id.
    pub fn write_commit(&mut self, id: &[u8; 32], bytes: &[u8]) -> (r: Result<(), StoreFailure>)
        ensures
            atomic(
                old(self).contents(),
                old(self).contents().with_row("commits_v1"@, true, id@, bytes@),
                final(self).contents(),
                r is Ok,
            ),
    {
        proof {
            reveal_strlit("commits_v1");
        }
        self.put_fixed("commits_v1", id, bytes)
    }

    /// Read a view by its id.
    pub fn get_view_bytes(&self, id: &[u8]) -> (r: Result<Option<Vec<u8>>, StoreFailure>)
        ensures
            r matches Ok(found) ==> bytes_in(found) == row(self@, "views_v1"@, id@),
    {
        proof {
            reveal_strlit("views_v1");
        }
        self.get_open("views_v1", id)
    }

    /// Store a view under the given id.
    pub fn write_view_bytes(&mut self, id: &[u8], bytes: &[u8]) -> (r: Result<(), StoreFailure>)
        ensures
            atomic(
                old(self).contents(),
                old(self).contents().with_row("views_v1"@, false, id@, bytes@),
                final(self).contents(),
                r is Ok,
            ),
    {
        proof {
            reveal_strlit("views_v1");
        }
        self.put_open("views_v1", id, bytes)
    }

    /// Read an operation by its id.
    pub fn get_operation_bytes(&self, id: &[u8]) -> (r: Result<Option<Vec<u8>>, StoreFailure>)
        ensures
            r matches Ok(found) ==> bytes_in(found) == row(self@, "operations_v1"@, id@),
    {
        proof {
            reveal_strlit("operations_v1");
        }
        self.get_open("operations_v1", id)
    }

    /// Store an operation under the given id.
    pub fn write_operation_bytes(
        &mut self,
        id: &[u8],
        bytes: &[u8],
    ) -> (r: Result<(), StoreFailure>)
        ensures
            atomic(
                old(self).contents(),
                old(self).contents().with_row("operations_v1"@, false, id@, bytes@),
                final(self).contents(),
                r is Ok,
            ),
    {
        proof {
            reveal_strlit("operations_v1");
        }
        self.put_open("operations_v1", id, bytes)
    }

    /// Read a ref.
    pub fn get_ref(&self, name: &str) -> (r: Result<Option<Vec<u8>>, StoreFailure>)
        ensures
            r matches Ok(found) ==> bytes_in(found) == ref_value(self@, name@),
    {
        proof {
            reveal_strlit("refs_v1");
        }
        self.get_open("refs_v1", name.as_bytes())
    }

    /// Swap a ref: it gets the new value, or is removed where there is none, if
    /// it has the expected one. Otherwise the value that it has is told.
    pub fn cas_ref(
        &mut self,
        name: &str,
        expected: Option<&[u8]>,
        new: Option<&[u8]>,
    ) -> (r: Result<
        CasOutcome,
        StoreFailure,
    >)
        ensures
            r matches Ok(outcome) ==> (final(self)@, cas_view(outcome)) == swapped(
                old(self)@,
                name@,
                slice_in(expected),
                slice_in(new),
            ),
            final(self)@ == old(self)@ || final(self)@ == swapped(
                old(self)@,
                name@,
                slice_in(expected),
                slice_in(new),
            ).0,
            final(self).tables() == old(self).tables() || final(self).tables()
                == old(self).tables().insert(("refs_v1"@, false)),
    {
        proof {
            reveal_strlit("refs_v1");
        }
        let actual = match self.get_ref(name) {
            Ok(actual) => actual,
            Err(e) => {
                return Err(e);
            },
        };
        match swap_refusal(actual, expected) {
            Some(refusal) => {
                return Ok(refusal);
            },
            None => {},
        }
        match new {
            Some(bytes) => match self.put_open("refs_v1", name.as_bytes(), bytes) {
                Ok(()) => Ok(CasOutcome::Updated),
                Err(e) => Err(e),
            },
            None => match store_answer(remove_open(&mut self.db, "refs_v1", name.as_bytes())) {
                Ok(()) => Ok(CasOutcome::Updated),
                Err(e) => Err(e),
            },
        }
    }

    /// The names of all refs.
    pub fn list_refs(&self) -> (r: Result<Vec<String>, StoreFailure>)
        ensures
            r matches Ok(names) ==> {
                &&& forall|n: Seq<char>| #[trigger]
                    lists(names@, n) <==> ref_value(self@, n) is Some
                &&& forall|i: int, j: int|
                    0 <= i < j < names@.len() ==> (#[trigger] names@[i])@ != (#[trigger] names@[j])@
            },
    {
        proof {
            reveal_strlit("refs_v1");
        }
        let keys = match store_answer(keys_of(&self.db, "refs_v1")) {
            Ok(keys) => keys,
            Err(e) => {
                return Err(e);
            },
        };
        let names = ref_names(&keys);
        proof {
            let all = key_values(keys@);
            assert forall|i: int, j: int| 0 <= i < all.len() && 0 <= j < all.len() && i
                != j implies all[i] != all[j] by {
                assert(keys@[i]@ != keys@[j]@);
            }
            named_once(all);
            let found = name_values(names@);
            assert forall|n: Seq<char>| #[trigger] lists(names@, n) <==> ref_value(self@, n) is Some by {
                named_exactly(all, n);
                assert(rows(self.db).contains_key(("refs_v1"@, encode_utf8(n))) == (
                ref_value(self@, n) is Some));
                if lists(names@, n) {
                    let k = choose|k: int| 0 <= k < names@.len() && (#[trigger] names@[k])@ == n;
                    assert(found[k] == n);
                    let a = choose|a: int| 0 <= a < all.len() && all[a] == encode_utf8(n);
                    assert(keys@[a]@ == encode_utf8(n));
                }
                if ref_value(self@, n) is Some {
                    let a = choose|a: int|
                        0 <= a < keys@.len() && (#[trigger] keys@[a])@ == encode_utf8(n);
                    assert(all[a] == encode_utf8(n));
                    let k = choose|k: int| 0 <= k < found.len() && found[k] == n;
                    assert(names@[k]@ == n);
                }
            }
            assert forall|a: int, b: int| 0 <= a < b < names@.len() implies (#[trigger] names@[a])@
                != (#[trigger] names@[b])@ by {
                assert(found[a] != found[b]);
            }
        }
        Ok(names)
    }

    /// Find the operation that a prefix of hexadecimal digits stands for.
    pub fn operation_ids_matching_prefix(&self, hex_prefix: &str) -> (r: Result<
        OpPrefixResult,
        StoreFailure,
    >)
        ensures
            r matches Ok(found) ==> resolves(operation_ids(self@), hex_prefix@, found@),
    {
        proof {
            reveal_strlit("operations_v1");
        }
        match store_answer(keys_of(&self.db, "operations_v1")) {
            Ok(keys) => {
                let r = resolve_prefix(&keys, hex_prefix);
                proof {
                    let all = operation_ids(self@);
                    assert forall|k: Seq<u8>| #[trigger] all.contains(k) <==> exists|i: int|
                        0 <= i < keys@.len() && (#[trigger] keys@[i])@ == k by {
                        assert(all.contains(k) == rows(self.db).contains_key(("operations_v1"@, k)));
                    }
                    assert(resolves(all, hex_prefix@, r@));
                }
                Ok(r)
            },
            Err(e) => Err(e),
        }
    }
}

/// The value of a ref.
pub open spec fn ref_value(db: Rows, name: Seq<char>) -> Option<Seq<u8>> {
    row(db, "refs_v1"@, encode_utf8(name))
}

/// The bytes in an optional slice.
pub open spec fn slice_in(b: Option<&[u8]>) -> Option<Seq<u8>> {
    match b {
        Some(bytes) => Some(bytes@),
        None => None,
    }
}

/// A name is in a list.
pub open spec fn lists(names: Seq<String>, name: Seq<char>) -> bool {
    exists|i: int| 0 <= i < names.len() && (#[trigger] names[i])@ == name
}

/// The value of a [`CasOutcome`].
pub enum CasView {
    Updated,
    Conflict(Option<Seq<u8>>),
}

/// The value of an outcome.
pub open spec fn cas_view(outcome: CasOutcome) -> CasView {
    match outcome {
        CasOutcome::Updated => CasView::Updated,
        CasOutcome::Conflict { actual } => CasView::Conflict(bytes_in(actual)),
    }
}

/// Why a ref with this value is not swapped from the expected one, if it is not:
/// the value that it has is told.
pub fn swap_refusal(actual: Option<Vec<u8>>, expected: Option<&[u8]>) -> (r: Option<CasOutcome>)
    ensures
        match r {
            None => bytes_in(actual) == slice_in(expected),
            Some(outcome) => bytes_in(actual) != slice_in(expected) && cas_view(outcome)
                == CasView::Conflict(bytes_in(actual)),
        },
{
    let matched: bool = match (&actual, expected) {
        (Some(a), Some(e)) => same_bytes(a.as_slice(), e),
        (None, None) => true,
        _ => false,
    };
    if matched {
        None
    } else {
        Some(CasOutcome::Conflict { actual })
    }
}

/// The values of keys.
pub open spec fn key_values(keys: Seq<Vec<u8>>) -> Seq<Seq<u8>> {
    keys.map_values(|k: Vec<u8>| k@)
}

/// The values of names.
pub open spec fn name_values(names: Seq<String>) -> Seq<Seq<char>> {
    names.map_values(|n: String| n@)
}

/// The names that keys encode, in their order; a key that is no text has none.
pub open spec fn named(keys: Seq<Seq<u8>>) -> Seq<Seq<char>>
    decreases keys.len(),
{
    if keys.len() == 0 {
        seq![]
    } else {
        let front = named(keys.drop_last());
        if valid_utf8(keys.last()) {
            front.push(decode_utf8(keys.last()))
        } else {
            front
        }
    }
}

/// The refs whose names the keys of a table encode.
pub fn ref_names(keys: &Vec<Vec<u8>>) -> (names: Vec<String>)
    ensures
        name_values(names@) == named(key_values(keys@)),
{
    let ghost all = key_values(keys@);
    let mut names: Vec<String> = Vec::new();
    assert(name_values(names@) =~= seq![]);
    assert(all.take(0) =~= seq![]);
    let mut i: usize = 0;
    while i < keys.len()
        invariant
            i <= keys@.len(),
            all == key_values(keys@),
            name_values(names@) == named(all.take(i as int)),
        decreases keys@.len() - i,
    {
        proof {
            assert(all.take(i + 1).drop_last() =~= all.take(i as int));
            assert(all.take(i + 1).last() == keys@[i as int]@);
        }
        match utf8_string(keys[i].as_slice()) {
            Some(name) => {
                let ghost before = name_values(names@);
                let ghost value = name@;
                names.push(name);
                assert(name_values(names@) =~= before.push(value));
            },
            None => {},
        }
        i = i + 1;
    }
    assert(all.take(i as int) =~= all);
    names
}

/// A name is among those of keys exactly if its encoding is a key.
proof fn named_exactly(keys: Seq<Seq<u8>>, name: Seq<char>)
    ensures
        named(keys).contains(name) <==> keys.contains(encode_utf8(name)),
    decreases keys.len(),
{
    if keys.len() > 0 {
        let front = keys.drop_last();
        let key = keys.last();
        named_exactly(front, name);
        encode_utf8_valid_utf8(name);
        encode_utf8_decode_utf8(name);
        assert(keys =~= front.push(key));
        assert(keys.contains(encode_utf8(name)) <==> front.contains(encode_utf8(name)) || key
            == encode_utf8(name)) by {
            if front.contains(encode_utf8(name)) {
                let a = choose|a: int| 0 <= a < front.len() && front[a] == encode_utf8(name);
                assert(keys[a] == encode_utf8(name));
            }
            assert(keys[front.len() as int] == key);
        }
        if valid_utf8(key) {
            decode_utf8_encode_utf8(key);
            let before = named(front);
            let after = before.push(decode_utf8(key));
            assert(after.contains(name) <==> before.contains(name) || decode_utf8(key) == name) by {
                if before.contains(name) {
                    let k = choose|k: int| 0 <= k < before.len() && before[k] == name;
                    assert(after[k] == name);
                }
                assert(after[before.len() as int] == decode_utf8(key));
            }
        }
    }
}

/// Different keys encode different names.
proof fn named_once(keys: Seq<Seq<u8>>)
    requires
        keys.no_duplicates(),
    ensures
        named(keys).no_duplicates(),
    decreases keys.len(),
{
    if keys.len() > 0 {
        let front = keys.drop_last();
        let key = keys.last();
        named_once(front);
        if valid_utf8(key) {
            decode_utf8_encode_utf8(key);
            named_exactly(front, decode_utf8(key));
            assert(!front.contains(key));
        }
    }
}

/// What swapping a ref does and gives.
pub open spec fn swapped(
    db: Rows,
    name: Seq<char>,
    expected: Option<Seq<u8>>,
    new: Option<Seq<u8>>,
) -> (Rows, CasView) {
    if ref_value(db, name) != expected {
        (db, CasView::Conflict(ref_value(db, name)))
    } else {
        (
            match new {
                Some(bytes) => db.insert(("refs_v1"@, encode_utf8(name)), bytes),
                None => db.remove(("refs_v1"@, encode_utf8(name))),
            },
            CasView::Updated,
        )
    }
}

/// A swap that is made sets the ref and no other, and a second swap from the
/// same value is refused with the value that the first one set.
pub proof fn only_one_swap_is_made(
    db: Rows,
    name: Seq<char>,
    expected: Option<Seq<u8>>,
    new: Option<Seq<u8>>,
    late: Option<Seq<u8>>,
    other: Seq<char>,
)
    requires
        swapped(db, name, expected, new).1 == CasView::Updated,
        new != expected,
    ensures
        ref_value(swapped(db, name, expected, new).0, name) == new,
        other != name ==> ref_value(swapped(db, name, expected, new).0, other) == ref_value(
            db,
            other,
        ),
        swapped(swapped(db, name, expected, new).0, name, expected, late) == (
            swapped(db, name, expected, new).0,
            CasView::Conflict(new),
        ),
{
    if encode_utf8(other) == encode_utf8(name) {
        crate::text::utf8_injective(other, name);
    }
}

/// Make the seven tables.
fn make_tables(db: &mut redb::Database) -> (r: Result<(), redb::Error>)
    ensures
        rows(*final(db)) == rows(*old(db)),
        r is Ok ==> tables(*final(db)) == tables(*old(db)).union(all_tables()),
        tables(*old(db)).subset_of(tables(*final(db))),
        tables(*final(db)).subset_of(tables(*old(db)).union(all_tables())),
{
    proof {
        reveal_strlit("commits_v1");
        reveal_strlit("files_v1");
        reveal_strlit("symlinks_v1");
        reveal_strlit("trees_v1");
        reveal_strlit("views_v1");
        reveal_strlit("operations_v1");
        reveal_strlit("refs_v1");
    }
    match make_fixed(db, "commits_v1") {
        Ok(()) => {},
        Err(e) => {
            return Err(e);
        },
    }
    match make_fixed(db, "files_v1") {
        Ok(()) => {},
        Err(e) => {
            return Err(e);
        },
    }
    match make_fixed(db, "symlinks_v1") {
        Ok(()) => {},
        Err(e) => {
            return Err(e);
        },
    }
    match make_fixed(db, "trees_v1") {
        Ok(()) => {},
        Err(e) => {
            return Err(e);
        },
    }
    match make_open(db, "views_v1") {
        Ok(()) => {},
        Err(e) => {
            return Err(e);
        },
    }
    match make_open(db, "operations_v1") {
        Ok(()) => {},
        Err(e) => {
            return Err(e);
        },
    }
    make_open(db, "refs_v1")
}

/// A store that was opened has the empty tree, and opening it changes no row that
/// was there: one that is opened again is as it was.
pub proof fn empty_tree_is_there(
    db: Rows,
    id: Seq<u8>,
    bytes: Seq<u8>,
    table: Seq<char>,
    key: Seq<u8>,
)
    ensures
        row(seeded(db, id, bytes), "trees_v1"@, id) is Some,
        row(db, "trees_v1"@, id) is None ==> row(seeded(db, id, bytes), "trees_v1"@, id) == Some(
            bytes,
        ),
        row(db, table, key) is Some ==> row(seeded(db, id, bytes), table, key) == row(
            db,
            table,
            key,
        ),
        (table, key) != ("trees_v1"@, id) ==> row(seeded(db, id, bytes), table, key) == row(
            db,
            table,
            key,
        ),
        seeded(seeded(db, id, bytes), id, bytes) == seeded(db, id, bytes),
{
}

/// What was written is read back, and everything else is as before.
pub proof fn written_row_is_read(
    db: Rows,
    table: Seq<char>,
    key: Seq<u8>,
    bytes: Seq<u8>,
    other_table: Seq<char>,
    other: Seq<u8>,
)
    ensures
        row(db.insert((table, key), bytes), table, key) == Some(bytes),
        (other_table, other) != (table, key) ==> row(
            db.insert((table, key), bytes),
            other_table,
            other,
        ) == row(db, other_table, other),
{
}

} // verus!
