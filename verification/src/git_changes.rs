//! What git tools changed behind the daemon's back.
//!
//! The daemon remembers the head and the bookmarks that it exported last; what
//! the repository holds now is compared with that.
use vstd::prelude::*;
use crate::op_blobs::{bookmark_values, Bookmark, BookmarkValue};
use crate::store::bytes_in;
use crate::text::{copy_bytes, same_bytes, same_str};

verus! {

/// The head that came from outside: the current one, if something was exported
/// and the current one differs from it. Otherwise nothing.
pub open spec fn external_head(exported: Seq<u8>, current: Option<Seq<u8>>) -> Seq<u8> {
    match current {
        Some(head) => if exported.len() > 0 && head != exported {
            head
        } else {
            seq![]
        },
        None => seq![],
    }
}

/// The head that came from outside, or nothing.
pub fn detect_head(exported: &[u8], current: Option<Vec<u8>>) -> (r: Vec<u8>)
    ensures
        r@ == external_head(exported@, bytes_in(current)),
{
    match current {
        Some(head) => if exported.len() > 0 && !same_bytes(head.as_slice(), exported) {
            head
        } else {
            Vec::new()
        },
        None => Vec::new(),
    }
}

/// What is reported is nothing or the current head itself, byte for byte. It is the
/// current head exactly if a head was exported and there is a current one that
/// differs from it, so that once a reported head is taken as the exported one, the
/// same question reports nothing.
pub proof fn reported_head_is_the_current_one(exported: Seq<u8>, current: Option<Seq<u8>>)
    ensures
        ({
            let reported = external_head(exported, current);
            &&& reported.len() == 0 || current == Some(reported)
            &&& reported.len() > 0 ==> exported.len() > 0 && reported != exported
            &&& exported.len() > 0 && current is Some && current != Some(exported) ==> current
                == Some(reported)
            &&& external_head(reported, current).len() == 0
            &&& exported.len() == 0 || current is None || current == Some(exported)
                ==> reported.len() == 0
        }),
{
}

/// The last place of a name.
pub open spec fn last_place(list: Seq<BookmarkValue>, name: Seq<char>) -> Option<int>
    decreases list.len(),
{
    if list.len() == 0 {
        None
    } else if list.last().0 == name {
        Some(list.len() - 1)
    } else {
        last_place(list.drop_last(), name)
    }
}

/// What a list says of a name; where it says several things, the last one
/// counts.
pub open spec fn target_of(list: Seq<BookmarkValue>, name: Seq<char>) -> Option<Seq<u8>> {
    match last_place(list, name) {
        Some(i) => Some(list[i].1),
        None => None,
    }
}

/// The bookmarks among the first `n` that were added or moved.
pub open spec fn moved(exported: Seq<BookmarkValue>, current: Seq<BookmarkValue>, n: int) -> Seq<
    BookmarkValue,
>
    decreases n,
{
    if n <= 0 {
        seq![]
    } else {
        let front = moved(exported, current, n - 1);
        let (name, id) = current[n - 1];
        if last_place(current, name) == Some(n - 1) && target_of(exported, name) != Some(id) {
            front.push((name, id))
        } else {
            front
        }
    }
}

/// The bookmarks among the first `n` exported ones that are gone, each with an
/// empty id.
pub open spec fn gone(exported: Seq<BookmarkValue>, current: Seq<BookmarkValue>, n: int) -> Seq<
    BookmarkValue,
>
    decreases n,
{
    if n <= 0 {
        seq![]
    } else {
        let front = gone(exported, current, n - 1);
        let name = exported[n - 1].0;
        if last_place(exported, name) == Some(n - 1) && target_of(current, name) is None {
            front.push((name, seq![]))
        } else {
            front
        }
    }
}

/// How the bookmarks changed: those that were added or moved, with where they
/// are now, and then those that are gone, with an empty id.
pub open spec fn changes(exported: Seq<BookmarkValue>, current: Seq<BookmarkValue>) -> Seq<
    BookmarkValue,
> {
    moved(exported, current, current.len() as int) + gone(
        exported,
        current,
        exported.len() as int,
    )
}

proof fn lemma_last_place(list: Seq<BookmarkValue>, name: Seq<char>)
    ensures
        match last_place(list, name) {
            Some(i) => {
                &&& 0 <= i < list.len()
                &&& list[i].0 == name
                &&& forall|j: int| i < j < list.len() ==> (#[trigger] list[j]).0 != name
            },
            None => forall|j: int| 0 <= j < list.len() ==> (#[trigger] list[j]).0 != name,
        },
    decreases list.len(),
{
    if list.len() > 0 {
        lemma_last_place(list.drop_last(), name);
        assert forall|j: int| 0 <= j < list.len() - 1 implies #[trigger] list[j]
            == list.drop_last()[j] by {}
    }
}

/// The last place is the one behind which the name does not occur.
proof fn lemma_is_last_place(list: Seq<BookmarkValue>, i: int)
    requires
        0 <= i < list.len(),
        forall|j: int| i < j < list.len() ==> (#[trigger] list[j]).0 != list[i].0,
    ensures
        last_place(list, list[i].0) == Some(i),
{
    lemma_last_place(list, list[i].0);
}

proof fn lemma_pushed(list: Seq<BookmarkValue>, e: BookmarkValue, name: Seq<char>)
    ensures
        target_of(list.push(e), name) == (if e.0 == name {
            Some(e.1)
        } else {
            target_of(list, name)
        }),
{
    assert(list.push(e).drop_last() =~= list);
    lemma_last_place(list, name);
}

proof fn lemma_joined(a: Seq<BookmarkValue>, b: Seq<BookmarkValue>, name: Seq<char>)
    ensures
        target_of(a + b, name) == (match target_of(b, name) {
            Some(id) => Some(id),
            None => target_of(a, name),
        }),
    decreases b.len(),
{
    if b.len() == 0 {
        assert(a + b =~= a);
    } else {
        assert(a + b =~= (a + b.drop_last()).push(b.last()));
        assert(b =~= b.drop_last().push(b.last()));
        lemma_joined(a, b.drop_last(), name);
        lemma_pushed(a + b.drop_last(), b.last(), name);
        lemma_pushed(b.drop_last(), b.last(), name);
    }
}

proof fn lemma_moved(
    exported: Seq<BookmarkValue>,
    current: Seq<BookmarkValue>,
    n: int,
    name: Seq<char>,
)
    requires
        0 <= n <= current.len(),
    ensures
        target_of(moved(exported, current, n), name) == (match last_place(current, name) {
            Some(k) => if k < n && target_of(exported, name) != Some(current[k].1) {
                Some(current[k].1)
            } else {
                None
            },
            None => None,
        }),
    decreases n,
{
    lemma_last_place(current, name);
    if n > 0 {
        lemma_moved(exported, current, n - 1, name);
        let front = moved(exported, current, n - 1);
        lemma_pushed(front, current[n - 1], name);
        lemma_last_place(current, current[n - 1].0);
    }
}

proof fn lemma_gone(
    exported: Seq<BookmarkValue>,
    current: Seq<BookmarkValue>,
    n: int,
    name: Seq<char>,
)
    requires
        0 <= n <= exported.len(),
    ensures
        target_of(gone(exported, current, n), name) == (match last_place(exported, name) {
            Some(k) => if k < n && target_of(current, name) is None {
                Some(Seq::<u8>::empty())
            } else {
                None
            },
            None => None,
        }),
    decreases n,
{
    lemma_last_place(exported, name);
    if n > 0 {
        lemma_gone(exported, current, n - 1, name);
        let front = gone(exported, current, n - 1);
        lemma_pushed(front, (exported[n - 1].0, seq![]), name);
        lemma_last_place(exported, exported[n - 1].0);
    }
}

/// Where a bookmark is after a list of changes was followed: an empty id takes
/// it away.
pub open spec fn followed(
    before: Seq<BookmarkValue>,
    list: Seq<BookmarkValue>,
    name: Seq<char>,
) -> Option<Seq<u8>> {
    match target_of(list, name) {
        Some(id) => if id.len() == 0 {
            None
        } else {
            Some(id)
        },
        None => target_of(before, name),
    }
}

/// Following the reported changes leads from what was exported to what is
/// there, as long as no bookmark is at an empty id.
pub proof fn changes_lead_to_the_present(
    exported: Seq<BookmarkValue>,
    current: Seq<BookmarkValue>,
    name: Seq<char>,
)
    requires
        forall|i: int| 0 <= i < current.len() ==> (#[trigger] current[i]).1.len() > 0,
    ensures
        followed(exported, changes(exported, current), name) == target_of(current, name),
{
    let m = current.len() as int;
    let n = exported.len() as int;
    lemma_last_place(current, name);
    lemma_last_place(exported, name);
    lemma_moved(exported, current, m, name);
    lemma_gone(exported, current, n, name);
    lemma_joined(moved(exported, current, m), gone(exported, current, n), name);
}

/// Nothing is reported where every bookmark is where it was.
pub proof fn nothing_changed(exported: Seq<BookmarkValue>, current: Seq<BookmarkValue>)
    requires
        forall|name: Seq<char>| target_of(exported, name) == #[trigger] target_of(current, name),
    ensures
        changes(exported, current) == Seq::<BookmarkValue>::empty(),
{
    lemma_none_moved(exported, current, current.len() as int);
    lemma_none_gone(exported, current, exported.len() as int);
}

proof fn lemma_none_moved(exported: Seq<BookmarkValue>, current: Seq<BookmarkValue>, n: int)
    requires
        n <= current.len(),
        forall|name: Seq<char>| target_of(exported, name) == #[trigger] target_of(current, name),
    ensures
        moved(exported, current, n) == Seq::<BookmarkValue>::empty(),
    decreases n,
{
    if n > 0 {
        lemma_none_moved(exported, current, n - 1);
        assert(target_of(exported, current[n - 1].0) == target_of(current, current[n - 1].0));
    }
}

proof fn lemma_none_gone(exported: Seq<BookmarkValue>, current: Seq<BookmarkValue>, n: int)
    requires
        n <= exported.len(),
        forall|name: Seq<char>| target_of(exported, name) == #[trigger] target_of(current, name),
    ensures
        gone(exported, current, n) == Seq::<BookmarkValue>::empty(),
    decreases n,
{
    if n > 0 {
        lemma_none_gone(exported, current, n - 1);
        assert(target_of(exported, exported[n - 1].0) == target_of(current, exported[n - 1].0));
    }
}

/// The list puts the bookmark at this id: an entry does, and none behind it names the
/// bookmark.
pub open spec fn puts(list: Seq<BookmarkValue>, name: Seq<char>, id: Seq<u8>) -> bool {
    exists|i: int|
        0 <= i < list.len() && #[trigger] list[i] == (name, id) && !mentions(list.skip(i + 1), name)
}

/// An entry of the list names the bookmark.
pub open spec fn mentions(list: Seq<BookmarkValue>, name: Seq<char>) -> bool {
    exists|i: int| 0 <= i < list.len() && (#[trigger] list[i]).0 == name
}

/// No two entries of the list name the same bookmark.
pub open spec fn each_once(list: Seq<BookmarkValue>) -> bool {
    forall|i: int, j: int|
        0 <= i < j < list.len() ==> (#[trigger] list[i]).0 != (#[trigger] list[j]).0
}

/// What a list says of a bookmark is what its last entry for it says.
pub proof fn last_entry_counts(list: Seq<BookmarkValue>, name: Seq<char>, id: Seq<u8>)
    ensures
        target_of(list, name) == Some(id) <==> puts(list, name, id),
        target_of(list, name) is Some <==> mentions(list, name),
{
    lemma_last_place(list, name);
    if let Some(i) = last_place(list, name) {
        assert(!mentions(list.skip(i + 1), name)) by {
            let rest = list.skip(i + 1);
            if mentions(rest, name) {
                let j = choose|j: int| 0 <= j < rest.len() && (#[trigger] rest[j]).0 == name;
                assert(list[i + 1 + j].0 == name);
            }
        }
        assert(list[i].0 == name);
        assert(list[i] == (name, list[i].1));
    }
    if puts(list, name, id) {
        let i = choose|i: int|
            0 <= i < list.len() && #[trigger] list[i] == (name, id) && !mentions(
                list.skip(i + 1),
                name,
            );
        assert forall|j: int| i < j < list.len() implies (#[trigger] list[j]).0 != list[i].0 by {
            let rest = list.skip(i + 1);
            assert(rest[j - i - 1] == list[j]);
        }
        lemma_is_last_place(list, i);
    }
}

proof fn lemma_entries_moved(
    exported: Seq<BookmarkValue>,
    current: Seq<BookmarkValue>,
    n: int,
    k: int,
)
    requires
        0 <= n <= current.len(),
        0 <= k < moved(exported, current, n).len(),
    ensures
        last_place(current, moved(exported, current, n)[k].0) matches Some(p) && 0 <= p < n,
        each_once(moved(exported, current, n)),
    decreases n,
{
    if n > 0 {
        let front = moved(exported, current, n - 1);
        let all = moved(exported, current, n);
        lemma_last_place(current, current[n - 1].0);
        if k < front.len() {
            assert(all[k] == front[k]);
            lemma_entries_moved(exported, current, n - 1, k);
        }
        assert(each_once(front)) by {
            if front.len() > 0 {
                lemma_entries_moved(exported, current, n - 1, 0);
            }
        }
        assert forall|i: int, j: int| 0 <= i < j < all.len() implies (#[trigger] all[i]).0 != (
        #[trigger] all[j]).0 by {
            assert(all[i] == front[i]);
            if j < front.len() {
                assert(all[j] == front[j]);
            } else {
                lemma_entries_moved(exported, current, n - 1, i);
            }
        }
    }
}

proof fn lemma_entries_gone(
    exported: Seq<BookmarkValue>,
    current: Seq<BookmarkValue>,
    n: int,
    k: int,
)
    requires
        0 <= n <= exported.len(),
        0 <= k < gone(exported, current, n).len(),
    ensures
        last_place(exported, gone(exported, current, n)[k].0) matches Some(p) && 0 <= p < n,
        target_of(current, gone(exported, current, n)[k].0) is None,
        each_once(gone(exported, current, n)),
    decreases n,
{
    if n > 0 {
        let front = gone(exported, current, n - 1);
        let all = gone(exported, current, n);
        lemma_last_place(exported, exported[n - 1].0);
        if k < front.len() {
            assert(all[k] == front[k]);
            lemma_entries_gone(exported, current, n - 1, k);
        }
        assert(each_once(front)) by {
            if front.len() > 0 {
                lemma_entries_gone(exported, current, n - 1, 0);
            }
        }
        assert forall|i: int, j: int| 0 <= i < j < all.len() implies (#[trigger] all[i]).0 != (
        #[trigger] all[j]).0 by {
            assert(all[i] == front[i]);
            if j < front.len() {
                assert(all[j] == front[j]);
            } else {
                lemma_entries_gone(exported, current, n - 1, i);
            }
        }
    }
}

proof fn lemma_once_is_target(list: Seq<BookmarkValue>, name: Seq<char>, id: Seq<u8>)
    requires
        each_once(list),
    ensures
        list.contains((name, id)) <==> target_of(list, name) == Some(id),
{
    lemma_last_place(list, name);
    if list.contains((name, id)) {
        let i = choose|i: int| 0 <= i < list.len() && list[i] == (name, id);
        assert forall|j: int| i < j < list.len() implies (#[trigger] list[j]).0 != list[i].0 by {}
        lemma_is_last_place(list, i);
    }
    if let Some(i) = last_place(list, name) {
        assert(list[i] == (name, list[i].1));
    }
}

/// A bookmark is reported at an id exactly if it is there now and was not exported
/// there, or with an empty id if it was exported and is not there any more. Each is
/// reported once.
pub proof fn changed_bookmarks_are_reported(
    exported: Seq<BookmarkValue>,
    current: Seq<BookmarkValue>,
    name: Seq<char>,
    id: Seq<u8>,
)
    ensures
        changes(exported, current).contains((name, id)) <==> {
            ||| puts(current, name, id) && !puts(exported, name, id)
            ||| id.len() == 0 && mentions(exported, name) && !mentions(current, name)
        },
        each_once(changes(exported, current)),
{
    let m = current.len() as int;
    let n = exported.len() as int;
    let first = moved(exported, current, m);
    let then = gone(exported, current, n);
    let all = changes(exported, current);
    assert forall|i: int, j: int| 0 <= i < j < all.len() implies (#[trigger] all[i]).0 != (
    #[trigger] all[j]).0 by {
        if j < first.len() {
            assert(all[i] == first[i] && all[j] == first[j]);
            lemma_entries_moved(exported, current, m, i);
        } else if i >= first.len() {
            assert(all[i] == then[i - first.len()] && all[j] == then[j - first.len()]);
            lemma_entries_gone(exported, current, n, i - first.len());
        } else {
            assert(all[i] == first[i] && all[j] == then[j - first.len()]);
            lemma_entries_moved(exported, current, m, i);
            lemma_entries_gone(exported, current, n, j - first.len());
        }
    }
    lemma_once_is_target(all, name, id);
    lemma_last_place(current, name);
    lemma_last_place(exported, name);
    lemma_moved(exported, current, m, name);
    lemma_gone(exported, current, n, name);
    lemma_joined(first, then, name);
    last_entry_counts(current, name, id);
    last_entry_counts(exported, name, id);
    if id.len() == 0 {
        assert(id =~= Seq::<u8>::empty());
    }
}

/// Bookmarks that were added or moved are reported in their order, and before those that
/// are gone, which come in the order in which they were exported.
pub proof fn changes_are_reported_in_order(
    exported: Seq<BookmarkValue>,
    current: Seq<BookmarkValue>,
    n: int,
)
    ensures
        0 <= n < current.len() ==> {
            let before = moved(exported, current, n);
            let after = moved(exported, current, n + 1);
            after == before || after == before.push(current[n])
        },
        0 <= n < exported.len() ==> {
            let before = gone(exported, current, n);
            let after = gone(exported, current, n + 1);
            after == before || after == before.push((exported[n].0, Seq::<u8>::empty()))
        },
        moved(exported, current, 0).len() == 0,
        gone(exported, current, 0).len() == 0,
        changes(exported, current) == moved(exported, current, current.len() as int) + gone(
            exported,
            current,
            exported.len() as int,
        ),
{
}

/// Find the last place of a name.
fn find_last(list: &Vec<Bookmark>, name: &str) -> (r: Option<usize>)
    ensures
        match r {
            Some(i) => last_place(bookmark_values(list@), name@) == Some(i as int) && i
                < list@.len(),
            None => last_place(bookmark_values(list@), name@) is None,
        },
{
    let ghost all = bookmark_values(list@);
    let mut n: usize = list.len();
    while n > 0
        invariant
            n <= list@.len(),
            all == bookmark_values(list@),
            forall|j: int| n <= j < all.len() ==> (#[trigger] all[j]).0 != name@,
        decreases n,
    {
        assert(all[n - 1].0 == list@[n - 1].0@);
        if same_str(list[n - 1].0.as_str(), name) {
            proof {
                lemma_is_last_place(all, n - 1);
            }
            return Some(n - 1);
        }
        n = n - 1;
    }
    proof {
        lemma_last_place(all, name@);
    }
    None
}

/// How the bookmarks changed since they were exported.
pub fn bookmark_changes(exported: &Vec<Bookmark>, current: &Vec<Bookmark>) -> (r: Vec<Bookmark>)
    ensures
        bookmark_values(r@) == changes(bookmark_values(exported@), bookmark_values(current@)),
{
    let ghost e = bookmark_values(exported@);
    let ghost c = bookmark_values(current@);
    let mut out: Vec<Bookmark> = Vec::new();
    assert(bookmark_values(out@) =~= seq![]);
    let mut i: usize = 0;
    while i < current.len()
        invariant
            i <= current@.len(),
            e == bookmark_values(exported@),
            c == bookmark_values(current@),
            bookmark_values(out@) == moved(e, c, i as int),
        decreases current@.len() - i,
    {
        let name = current[i].0.as_str();
        let id = current[i].1.as_slice();
        proof {
            assert(c[i as int] == (name@, id@));
            lemma_last_place(e, name@);
        }
        let is_last: bool = match find_last(current, name) {
            Some(k) => k == i,
            None => false,
        };
        let same: bool = match find_last(exported, name) {
            Some(k) => {
                assert(e[k as int].1 == exported@[k as int].1@);
                same_bytes(exported[k].1.as_slice(), id)
            },
            None => false,
        };
        if is_last && !same {
            let ghost before = bookmark_values(out@);
            out.push((name.to_owned(), copy_bytes(id)));
            assert(bookmark_values(out@) =~= before.push((name@, id@)));
        }
        i = i + 1;
    }
    let ghost first = bookmark_values(out@);
    assert(first =~= first + seq![]);
    let mut j: usize = 0;
    while j < exported.len()
        invariant
            j <= exported@.len(),
            e == bookmark_values(exported@),
            c == bookmark_values(current@),
            first == moved(e, c, c.len() as int),
            bookmark_values(out@) == first + gone(e, c, j as int),
        decreases exported@.len() - j,
    {
        let name = exported[j].0.as_str();
        assert(e[j as int].0 == name@);
        let is_last: bool = match find_last(exported, name) {
            Some(k) => k == j,
            None => false,
        };
        if is_last && find_last(current, name).is_none() {
            let ghost before = bookmark_values(out@);
            let ghost part = gone(e, c, j as int);
            out.push((name.to_owned(), Vec::new()));
            assert(bookmark_values(out@) =~= before.push((name@, seq![])));
            assert(before.push((name@, seq![])) =~= first + part.push((name@, seq![])));
        }
        j = j + 1;
    }
    out
}

} // verus!
