//! Commits as git stores them.
use vstd::prelude::*;
use vstd::utf8::encode_utf8;
use crate::text::{concat3, copy_bytes, hex, hex_encode};
use crate::ty::Id;

verus! {

broadcast use vstd::string::group_string_axioms;

/// The id of the root commit, which git does not know.
pub const ROOT_COMMIT: [u8; 20] = [0, 0, 0, 0, 0, 0, 0, 0, 0, 0, 0, 0, 0, 0, 0, 0, 0, 0, 0, 0];

/// What a commit is made of.
#[derive(Debug)]
pub struct CommitParts {
    pub tree: Id,
    pub parents: Vec<Id>,
    /// The author line behind the word: name, mail, time and zone.
    pub author: String,
    /// The committer line behind the word.
    pub committer: String,
    pub description: String,
}

/// The value of a [`CommitParts`].
pub struct CommitView {
    pub tree: Id,
    pub parents: Seq<Id>,
    pub author: Seq<char>,
    pub committer: Seq<char>,
    pub description: Seq<char>,
}

impl View for CommitParts {
    type V = CommitView;

    open spec fn view(&self) -> CommitView {
        CommitView {
            tree: self.tree,
            parents: self.parents@,
            author: self.author@,
            committer: self.committer@,
            description: self.description@,
        }
    }
}

/// One line for each parent. The root commit has none.
pub open spec fn parent_lines(parents: Seq<Id>) -> Seq<char>
    decreases parents.len(),
{
    if parents.len() == 0 {
        seq![]
    } else {
        let front = parent_lines(parents.drop_last());
        let last = parents.last();
        if last == Id(ROOT_COMMIT) {
            front
        } else {
            front + ("parent "@ + hex(last@) + "\n"@)
        }
    }
}

/// The text of a commit: its headers, an empty line and the description.
pub open spec fn commit_text(c: CommitView) -> Seq<char> {
    ("tree "@ + hex(c.tree@) + "\n"@) + parent_lines(c.parents) + ("author "@ + c.author + "\n"@)
        + ("committer "@ + c.committer + "\n\n"@) + c.description
}

/// The bytes of a commit.
pub open spec fn commit_bytes(c: CommitView) -> Seq<u8> {
    encode_utf8(commit_text(c))
}

/// The commit as git stores it.
pub fn encode_commit(c: &CommitParts) -> (b: Vec<u8>)
    ensures
        b@ == commit_bytes(c@),
{
    let mut text = concat3("tree ", hex_encode(c.tree.0.as_slice()).as_str(), "\n");
    let ghost head = text@;
    let mut i: usize = 0;
    while i < c.parents.len()
        invariant
            i <= c.parents@.len(),
            text@ == head + parent_lines(c.parents@.take(i as int)),
        decreases c.parents@.len() - i,
    {
        let parent = c.parents[i];
        let ghost before = text@;
        proof {
            let taken = c.parents@.take(i + 1);
            assert(taken.drop_last() =~= c.parents@.take(i as int));
            assert(taken.last() == parent);
        }
        if !parent.same(&Id(ROOT_COMMIT)) {
            let line = concat3("parent ", hex_encode(parent.0.as_slice()).as_str(), "\n");
            text.append(line.as_str());
            assert(text@ =~= head + parent_lines(c.parents@.take(i + 1)));
        }
        i = i + 1;
    }
    assert(c.parents@.take(i as int) =~= c.parents@);
    text.append(concat3("author ", c.author.as_str(), "\n").as_str());
    text.append(concat3("committer ", c.committer.as_str(), "\n\n").as_str());
    text.append(c.description.as_str());
    assert(text@ == commit_text(c@));
    copy_bytes(text.as_str().as_bytes())
}

/// Whether a commit merges the root commit with another one, which git cannot
/// say.
pub open spec fn merges_root(parents: Seq<Id>) -> bool {
    parents.len() > 1 && parents.contains(Id(ROOT_COMMIT))
}

/// Whether the root commit is merged with another one.
pub fn is_root_merge(parents: &Vec<Id>) -> (r: bool)
    ensures
        r == merges_root(parents@),
{
    if parents.len() <= 1 {
        return false;
    }
    let mut i: usize = 0;
    while i < parents.len()
        invariant
            1 < parents@.len(),
            i <= parents@.len(),
            forall|j: int| 0 <= j < i ==> parents@[j] != Id(ROOT_COMMIT),
        decreases parents@.len() - i,
    {
        if parents[i].same(&Id(ROOT_COMMIT)) {
            assert(parents@[i as int] == Id(ROOT_COMMIT));
            return true;
        }
        i = i + 1;
    }
    false
}

/// Commits of the same tree, authors and description differ wherever their parents
/// do, the root commit aside.
pub proof fn parents_are_written(a: CommitView, b: CommitView)
    requires
        commit_bytes(a) == commit_bytes(b),
        a.tree == b.tree,
        a.author == b.author,
        a.committer == b.committer,
        a.description == b.description,
    ensures
        parent_lines(a.parents) == parent_lines(b.parents),
{
    crate::text::utf8_injective(commit_text(a), commit_text(b));
    let head = "tree "@ + hex(a.tree@) + "\n"@;
    let tail = ("author "@ + a.author + "\n"@) + ("committer "@ + a.committer + "\n\n"@)
        + a.description;
    let x = parent_lines(a.parents);
    let y = parent_lines(b.parents);
    assert(commit_text(a) =~= head + x + tail);
    assert(commit_text(b) =~= head + y + tail);
    assert((head + x + tail).len() == head.len() + x.len() + tail.len());
    assert((head + y + tail).len() == head.len() + y.len() + tail.len());
    assert(x =~= commit_text(a).subrange(head.len() as int, (head.len() + x.len()) as int));
    assert(y =~= commit_text(b).subrange(head.len() as int, (head.len() + y.len()) as int));
}

} // verus!
