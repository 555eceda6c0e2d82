//! What a `.kiki-redirections` file names.
use vstd::prelude::*;
use crate::vfs::rules::{
    gitignore_verdict, lemma_line_end, line_end, line_path, lossy_text, matchable, paths_from,
    redirection_paths, rules_ignore, trim, trim_end, trim_slashes, white_space,
};

verus! {

/// White space is what Unicode has as such: the tab, the line ends and the blanks.
pub proof fn white_space_is_unicode_white_space(c: char)
    ensures
        white_space(c) <==> c == ' ' || ('\t' <= c && c <= '\r') || c == '\u{85}' || c == '\u{a0}'
            || c == '\u{1680}' || ('\u{2000}' <= c && c <= '\u{200a}') || c == '\u{2028}' || c
            == '\u{2029}' || c == '\u{202f}' || c == '\u{205f}' || c == '\u{3000}',
{
}

/// All characters are white space.
pub open spec fn blank(s: Seq<char>) -> bool {
    forall|i: int| 0 <= i < s.len() ==> white_space(#[trigger] s[i])
}

/// A file names what its text does; the rules of a file ignore a path that can be
/// matched exactly if they say so of it, and without rules nothing is ignored.
pub proof fn rule_files_say_what_their_text_says(content: Seq<u8>, path: Seq<char>)
    ensures
        redirection_paths(content) == paths_from(lossy_text(content), 0),
        !rules_ignore(None, path),
        rules_ignore(Some(content), path) <==> path.len() > 0 && matchable(path)
            && gitignore_verdict(content, path) == Some(true),
{
}

/// All characters are slashes.
pub open spec fn only_slashes(s: Seq<char>) -> bool {
    forall|i: int| 0 <= i < s.len() ==> #[trigger] s[i] == '/'
}

/// Text that neither begins nor ends with white space.
pub open spec fn trimmed(s: Seq<char>) -> bool {
    s.len() == 0 || (!white_space(s[0]) && !white_space(s.last()))
}

proof fn lemma_trim_end(core: Seq<char>, behind: Seq<char>)
    requires
        blank(behind),
        core.len() == 0 || !white_space(core.last()),
    ensures
        trim_end(core + behind) == core,
    decreases behind.len(),
{
    let s = core + behind;
    if behind.len() == 0 {
        assert(s =~= core);
    } else {
        assert(white_space(behind[behind.len() - 1]));
        assert(s.last() == behind.last());
        assert(s.drop_last() =~= core + behind.drop_last());
        assert(blank(behind.drop_last())) by {
            assert forall|i: int| 0 <= i < behind.len() - 1 implies white_space(
                #[trigger] behind.drop_last()[i],
            ) by {
                assert(white_space(behind[i]));
            }
        }
        lemma_trim_end(core, behind.drop_last());
    }
}

/// White space at both ends of a text is taken off, and nothing else.
pub proof fn trimming_takes_white_space_off(front: Seq<char>, core: Seq<char>, behind: Seq<char>)
    requires
        blank(front),
        trimmed(core),
        blank(behind),
    ensures
        trim(front + core + behind) == core,
    decreases front.len(),
{
    let s = front + core + behind;
    if front.len() == 0 {
        assert(s =~= core + behind);
        if core.len() == 0 {
            lemma_trim_blank(behind);
            assert(s =~= behind);
            assert(core =~= Seq::<char>::empty());
        } else {
            assert(s[0] == core[0]);
            lemma_trim_end(core, behind);
        }
    } else {
        assert(white_space(front[0]));
        assert(s[0] == front[0]);
        assert(s.drop_first() =~= front.drop_first() + core + behind);
        assert(blank(front.drop_first())) by {
            assert forall|i: int| 0 <= i < front.len() - 1 implies white_space(
                #[trigger] front.drop_first()[i],
            ) by {
                assert(white_space(front[i + 1]));
            }
        }
        trimming_takes_white_space_off(front.drop_first(), core, behind);
    }
}

proof fn lemma_trim_blank(s: Seq<char>)
    requires
        blank(s),
    ensures
        trim(s) == Seq::<char>::empty(),
    decreases s.len(),
{
    if s.len() > 0 {
        assert(white_space(s[0]));
        assert(blank(s.drop_first())) by {
            assert forall|i: int| 0 <= i < s.len() - 1 implies white_space(
                #[trigger] s.drop_first()[i],
            ) by {
                assert(white_space(s[i + 1]));
            }
        }
        lemma_trim_blank(s.drop_first());
    } else {
        assert(s =~= Seq::<char>::empty());
    }
}

/// Slashes at the end of a text are taken off, and nothing else.
pub proof fn slashes_at_the_end_are_taken_off(core: Seq<char>, behind: Seq<char>)
    requires
        only_slashes(behind),
        core.len() == 0 || core.last() != '/',
    ensures
        trim_slashes(core + behind) == core,
    decreases behind.len(),
{
    let s = core + behind;
    if behind.len() == 0 {
        assert(s =~= core);
    } else {
        assert(behind[behind.len() - 1] == '/');
        assert(s.last() == '/');
        assert(s.drop_last() =~= core + behind.drop_last());
        assert(only_slashes(behind.drop_last())) by {
            assert forall|i: int| 0 <= i < behind.len() - 1 implies #[trigger] behind.drop_last()[i]
                == '/' by {
                assert(behind[i] == '/');
            }
        }
        slashes_at_the_end_are_taken_off(core, behind.drop_last());
    }
}

/// A line names the path between its white space, without the slashes at its end. A
/// line of white space alone names nothing, and neither does a comment.
pub proof fn a_line_names_its_path(
    front: Seq<char>,
    path: Seq<char>,
    slashes: Seq<char>,
    behind: Seq<char>,
)
    requires
        blank(front),
        only_slashes(slashes),
        blank(behind),
        trimmed(path + slashes),
        path.len() == 0 || path.last() != '/',
    ensures
        line_path(front + (path + slashes) + behind) == if (path + slashes).len() == 0 || (path
            + slashes)[0] == '#' {
            None
        } else {
            Some(path)
        },
{
    let core = path + slashes;
    trimming_takes_white_space_off(front, core, behind);
    slashes_at_the_end_are_taken_off(path, slashes);
}

proof fn lemma_line_end_shift(front: Seq<char>, text: Seq<char>, from: int)
    requires
        0 <= from <= text.len(),
    ensures
        line_end(front + text, front.len() + from) == front.len() + line_end(text, from),
    decreases text.len() - from,
{
    let all = front + text;
    if from < text.len() {
        assert(all[front.len() + from] == text[from]);
        if text[from] != '\n' {
            lemma_line_end_shift(front, text, from + 1);
        }
    }
}

proof fn lemma_paths_shift(front: Seq<char>, text: Seq<char>, from: int)
    requires
        0 <= from <= text.len() + 1,
    ensures
        paths_from(front + text, front.len() + from) == paths_from(text, from),
    decreases text.len() + 1 - from,
{
    let all = front + text;
    if from < text.len() {
        lemma_line_end_shift(front, text, from);
        lemma_line_end(text, from);
        let end = line_end(text, from);
        lemma_paths_shift(front, text, end + 1);
        assert(all.subrange(front.len() + from, front.len() + end) =~= text.subrange(from, end));
    }
}

proof fn lemma_line_ends(line: Seq<char>, rest: Seq<char>, from: int)
    requires
        0 <= from <= line.len(),
        !line.contains('\n'),
        rest.len() > 0 ==> rest[0] == '\n',
    ensures
        line_end(line + rest, from) == line.len(),
    decreases line.len() - from,
{
    let all = line + rest;
    if from < line.len() {
        assert(line.contains(line[from]));
        assert(all[from] == line[from]);
        lemma_line_ends(line, rest, from + 1);
    } else if rest.len() > 0 {
        assert(all[from] == rest[0]);
    }
}

/// A text names what its first line names, and then what the rest names; a last line
/// needs no end.
pub proof fn a_text_names_line_by_line(line: Seq<char>, rest: Seq<char>)
    requires
        !line.contains('\n'),
    ensures
        paths_from(line + seq!['\n'] + rest, 0) == (match line_path(line) {
            Some(path) => seq![path],
            None => Seq::<Seq<char>>::empty(),
        }) + paths_from(rest, 0),
        paths_from(line, 0) == match line_path(line) {
            Some(path) => seq![path],
            None => Seq::<Seq<char>>::empty(),
        },
{
    let tail = seq!['\n'] + rest;
    let all = line + seq!['\n'] + rest;
    assert(all =~= line + tail);
    assert(tail[0] == '\n');
    lemma_line_ends(line, tail, 0);
    assert(all.subrange(0, line.len() as int) =~= line);
    let front = line + seq!['\n'];
    assert(all =~= front + rest);
    lemma_paths_shift(front, rest, 0);
    let first = match line_path(line) {
        Some(path) => seq![path],
        None => Seq::<Seq<char>>::empty(),
    };
    let more = paths_from(rest, 0);
    assert(Seq::<Seq<char>>::empty() + more =~= more);
    let none = Seq::<char>::empty();
    lemma_line_ends(line, none, 0);
    assert(line + none =~= line);
    assert(line.subrange(0, line.len() as int) =~= line);
    assert(paths_from(line, line.len() as int + 1) == Seq::<Seq<char>>::empty());
    if line.len() == 0 {
        assert(line_path(line) is None) by {
            assert(trim(line) =~= line);
        }
    } else {
        if let Some(path) = line_path(line) {
            assert(seq![path] + Seq::<Seq<char>>::empty() =~= seq![path]);
        }
    }
}

} // verus!
