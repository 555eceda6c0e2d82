//! The rule files of a working copy: `.gitignore` and `.kiki-redirections`.
use std::path::Path;
use jj_lib::gitignore::GitIgnoreFile;
use vstd::prelude::*;
use vstd::utf8::{decode_utf8, valid_utf8};

verus! {

broadcast use vstd::string::group_string_axioms;

/// What the ignore rules of a `.gitignore` file say of a path, or nothing where
/// the file is not a valid rule file.
pub uninterp spec fn gitignore_verdict(rules: Seq<u8>, path: Seq<char>) -> Option<bool>;

/// A path that can be matched against ignore rules: behind an optional `./` it
/// does not begin with two slashes.
pub open spec fn matchable(path: Seq<char>) -> bool {
    let p = if path.len() >= 2 && path[0] == '.' && path[1] == '/' {
        path.skip(2)
    } else {
        path
    };
    !(p.len() >= 2 && p[0] == '/' && p[1] == '/')
}

/// Calls `jj_lib::gitignore::GitIgnoreFile::empty`, `chain` and `matches`.
///
/// Claimed of them: the verdict depends on the bytes of the file and on the
/// path alone. A path that ends in a slash is matched as a directory. What the
/// verdict is on given rules is not stated.
#[verifier::external_body]
fn match_gitignore(rules: &[u8], path: &str) -> (r: Option<bool>)
    requires
        matchable(path@),
    ensures
        r == gitignore_verdict(rules@, path@),
{
    match GitIgnoreFile::empty().chain("", Path::new(".gitignore"), rules) {
        Ok(file) => Some(file.matches(path)),
        Err(_) => None,
    }
}

/// Whether the rules ignore a path. Without rules, with rules that are not
/// valid, and for the empty path the answer is no.
pub open spec fn rules_ignore(rules: Option<Seq<u8>>, path: Seq<char>) -> bool {
    &&& path.len() > 0
    &&& matchable(path)
    &&& rules matches Some(file) && gitignore_verdict(file, path) == Some(true)
}

/// Whether the rules ignore a path.
pub fn is_ignored_by(rules: &Option<Vec<u8>>, path: &str) -> (r: bool)
    ensures
        r == rules_ignore(
            match rules {
                Some(file) => Some(file@),
                None => None,
            },
            path@,
        ),
{
    let n: usize = path.unicode_len();
    if n == 0 {
        return false;
    }
    let from: usize = if n >= 2 && path.get_char(0) == '.' && path.get_char(1) == '/' {
        2
    } else {
        0
    };
    if n - from >= 2 && path.get_char(from) == '/' && path.get_char(from + 1) == '/' {
        return false;
    }
    match rules {
        Some(file) => match match_gitignore(file.as_slice(), path) {
            Some(verdict) => verdict,
            None => false,
        },
        None => false,
    }
}

/// The text that bytes stand for, with a mark in place of what is not UTF-8.
pub uninterp spec fn lossy_text(bytes: Seq<u8>) -> Seq<char>;

/// Calls `String::from_utf8_lossy`.
///
/// Claimed of it: the text depends on the bytes alone, and well-formed UTF-8
/// gives what it encodes. How other bytes are marked is not stated.
#[verifier::external_body]
pub(crate) fn text_of(bytes: &[u8]) -> (s: String)
    ensures
        s@ == lossy_text(bytes@),
        valid_utf8(bytes@) ==> s@ == decode_utf8(bytes@),
{
    String::from_utf8_lossy(bytes).into_owned()
}

/// The character is white space, as Unicode has it.
pub open spec fn white_space(c: char) -> bool {
    let n = c as u32;
    ||| 0x9 <= n <= 0xd
    ||| n == 0x20
    ||| n == 0x85
    ||| n == 0xa0
    ||| n == 0x1680
    ||| 0x2000 <= n <= 0x200a
    ||| n == 0x2028
    ||| n == 0x2029
    ||| n == 0x202f
    ||| n == 0x205f
    ||| n == 0x3000
}

/// Whether a character is white space, as Unicode has it.
pub fn is_white_space(c: char) -> (r: bool)
    ensures
        r == white_space(c),
{
    let n: u32 = c as u32;
    (0x9 <= n && n <= 0xd) || n == 0x20 || n == 0x85 || n == 0xa0 || n == 0x1680 || (0x2000 <= n
        && n <= 0x200a) || n == 0x2028 || n == 0x2029 || n == 0x202f || n == 0x205f || n == 0x3000
}

/// Text without the white space at its end.
pub open spec fn trim_end(s: Seq<char>) -> Seq<char>
    decreases s.len(),
{
    if s.len() > 0 && white_space(s.last()) {
        trim_end(s.drop_last())
    } else {
        s
    }
}

/// Text without the white space at its ends.
pub open spec fn trim(s: Seq<char>) -> Seq<char>
    decreases s.len(),
{
    if s.len() > 0 && white_space(s[0]) {
        trim(s.drop_first())
    } else {
        trim_end(s)
    }
}

/// Text without the slashes at its end.
pub open spec fn trim_slashes(s: Seq<char>) -> Seq<char>
    decreases s.len(),
{
    if s.len() > 0 && s.last() == '/' {
        trim_slashes(s.drop_last())
    } else {
        s
    }
}

/// The path that a line names, unless it is blank or a comment.
pub open spec fn line_path(line: Seq<char>) -> Option<Seq<char>> {
    let l = trim(line);
    if l.len() == 0 || l[0] == '#' {
        None
    } else {
        Some(trim_slashes(l))
    }
}

/// The position of the first newline at or behind `from`, or the end.
pub open spec fn line_end(text: Seq<char>, from: int) -> int
    decreases text.len() - from,
{
    if from >= text.len() || text[from] == '\n' {
        from
    } else {
        line_end(text, from + 1)
    }
}

/// The paths that the lines from `from` on name, in order.
pub open spec fn paths_from(text: Seq<char>, from: int) -> Seq<Seq<char>>
    decreases text.len() + 1 - from,
    when from >= 0
    via paths_from_decreases
{
    if from >= text.len() {
        seq![]
    } else {
        let end = line_end(text, from);
        let rest = paths_from(text, end + 1);
        match line_path(text.subrange(from, end)) {
            Some(path) => seq![path] + rest,
            None => rest,
        }
    }
}

#[via_fn]
proof fn paths_from_decreases(text: Seq<char>, from: int) {
    if from < text.len() {
        lemma_line_end(text, from);
    }
}

pub proof fn lemma_line_end(text: Seq<char>, from: int)
    requires
        0 <= from <= text.len(),
    ensures
        from <= line_end(text, from) <= text.len(),
    decreases text.len() - from,
{
    if from < text.len() && text[from] != '\n' {
        lemma_line_end(text, from + 1);
    }
}

/// The paths that a `.kiki-redirections` file names: one per line, without
/// blank lines and comments.
pub open spec fn redirection_paths(content: Seq<u8>) -> Seq<Seq<char>> {
    paths_from(lossy_text(content), 0)
}

fn chars_of(s: &str) -> (v: Vec<char>)
    ensures
        v@ == s@,
{
    let mut v: Vec<char> = Vec::new();
    for c in it: s.chars()
        invariant
            it.seq() == s@,
            v@ == s@.take(it.index() as int),
    {
        v.push(c);
        assert(v@ =~= s@.take(it.index() + 1));
    }
    assert(s@.take(s@.len() as int) =~= s@);
    v
}

/// The part of `chars[from..to]` without the white space at its ends.
fn trim_range(chars: &Vec<char>, from: usize, to: usize) -> (r: (usize, usize))
    requires
        from <= to <= chars@.len(),
    ensures
        from <= r.0 <= r.1 <= to,
        chars@.subrange(r.0 as int, r.1 as int) == trim(chars@.subrange(from as int, to as int)),
{
    let mut a: usize = from;
    while a < to && is_white_space(chars[a])
        invariant
            from <= a <= to <= chars@.len(),
            trim(chars@.subrange(a as int, to as int)) == trim(
                chars@.subrange(from as int, to as int),
            ),
        decreases to - a,
    {
        assert(chars@.subrange(a as int, to as int).drop_first() =~= chars@.subrange(
            a + 1,
            to as int,
        ));
        assert(chars@.subrange(a as int, to as int)[0] == chars@[a as int]);
        a = a + 1;
    }
    let mut b: usize = to;
    proof {
        let s = chars@.subrange(a as int, to as int);
        if a < to {
            assert(s[0] == chars@[a as int]);
        }
    }
    while b > a && is_white_space(chars[b - 1])
        invariant
            from <= a <= b <= to <= chars@.len(),
            trim_end(chars@.subrange(a as int, b as int)) == trim(
                chars@.subrange(from as int, to as int),
            ),
        decreases b - a,
    {
        assert(chars@.subrange(a as int, b as int).drop_last() =~= chars@.subrange(
            a as int,
            b - 1,
        ));
        b = b - 1;
    }
    (a, b)
}

/// The paths that a text names: one per line, `#` comments, blank lines skipped.
pub fn redirections_in(text: &str) -> (out: Vec<String>)
    ensures
        out@.map_values(|s: String| s@) == paths_from(text@, 0),
{
    let chars = chars_of(text);
    let mut out: Vec<String> = Vec::new();
    let ghost t = text@;
    assert(out@.map_values(|s: String| s@) =~= seq![]);
    assert(seq![] + paths_from(t, 0) =~= paths_from(t, 0));
    let mut from: usize = 0;
    while from < chars.len()
        invariant
            from <= chars@.len(),
            chars@ == t,
            text@ == t,
            out@.map_values(|s: String| s@) + paths_from(t, from as int) == paths_from(t, 0),
        decreases chars@.len() - from,
    {
        let mut end: usize = from;
        while end < chars.len() && chars[end] != '\n'
            invariant
                from <= end <= chars@.len(),
                chars@ == t,
                line_end(t, end as int) == line_end(t, from as int),
            decreases chars@.len() - end,
        {
            end = end + 1;
        }
        let (a, b) = trim_range(&chars, from, end);
        let ghost line = t.subrange(from as int, end as int);
        let ghost rest = paths_from(t, end + 1);
        let ghost before = out@.map_values(|s: String| s@);
        if a < b && chars[a] != '#' {
            let mut e: usize = b;
            assert(t.subrange(a as int, b as int)[0] == t[a as int]);
            while e > a && chars[e - 1] == '/'
                invariant
                    a <= e <= b <= chars@.len(),
                    chars@ == t,
                    trim_slashes(t.subrange(a as int, e as int)) == trim_slashes(
                        t.subrange(a as int, b as int),
                    ),
                decreases e - a,
            {
                assert(t.subrange(a as int, e as int).drop_last() =~= t.subrange(a as int, e - 1));
                e = e - 1;
            }
            let path = text.substring_char(a, e).to_owned();
            let ghost value = path@;
            out.push(path);
            proof {
                assert(line_path(line) == Some(value));
                assert(out@.map_values(|s: String| s@) =~= before.push(value));
                assert(before.push(value) + rest =~= before + (seq![value] + rest));
            }
        } else {
            proof {
                if a < b {
                    assert(t.subrange(a as int, b as int)[0] == t[a as int]);
                }
                assert(line_path(line) is None);
            }
        }
        if end < chars.len() {
            from = end + 1;
        } else {
            assert(paths_from(t, end + 1) == paths_from(t, end as int));
            from = end;
        }
    }
    assert(out@.map_values(|s: String| s@) + Seq::<Seq<char>>::empty() =~= out@.map_values(
        |s: String| s@,
    ));
    out
}

/// Read a `.kiki-redirections` file: one path per line, `#` comments, blank
/// lines skipped.
pub fn parse_redirections(content: &[u8]) -> (out: Vec<String>)
    ensures
        out@.map_values(|s: String| s@) == redirection_paths(content@),
        valid_utf8(content@) ==> out@.map_values(|s: String| s@) == paths_from(
            decode_utf8(content@),
            0,
        ),
{
    redirections_in(text_of(content).as_str())
}

} // verus!
