//! Text of patches: splitting a diff into lines, cutting a single-hunk patch
//! out of a file diff, the diff of an untracked file, and ignore-file edits.

use vstd::prelude::*;
use crate::text::{chars_of, decimal, push_char, push_chars, push_decimal, push_str};

verus! {

/// `l` without one trailing carriage return.
pub open spec fn strip_cr(l: Seq<char>) -> Seq<char> {
    if l.len() > 0 && l.last() == '\r' {
        l.drop_last()
    } else {
        l
    }
}

/// The lines of `s`, where `cur` is the part of a line already read: each
/// line ends at a line feed (a carriage return before it is dropped) and a
/// last line without a line feed counts when it is not empty.
pub open spec fn lines_acc(s: Seq<char>, cur: Seq<char>) -> Seq<Seq<char>>
    decreases s.len(),
{
    if s.len() == 0 {
        if cur.len() == 0 {
            seq![]
        } else {
            seq![cur]
        }
    } else if s[0] == '\n' {
        seq![strip_cr(cur)] + lines_acc(s.drop_first(), seq![])
    } else {
        lines_acc(s.drop_first(), cur.push(s[0]))
    }
}

/// The lines of `s`.
pub open spec fn lines_of(s: Seq<char>) -> Seq<Seq<char>> {
    lines_acc(s, seq![])
}

pub open spec fn views(v: Seq<String>) -> Seq<Seq<char>> {
    v.map_values(|s: String| s@)
}

/// Splits `s` into its lines.
pub fn split_lines(s: &str) -> (r: Vec<String>)
    ensures
        views(r@) == lines_of(s@),
{
    let cs = chars_of(s);
    let n = cs.len();
    let mut r: Vec<String> = Vec::new();
    let mut start: usize = 0;
    let mut i: usize = 0;
    assert(cs@.subrange(0, n as int) =~= s@);
    assert(cs@.subrange(0, 0) =~= Seq::<char>::empty());
    assert(views(r@) + lines_of(s@) =~= lines_of(s@));
    while i < n
        invariant
            n == cs@.len(),
            cs@ == s@,
            start <= i <= n,
            views(r@) + lines_acc(cs@.subrange(i as int, n as int), cs@.subrange(start as int, i as int))
                == lines_of(s@),
        decreases n - i,
    {
        let ghost rest = cs@.subrange(i as int, n as int);
        let ghost cur = cs@.subrange(start as int, i as int);
        assert(rest.drop_first() =~= cs@.subrange(i + 1, n as int));
        assert(rest[0] == cs@[i as int]);
        if cs[i] == '\n' {
            let mut end = i;
            if end > start && cs[end - 1] == '\r' {
                end = end - 1;
            }
            let mut line = String::new();
            push_chars(&mut line, &cs, start, end);
            assert(line@ =~= strip_cr(cur));
            let ghost before = views(r@);
            r.push(line);
            assert(views(r@) =~= before.push(strip_cr(cur)));
            start = i + 1;
            assert(cs@.subrange(start as int, (i + 1) as int) =~= Seq::<char>::empty());
            assert(views(r@) + lines_acc(cs@.subrange(i + 1, n as int), Seq::<char>::empty())
                =~= before + lines_acc(rest, cur));
        } else {
            assert(cur.push(cs@[i as int]) =~= cs@.subrange(start as int, i + 1));
        }
        i = i + 1;
    }
    assert(cs@.subrange(n as int, n as int) =~= Seq::<char>::empty());
    if start < n {
        let mut line = String::new();
        push_chars(&mut line, &cs, start, n);
        let ghost before = views(r@);
        r.push(line);
        assert(views(r@) =~= before + seq![cs@.subrange(start as int, n as int)]);
    } else {
        assert(views(r@) =~= views(r@) + Seq::<Seq<char>>::empty());
    }
    r
}

/// The lines of `ls` joined by line feeds.
pub open spec fn join_nl(ls: Seq<Seq<char>>) -> Seq<char>
    decreases ls.len(),
{
    if ls.len() == 0 {
        seq![]
    } else if ls.len() == 1 {
        ls[0]
    } else {
        join_nl(ls.drop_last()) + seq!['\n'] + ls.last()
    }
}

/// At most the first `n` items of `ls`.
pub open spec fn first_n<A>(ls: Seq<A>, n: nat) -> Seq<A> {
    if ls.len() <= n {
        ls
    } else {
        ls.take(n as int)
    }
}

/// The number of lines of a file diff's header.
pub const DIFF_HEADER_LINES: usize = 4;

/// The patch that applies one hunk of a file diff: the diff's header lines,
/// the hunk header and the hunk's lines, each closed by a line feed.
pub open spec fn hunk_patch_text(full_diff: Seq<char>, hunk_header: Seq<char>, hunk_lines: Seq<char>) -> Seq<char> {
    join_nl(first_n(lines_of(full_diff), DIFF_HEADER_LINES as nat)) + seq!['\n'] + hunk_header + seq!['\n']
        + hunk_lines + seq!['\n']
}

/// Builds the patch that stages, unstages or discards one hunk.
pub fn hunk_patch(full_diff: &str, hunk_header: &str, hunk_lines: &str) -> (r: String)
    ensures
        r@ == hunk_patch_text(full_diff@, hunk_header@, hunk_lines@),
{
    let ls = split_lines(full_diff);
    let m = if ls.len() < DIFF_HEADER_LINES {
        ls.len()
    } else {
        DIFF_HEADER_LINES
    };
    let ghost head = first_n(views(ls@), DIFF_HEADER_LINES as nat);
    assert(head.len() == m);
    let mut r = String::new();
    let mut i: usize = 0;
    while i < m
        invariant
            i <= m <= ls@.len(),
            head.len() == m,
            forall|j: int| 0 <= j < m ==> #[trigger] head[j] == ls@[j]@,
            r@ == join_nl(head.take(i as int)),
        decreases m - i,
    {
        if i > 0 {
            push_char(&mut r, '\n');
        }
        push_str(&mut r, ls[i].as_str());
        assert(head.take(i + 1).drop_last() =~= head.take(i as int));
        i = i + 1;
    }
    assert(head.take(m as int) =~= head);
    push_char(&mut r, '\n');
    push_str(&mut r, hunk_header);
    push_char(&mut r, '\n');
    push_str(&mut r, hunk_lines);
    push_char(&mut r, '\n');
    assert(r@ =~= hunk_patch_text(full_diff@, hunk_header@, hunk_lines@));
    r
}

/// An ignore file's text with `entry` added as a line of its own.
pub open spec fn with_ignore_entry(content: Seq<char>, entry: Seq<char>) -> Seq<char> {
    let base = if content.len() > 0 && content.last() != '\n' {
        content.push('\n')
    } else {
        content
    };
    base + entry + seq!['\n']
}

/// Adds `entry` as a line of its own to the text of an ignore file, closing
/// an unterminated last line first.
pub fn add_ignore_entry(content: &str, entry: &str) -> (r: String)
    ensures
        r@ == with_ignore_entry(content@, entry@),
{
    let cs = chars_of(content);
    let mut r = String::new();
    push_str(&mut r, content);
    if cs.len() > 0 && cs[cs.len() - 1] != '\n' {
        push_char(&mut r, '\n');
    }
    push_str(&mut r, entry);
    push_char(&mut r, '\n');
    r
}

/// Each line of `ls` as an added line: a plus sign, the line, a line feed.
pub open spec fn added_lines(ls: Seq<Seq<char>>) -> Seq<char>
    decreases ls.len(),
{
    if ls.len() == 0 {
        seq![]
    } else {
        added_lines(ls.drop_last()) + seq!['+'] + ls.last() + seq!['\n']
    }
}

/// The diff of a file that is not tracked yet: one hunk that adds all its lines.
pub open spec fn untracked_diff_text(content: Seq<char>) -> Seq<char> {
    "@@ -0,0 +1,"@ + decimal(lines_of(content).len()) + " @@\n"@ + added_lines(lines_of(content))
}

/// The diff that shows the whole of an untracked file as added.
pub fn untracked_diff(content: &str) -> (r: String)
    ensures
        r@ == untracked_diff_text(content@),
{
    let ls = split_lines(content);
    let mut r = String::new();
    push_str(&mut r, "@@ -0,0 +1,");
    push_decimal(&mut r, ls.len() as u64);
    push_str(&mut r, " @@\n");
    let ghost head = r@;
    let ghost all = views(ls@);
    let mut i: usize = 0;
    while i < ls.len()
        invariant
            i <= ls@.len(),
            all == views(ls@),
            r@ == head + added_lines(all.take(i as int)),
        decreases ls@.len() - i,
    {
        push_char(&mut r, '+');
        push_str(&mut r, ls[i].as_str());
        push_char(&mut r, '\n');
        assert(all.take(i + 1).drop_last() =~= all.take(i as int));
        assert(r@ =~= head + added_lines(all.take(i + 1)));
        i = i + 1;
    }
    assert(all.take(ls@.len() as int) =~= all);
    r
}

/// How a line of a printed diff reads: added, removed and context lines keep
/// their marker in front of the content; other lines are the content alone.
pub open spec fn printed_line(origin: char, content: Seq<char>) -> Seq<char> {
    if origin == '+' || origin == '-' || origin == ' ' {
        seq![origin] + content
    } else {
        content
    }
}

/// Appends one line of a printed diff to `text`.
pub fn push_printed_line(text: &mut String, origin: char, content: &str)
    ensures
        final(text)@ == old(text)@ + printed_line(origin, content@),
{
    if origin == '+' || origin == '-' || origin == ' ' {
        push_char(text, origin);
    }
    push_str(text, content);
    assert(text@ =~= old(text)@ + printed_line(origin, content@));
}

/// The header of a hunk: `@@ -old_start,old_lines +new_start,new_lines @@`.
pub open spec fn hunk_header_text(old_start: nat, old_lines: nat, new_start: nat, new_lines: nat) -> Seq<char> {
    "@@ -"@ + decimal(old_start) + ","@ + decimal(old_lines) + " +"@ + decimal(new_start) + ","@
        + decimal(new_lines) + " @@"@
}

/// Writes the header of a hunk.
pub fn hunk_header(old_start: u32, old_lines: u32, new_start: u32, new_lines: u32) -> (r: String)
    ensures
        r@ == hunk_header_text(old_start as nat, old_lines as nat, new_start as nat, new_lines as nat),
{
    let mut r = String::new();
    push_str(&mut r, "@@ -");
    push_decimal(&mut r, old_start as u64);
    push_str(&mut r, ",");
    push_decimal(&mut r, old_lines as u64);
    push_str(&mut r, " +");
    push_decimal(&mut r, new_start as u64);
    push_str(&mut r, ",");
    push_decimal(&mut r, new_lines as u64);
    push_str(&mut r, " @@");
    assert(r@ =~= hunk_header_text(old_start as nat, old_lines as nat, new_start as nat, new_lines as nat));
    r
}

/// How many items of `s` equal `c`.
pub open spec fn count_of(s: Seq<char>, c: char) -> nat
    decreases s.len(),
{
    if s.len() == 0 {
        0
    } else {
        count_of(s.drop_last(), c) + if s.last() == c { 1nat } else { 0nat }
    }
}

proof fn lemma_count_le(s: Seq<char>, c: char)
    ensures
        count_of(s, c) <= s.len(),
    decreases s.len(),
{
    if s.len() > 0 {
        lemma_count_le(s.drop_last(), c);
    }
}

/// Counts the added and the removed lines among line markers `origins`.
pub fn count_changes(origins: &Vec<char>) -> (r: (usize, usize))
    ensures
        r.0 == count_of(origins@, '+'),
        r.1 == count_of(origins@, '-'),
{
    let mut adds: usize = 0;
    let mut dels: usize = 0;
    let mut i: usize = 0;
    while i < origins.len()
        invariant
            i <= origins@.len(),
            adds == count_of(origins@.take(i as int), '+'),
            dels == count_of(origins@.take(i as int), '-'),
        decreases origins@.len() - i,
    {
        proof {
            assert(origins@.take(i + 1).drop_last() =~= origins@.take(i as int));
            lemma_count_le(origins@.take(i as int), '+');
            lemma_count_le(origins@.take(i as int), '-');
        }
        if origins[i] == '+' {
            adds = adds + 1;
        } else if origins[i] == '-' {
            dels = dels + 1;
        }
        i = i + 1;
    }
    assert(origins@.take(origins@.len() as int) =~= origins@);
    (adds, dels)
}


/// The kind of change a commit makes to a file.
#[derive(Clone, Copy, Debug, PartialEq, Eq, Structural)]
pub enum DeltaKind {
    Added,
    Deleted,
    Modified,
    Renamed,
    Copied,
    Other,
}

pub open spec fn delta_word(d: DeltaKind) -> Seq<char> {
    match d {
        DeltaKind::Added => "added"@,
        DeltaKind::Deleted => "deleted"@,
        DeltaKind::Modified => "modified"@,
        DeltaKind::Renamed => "renamed"@,
        DeltaKind::Copied => "copied"@,
        DeltaKind::Other => "unknown"@,
    }
}

/// The word the file list of a commit uses for a kind of change.
pub fn delta_status_name(d: DeltaKind) -> (r: String)
    ensures
        r@ == delta_word(d),
{
    let mut r = String::new();
    match d {
        DeltaKind::Added => push_str(&mut r, "added"),
        DeltaKind::Deleted => push_str(&mut r, "deleted"),
        DeltaKind::Modified => push_str(&mut r, "modified"),
        DeltaKind::Renamed => push_str(&mut r, "renamed"),
        DeltaKind::Copied => push_str(&mut r, "copied"),
        DeltaKind::Other => push_str(&mut r, "unknown"),
    }
    assert(r@ =~= delta_word(d));
    r
}

} // verus!
