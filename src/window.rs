//! Naming of the window that shows one repository.

use vstd::prelude::*;
use crate::refs::detached_label;
use crate::text::{chars_of, push_char, push_chars, push_str};

verus! {

/// What `urlencoding::encode` gives for `s`.
pub uninterp spec fn url_encoded(s: Seq<char>) -> Seq<char>;

/// A character that percent-encoding leaves as it is.
pub open spec fn is_unreserved(c: char) -> bool {
    ('0' <= c && c <= '9') || ('A' <= c && c <= 'Z') || ('a' <= c && c <= 'z') || c == '-' || c == '_'
        || c == '.' || c == '~'
}

/// Relies on `urlencoding::encode`: percent-encodes every byte of the UTF-8
/// form of `s` except ASCII letters, digits and `-`, `_`, `.`, `~`, so a
/// string made only of those comes back as it is.
#[verifier::external_body]
fn encode_component(s: &str) -> (r: String)
    ensures
        r@ == url_encoded(s@),
        (forall|i: int| 0 <= i < s@.len() ==> is_unreserved(#[trigger] s@[i])) ==> r@ == s@,
{
    urlencoding::encode(s).into_owned()
}

/// A path character that a window label replaces by `-`.
pub open spec fn is_label_separator(c: char) -> bool {
    c == '/' || c == '\\' || c == ':' || c == ' '
}

pub open spec fn label_char(c: char) -> char {
    if is_label_separator(c) {
        '-'
    } else {
        c
    }
}

/// The label of the window of the repository at `path`.
pub open spec fn window_label_of(path: Seq<char>) -> Seq<char> {
    "repo-"@ + path.map_values(|c: char| label_char(c))
}

/// Labels the window of the repository at `path`: `repo-` and the path with
/// separators, colons and spaces turned into `-`.
pub fn window_label(path: &str) -> (r: String)
    ensures
        r@ == window_label_of(path@),
{
    let cs = chars_of(path);
    let mut r = String::new();
    push_str(&mut r, "repo-");
    let ghost head = r@;
    let mut i: usize = 0;
    while i < cs.len()
        invariant
            i <= cs@.len(),
            cs@ == path@,
            head == "repo-"@,
            r@ == head + cs@.take(i as int).map_values(|c: char| label_char(c)),
        decreases cs@.len() - i,
    {
        let c = cs[i];
        if c == '/' || c == '\\' || c == ':' || c == ' ' {
            push_char(&mut r, '-');
        } else {
            push_char(&mut r, c);
        }
        assert(cs@.take(i + 1).map_values(|c: char| label_char(c)) =~= cs@.take(i as int).map_values(
            |c: char| label_char(c),
        ).push(label_char(c)));
        i = i + 1;
    }
    assert(cs@.take(cs@.len() as int) =~= cs@);
    r
}

/// The part of `path` after its last `/` or `\`.
pub open spec fn last_segment(path: Seq<char>) -> Seq<char>
    decreases path.len(),
{
    if path.len() == 0 {
        path
    } else if path.last() == '/' || path.last() == '\\' {
        seq![]
    } else {
        last_segment(path.drop_last()).push(path.last())
    }
}

/// The name a repository is shown by: the last component of its path.
pub fn repo_display_name(path: &str) -> (r: String)
    ensures
        r@ == last_segment(path@),
{
    let cs = chars_of(path);
    let mut start: usize = 0;
    let mut i: usize = 0;
    while i < cs.len()
        invariant
            i <= cs@.len(),
            start <= i,
            cs@ == path@,
            last_segment(cs@.take(i as int)) == cs@.subrange(start as int, i as int),
        decreases cs@.len() - i,
    {
        assert(cs@.take(i + 1).drop_last() =~= cs@.take(i as int));
        if cs[i] == '/' || cs[i] == '\\' {
            start = i + 1;
            assert(cs@.subrange(start as int, i + 1) =~= Seq::<char>::empty());
        } else {
            assert(cs@.subrange(start as int, i + 1) =~= cs@.subrange(start as int, i as int).push(cs@[i as int]));
        }
        i = i + 1;
    }
    assert(cs@.take(cs@.len() as int) =~= cs@);
    let mut r = String::new();
    push_chars(&mut r, &cs, start, cs.len());
    assert(r@ =~= last_segment(path@));
    r
}

/// The name of the current branch shown in a window title: the detached
/// label when HEAD is detached, else HEAD's short name, else `unknown`.
pub open spec fn branch_label_of(detached: bool, head: Option<&str>) -> Seq<char> {
    if detached {
        detached_label()
    } else if head is Some {
        head->0@
    } else {
        "unknown"@
    }
}

/// Names the current branch for a window title.
pub fn branch_label(detached: bool, head: Option<&str>) -> (r: String)
    ensures
        r@ == branch_label_of(detached, head),
{
    let mut r = String::new();
    if detached {
        push_str(&mut r, "HEAD (detached)");
    } else {
        match head {
            Some(h) => push_str(&mut r, h),
            None => push_str(&mut r, "unknown"),
        }
    }
    assert(r@ =~= branch_label_of(detached, head));
    r
}

/// The title of a repository window.
pub open spec fn window_title_of(repo_name: Seq<char>, branch: Seq<char>) -> Seq<char> {
    "GitX-Tauri - "@ + repo_name + " ["@ + branch + "]"@
}

/// Titles the window of a repository: the application, the repository's
/// name and the current branch.
pub fn window_title(repo_name: &str, branch: &str) -> (r: String)
    ensures
        r@ == window_title_of(repo_name@, branch@),
{
    let mut r = String::new();
    push_str(&mut r, "GitX-Tauri - ");
    push_str(&mut r, repo_name);
    push_str(&mut r, " [");
    push_str(&mut r, branch);
    push_str(&mut r, "]");
    assert(r@ =~= window_title_of(repo_name@, branch@));
    r
}

/// The front-end address that opens the repository whose path, already
/// percent-encoded, is `encoded_path`.
pub fn url_with_path(encoded_path: &str) -> (r: String)
    ensures
        r@ == "/?path="@ + encoded_path@,
{
    let mut r = String::new();
    push_str(&mut r, "/?path=");
    push_str(&mut r, encoded_path);
    assert(r@ =~= "/?path="@ + encoded_path@);
    r
}

/// The front-end address that opens the repository at `path`.
pub fn window_url(path: &str) -> (r: String)
    ensures
        r@ == "/?path="@ + url_encoded(path@),
{
    let enc = encode_component(path);
    url_with_path(enc.as_str())
}

} // verus!
