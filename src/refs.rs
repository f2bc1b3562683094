//! Names of branches, tags and remotes, and where a repository keeps its data.

use vstd::prelude::*;
use crate::model::GitBranch;
use crate::patch::views;
use crate::text::{chars_of, has_prefix, push_chars, push_str, starts_with};

verus! {

/// Relies on `std::path::Path::exists`: whether something is found at `p`.
/// What is on disk decides, so nothing is stated of the answer.
#[verifier::external_body]
fn path_exists(p: &str) -> (r: bool) {
    std::path::Path::new(p).exists()
}

/// The path of the `.git` entry inside directory `path`.
pub open spec fn git_dir_of(path: Seq<char>) -> Seq<char> {
    if path.len() == 0 {
        ".git"@
    } else if path.last() == '/' {
        path + ".git"@
    } else {
        path + "/.git"@
    }
}

/// The path of the `.git` entry inside directory `path`.
pub fn git_dir_path(path: &str) -> (r: String)
    ensures
        r@ == git_dir_of(path@),
{
    let cs = chars_of(path);
    let mut r = String::new();
    push_str(&mut r, path);
    if cs.len() == 0 {
        push_str(&mut r, ".git");
    } else if cs[cs.len() - 1] == '/' {
        push_str(&mut r, ".git");
    } else {
        push_str(&mut r, "/.git");
    }
    r
}

/// Whether `path` holds a `.git` entry, that is, is the top of a work tree.
pub fn is_git_repository(path: &str) -> bool {
    let dir = git_dir_path(path);
    path_exists(dir.as_str())
}

/// `s` without its first `n` characters.
pub open spec fn after(s: Seq<char>, n: int) -> Seq<char> {
    s.subrange(n, s.len() as int)
}

/// The branch names of remote `remote` among the remote-tracking names
/// `names` (each `remote/branch`), without the prefix and without `HEAD`.
pub open spec fn remote_branches_of(remote: Seq<char>, names: Seq<Seq<char>>) -> Seq<Seq<char>>
    decreases names.len(),
{
    if names.len() == 0 {
        seq![]
    } else {
        let prefix = remote.push('/');
        let n = names.last();
        let rest = remote_branches_of(remote, names.drop_last());
        if has_prefix(n, prefix) && after(n, prefix.len() as int) != "HEAD"@ {
            rest.push(after(n, prefix.len() as int))
        } else {
            rest
        }
    }
}

fn is_head_word(s: &Vec<char>, from: usize) -> (r: bool)
    requires
        from <= s@.len(),
    ensures
        r == (after(s@, from as int) == "HEAD"@),
{
    proof {
        reveal_strlit("HEAD");
        assert("HEAD"@.len() == 4 && "HEAD"@[0] == 'H' && "HEAD"@[1] == 'E' && "HEAD"@[2] == 'A' && "HEAD"@[3] == 'D');
    }
    let r = s.len() - from == 4 && s[from] == 'H' && s[from + 1] == 'E' && s[from + 2] == 'A'
        && s[from + 3] == 'D';
    if r {
        assert(after(s@, from as int) =~= "HEAD"@);
    } else if s.len() - from == 4 {
        let ghost a = after(s@, from as int);
        assert(a.len() == 4);
        assert(a[0] == s@[from as int] && a[1] == s@[from + 1] && a[2] == s@[from + 2] && a[3] == s@[from + 3]);
    }
    r
}

/// The branches that remote `remote_name` has, read off the names of the
/// remote-tracking branches.
pub fn remote_branch_names(remote_name: &str, names: &Vec<String>) -> (r: Vec<String>)
    ensures
        r@.map_values(|s: String| s@) == remote_branches_of(remote_name@, names@.map_values(|s: String| s@)),
{
    let mut prefix = chars_of(remote_name);
    prefix.push('/');
    let ghost all = names@.map_values(|s: String| s@);
    let mut r: Vec<String> = Vec::new();
    let mut i: usize = 0;
    while i < names.len()
        invariant
            i <= names@.len(),
            prefix@ == remote_name@.push('/'),
            all == names@.map_values(|s: String| s@),
            r@.map_values(|s: String| s@) == remote_branches_of(remote_name@, all.subrange(0, i as int)),
        decreases names@.len() - i,
    {
        let cs = chars_of(names[i].as_str());
        let ghost before = r@.map_values(|s: String| s@);
        assert(all.subrange(0, i + 1).drop_last() =~= all.subrange(0, i as int));
        if starts_with(&cs, &prefix) && !is_head_word(&cs, prefix.len()) {
            let mut b = String::new();
            push_chars(&mut b, &cs, prefix.len(), cs.len());
            assert(b@ =~= after(cs@, prefix@.len() as int));
            r.push(b);
            assert(r@.map_values(|s: String| s@) =~= before.push(b@));
        }
        i = i + 1;
    }
    assert(all.subrange(0, names@.len() as int) =~= all);
    r
}

/// The tag name in a reference name `refs/tags/<name>`.
pub open spec fn tag_of(refname: Seq<char>) -> Option<Seq<char>> {
    if has_prefix(refname, "refs/tags/"@) {
        Some(after(refname, 10))
    } else {
        None
    }
}

/// The tag that reference `refname` names, if it is a tag reference.
pub fn tag_name(refname: &str) -> (r: Option<String>)
    ensures
        r matches Some(t) ==> tag_of(refname@) == Some(t@),
        r is None ==> tag_of(refname@) is None,
{
    proof {
        reveal_strlit("refs/tags/");
    }
    let cs = chars_of(refname);
    let p = chars_of("refs/tags/");
    assert(p@.len() == 10);
    if starts_with(&cs, &p) {
        let mut t = String::new();
        push_chars(&mut t, &cs, 10, cs.len());
        assert(t@ =~= after(cs@, 10));
        Some(t)
    } else {
        None
    }
}

/// The full name of remote-tracking reference `name` (`refs/remotes/<name>`).
pub fn remote_ref_name(name: &str) -> (r: String)
    ensures
        r@ == "refs/remotes/"@ + name@,
{
    let mut r = String::new();
    push_str(&mut r, "refs/remotes/");
    push_str(&mut r, name);
    assert(r@ =~= "refs/remotes/"@ + name@);
    r
}

/// The full name of tag `name` (`refs/tags/<name>`).
pub fn tag_ref_name(name: &str) -> (r: String)
    ensures
        r@ == "refs/tags/"@ + name@,
{
    let mut r = String::new();
    push_str(&mut r, "refs/tags/");
    push_str(&mut r, name);
    assert(r@ =~= "refs/tags/"@ + name@);
    r
}

/// The label of a detached HEAD in the branch list.
pub open spec fn detached_label() -> Seq<char> {
    "HEAD (detached)"@
}

/// The branch list: a `HEAD (detached)` entry first when HEAD is detached,
/// then the local branches in the order given, the one that HEAD names
/// (when HEAD is not detached) marked as current.
pub fn branch_list(is_detached: bool, head_name: Option<&str>, names: &Vec<String>) -> (r: Vec<GitBranch>)
    ensures
        ({
            let d: int = if is_detached { 1 } else { 0 };
            &&& r@.len() == names@.len() + d
            &&& is_detached ==> r@[0].name@ == detached_label() && r@[0].is_head
            &&& forall|i: int|
                0 <= i < names@.len() ==> (#[trigger] r@[i + d]).name@ == names@[i]@ && r@[i + d].is_head
                    == (!is_detached && head_name is Some && head_name->0@ == names@[i]@)
        }),
{
    let ghost d: int = if is_detached { 1 } else { 0 };
    let mut r: Vec<GitBranch> = Vec::new();
    if is_detached {
        let mut n = String::new();
        push_str(&mut n, "HEAD (detached)");
        assert(n@ =~= detached_label());
        r.push(GitBranch { name: n, is_head: true });
    }
    let mut i: usize = 0;
    while i < names.len()
        invariant
            i <= names@.len(),
            d == (if is_detached { 1int } else { 0 }),
            r@.len() == i + d,
            is_detached ==> r@[0].name@ == detached_label() && r@[0].is_head,
            forall|j: int|
                0 <= j < i ==> (#[trigger] r@[j + d]).name@ == names@[j]@ && r@[j + d].is_head
                    == (!is_detached && head_name is Some && head_name->0@ == names@[j]@),
        decreases names@.len() - i,
    {
        let is_head = match head_name {
            Some(h) => !is_detached && names[i] == h.to_owned(),
            None => false,
        };
        r.push(GitBranch { name: names[i].clone(), is_head });
        i = i + 1;
    }
    r
}


/// What sorting names gives: `String`'s order, that of their bytes.
pub uninterp spec fn sorted_names(v: Seq<Seq<char>>) -> Seq<Seq<char>>;

/// Relies on `slice::sort` over `String`s: the same names, in ascending order.
#[verifier::external_body]
fn sort_names(v: Vec<String>) -> (r: Vec<String>)
    ensures
        views(r@) == sorted_names(views(v@)),
        r@.len() == v@.len(),
{
    let mut v = v;
    v.sort();
    v
}

/// The tag names among reference names `refnames`, in their order.
pub open spec fn tags_of(refnames: Seq<Seq<char>>) -> Seq<Seq<char>>
    decreases refnames.len(),
{
    if refnames.len() == 0 {
        seq![]
    } else {
        let rest = tags_of(refnames.drop_last());
        match tag_of(refnames.last()) {
            Some(t) => rest.push(t),
            None => rest,
        }
    }
}

/// The tags among reference names `refnames`, sorted.
pub fn tag_list(refnames: &Vec<String>) -> (r: Vec<String>)
    ensures
        views(r@) == sorted_names(tags_of(views(refnames@))),
{
    let ghost all = views(refnames@);
    let mut tags: Vec<String> = Vec::new();
    let mut i: usize = 0;
    while i < refnames.len()
        invariant
            i <= refnames@.len(),
            all == views(refnames@),
            views(tags@) == tags_of(all.take(i as int)),
        decreases refnames@.len() - i,
    {
        assert(all.take(i + 1).drop_last() =~= all.take(i as int));
        let ghost before = views(tags@);
        match tag_name(refnames[i].as_str()) {
            Some(t) => {
                tags.push(t);
                assert(views(tags@) =~= before.push(tags@.last()@));
            },
            None => {},
        }
        i = i + 1;
    }
    assert(all.take(refnames@.len() as int) =~= all);
    sort_names(tags)
}

/// The names among `(target, name)` pairs `refs` whose target is `id`, in order.
pub open spec fn labels_of(refs: Seq<(Seq<char>, Seq<char>)>, id: Seq<char>) -> Seq<Seq<char>>
    decreases refs.len(),
{
    if refs.len() == 0 {
        seq![]
    } else {
        let rest = labels_of(refs.drop_last(), id);
        if refs.last().0 == id {
            rest.push(refs.last().1)
        } else {
            rest
        }
    }
}

pub open spec fn pair_views(v: Seq<(String, String)>) -> Seq<(Seq<char>, Seq<char>)> {
    v.map_values(|p: (String, String)| (p.0@, p.1@))
}

/// The branch or tag names that point at commit `id`, given each reference
/// as a `(target, name)` pair; `None` when no reference points there.
pub fn labels_at(refs: &Vec<(String, String)>, id: &String) -> (r: Option<Vec<String>>)
    ensures
        r is None <==> labels_of(pair_views(refs@), id@).len() == 0,
        r matches Some(v) ==> views(v@) == labels_of(pair_views(refs@), id@),
{
    let ghost all = pair_views(refs@);
    let mut out: Vec<String> = Vec::new();
    let mut i: usize = 0;
    while i < refs.len()
        invariant
            i <= refs@.len(),
            all == pair_views(refs@),
            views(out@) == labels_of(all.take(i as int), id@),
        decreases refs@.len() - i,
    {
        assert(all.take(i + 1).drop_last() =~= all.take(i as int));
        let ghost before = views(out@);
        if refs[i].0 == *id {
            out.push(refs[i].1.clone());
            assert(views(out@) =~= before.push(refs@[i as int].1@));
        }
        i = i + 1;
    }
    assert(all.take(refs@.len() as int) =~= all);
    if out.len() == 0 {
        None
    } else {
        Some(out)
    }
}

} // verus!
