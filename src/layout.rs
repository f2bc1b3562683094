//! One layout pass over a newest-first commit sequence.

use vstd::prelude::*;
use crate::graph::{ids, lemma_step_colors, step, LaneState, LaneTable, RowModel};
use crate::model::GitCommit;

verus! {

/// A commit as the layout sees it: its identifier and its parents.
pub open spec fn key_of(c: GitCommit) -> (Seq<char>, Seq<Seq<char>>) {
    (c.id@, ids(c.parents@))
}

pub open spec fn keys(cs: Seq<GitCommit>) -> Seq<(Seq<char>, Seq<Seq<char>>)> {
    cs.map_values(|c: GitCommit| key_of(c))
}

/// The lane table and next fresh colour after the first `k` commits.
pub open spec fn state_after(cs: Seq<(Seq<char>, Seq<Seq<char>>)>, k: nat) -> (
    Seq<Option<LaneState>>,
    nat,
)
    decreases k,
{
    if k == 0 {
        (seq![], 0)
    } else {
        let s = state_after(cs, (k - 1) as nat);
        let m = step(s.0, s.1, cs[k - 1].0, cs[k - 1].1);
        (m.table, m.next_color)
    }
}

/// The layout of commit `k`.
pub open spec fn row(cs: Seq<(Seq<char>, Seq<Seq<char>>)>, k: nat) -> RowModel {
    let s = state_after(cs, k);
    step(s.0, s.1, cs[k as int].0, cs[k as int].1)
}

/// The number of parent links among the first `k` commits.
pub open spec fn parent_links(cs: Seq<(Seq<char>, Seq<Seq<char>>)>, k: nat) -> nat
    decreases k,
{
    if k == 0 {
        0
    } else {
        parent_links(cs, (k - 1) as nat) + cs[k - 1].1.len()
    }
}

/// `b` is `a` with a lane and connectors attached.
pub open spec fn same_record(a: GitCommit, b: GitCommit) -> bool {
    &&& b.id == a.id
    &&& b.message == a.message
    &&& b.author == a.author
    &&& b.email == a.email
    &&& b.timestamp == a.timestamp
    &&& b.parents == a.parents
    &&& b.branches == a.branches
    &&& b.tags == a.tags
}


proof fn lemma_parent_links_mono(cs: Seq<(Seq<char>, Seq<Seq<char>>)>, k: nat, m: nat)
    requires
        k <= m,
    ensures
        parent_links(cs, k) <= parent_links(cs, m),
    decreases m,
{
    if k < m {
        lemma_parent_links_mono(cs, k, (m - 1) as nat);
    }
}

proof fn lemma_state_colors(cs: Seq<(Seq<char>, Seq<Seq<char>>)>, k: nat)
    ensures
        state_after(cs, k).1 <= parent_links(cs, k),
    decreases k,
{
    if k > 0 {
        lemma_state_colors(cs, (k - 1) as nat);
        let s = state_after(cs, (k - 1) as nat);
        lemma_step_colors(s.0, s.1, cs[k - 1].0, cs[k - 1].1);
    }
}

/// Lays out `commits`, newest first: attaches to each its lane and the
/// connectors of its row, and leaves every other field as it was.
pub fn calculate_lanes(commits: &mut Vec<GitCommit>)
    requires
        parent_links(keys(old(commits)@), old(commits)@.len()) <= usize::MAX,
    ensures
        final(commits)@.len() == old(commits)@.len(),
        forall|k: int|
            0 <= k < old(commits)@.len() ==> {
                let r = row(keys(old(commits)@), k as nat);
                &&& same_record(old(commits)@[k], #[trigger] final(commits)@[k])
                &&& final(commits)@[k].lane as int == r.lane
                &&& final(commits)@[k].lines@ == r.lines
            },
{
    let ghost orig = commits@;
    let ghost ks = keys(orig);
    let n = commits.len();
    let mut rest: Vec<GitCommit> = Vec::new();
    while commits.len() > 0
        invariant
            rest@.len() + commits@.len() == n,
            n == orig.len(),
            commits@ == orig.take(commits@.len() as int),
            forall|j: int| 0 <= j < rest@.len() ==> #[trigger] rest@[j] == orig[n - 1 - j],
        decreases commits@.len(),
    {
        let c = commits.pop().unwrap();
        rest.push(c);
        assert(commits@ =~= orig.take(commits@.len() as int));
    }
    let mut table = LaneTable::new();
    let mut k: usize = 0;
    proof {
        lemma_parent_links_mono(ks, 0, n as nat);
    }
    while rest.len() > 0
        invariant
            rest@.len() + k == n,
            n == orig.len(),
            ks == keys(orig),
            parent_links(ks, n as nat) <= usize::MAX,
            commits@.len() == k,
            forall|j: int| 0 <= j < rest@.len() ==> #[trigger] rest@[j] == orig[n - 1 - j],
            forall|j: int|
                0 <= j < k ==> {
                    let r = row(ks, j as nat);
                    &&& same_record(orig[j], #[trigger] commits@[j])
                    &&& commits@[j].lane as int == r.lane
                    &&& commits@[j].lines@ == r.lines
                },
            table.slots_view() == state_after(ks, k as nat).0,
            table.next_color as nat == state_after(ks, k as nat).1,
        decreases rest@.len(),
    {
        let mut c = rest.pop().unwrap();
        assert(c == orig[k as int]);
        proof {
            lemma_state_colors(ks, k as nat);
            lemma_parent_links_mono(ks, (k + 1) as nat, n as nat);
            assert(ks[k as int] == key_of(orig[k as int]));
        }
        let (lane, lines) = table.process(&c.id, &c.parents);
        c.lane = lane;
        c.lines = lines;
        commits.push(c);
        k = k + 1;
    }
}

} // verus!
