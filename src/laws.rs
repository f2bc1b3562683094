//! Properties of the layout, proved over its model.

use vstd::prelude::*;
use crate::graph::{
    awaits, first_awaiting, first_empty, ids, landing_lane, lemma_first_empty_bounds, link_extras,
    linked_table, opens_lane, passed_slot, step, LaneState,
};
use crate::layout::{keys, row, state_after};
use crate::model::GitCommit;

verus! {

/// No two occupied slots share a colour, and every colour in use was issued
/// before `next_color`.
pub open spec fn well_colored(t: Seq<Option<LaneState>>, next_color: nat) -> bool {
    &&& forall|i: int| 0 <= i < t.len() && (#[trigger] t[i]) is Some ==> t[i]->0.color < next_color
    &&& forall|i: int, j: int|
        0 <= i < t.len() && 0 <= j < t.len() && i != j && (#[trigger] t[i]) is Some
            && (#[trigger] t[j]) is Some ==> t[i]->0.color != t[j]->0.color
}

proof fn lemma_link_extras_well_colored(
    t: Seq<Option<LaneState>>,
    c: nat,
    cur: int,
    ps: Seq<Seq<char>>,
    k: nat,
)
    requires
        well_colored(t, c),
    ensures
        well_colored(link_extras(t, c, cur, ps, k).0, link_extras(t, c, cur, ps, k).1),
    decreases ps.len() - k,
{
    if k < ps.len() {
        let p = ps[k as int];
        let a = first_awaiting(t, p);
        if a < t.len() {
            lemma_link_extras_well_colored(t, c, cur, ps, k + 1);
        } else {
            let e = first_empty(t);
            lemma_first_empty_bounds(t);
            let slot = Some(LaneState { awaits: p, color: c });
            let t2 = if e < t.len() {
                t.update(e, slot)
            } else {
                t.push(slot)
            };
            assert(well_colored(t2, c + 1));
            lemma_link_extras_well_colored(t2, c + 1, cur, ps, k + 1);
        }
    }
}

/// Laying out a commit keeps the colours of occupied slots distinct: a lane
/// keeps its colour, a lane that converges becomes a hole, and every new lane
/// takes a colour never issued before.
pub proof fn lemma_step_well_colored(
    t: Seq<Option<LaneState>>,
    c: nat,
    id: Seq<char>,
    ps: Seq<Seq<char>>,
)
    requires
        well_colored(t, c),
    ensures
        well_colored(step(t, c, id, ps).table, step(t, c, id, ps).next_color),
{
    let t1 = linked_table(t, c, id, ps);
    let c1 = if opens_lane(t, id, ps) {
        c + 1
    } else {
        c
    };
    let s = Seq::new(t.len(), |i: int| passed_slot(t, id, ps, i));
    assert forall|i: int| 0 <= i < s.len() && (#[trigger] s[i]) is Some implies t[i] is Some
        && s[i]->0.color == t[i]->0.color by {}
    assert(well_colored(s, c));
    assert(well_colored(t1, c1));
    lemma_link_extras_well_colored(t1, c1, landing_lane(t, id, ps), ps, 1);
}

/// At every point of a pass, no two occupied lane slots carry the same colour.
pub proof fn lemma_pass_well_colored(cs: Seq<GitCommit>, k: nat)
    ensures
        well_colored(state_after(keys(cs), k).0, state_after(keys(cs), k).1),
    decreases k,
{
    if k > 0 {
        let ks = keys(cs);
        lemma_pass_well_colored(cs, (k - 1) as nat);
        let s = state_after(ks, (k - 1) as nat);
        lemma_step_well_colored(s.0, s.1, ks[k - 1].0, ks[k - 1].1);
    } else {
        assert(state_after(keys(cs), 0).0 =~= Seq::<Option<LaneState>>::empty());
    }
}

/// A root commit empties every slot that waited for it, allocates nothing, and
/// each slot it empties is a hole at or above the lowest one, so the next
/// allocation takes it unless a lower hole exists.
pub proof fn lemma_root_clears_lane(
    t: Seq<Option<LaneState>>,
    c: nat,
    id: Seq<char>,
    ps: Seq<Seq<char>>,
    i: int,
)
    requires
        ps.len() == 0,
        0 <= i < t.len(),
        awaits(t[i], id),
    ensures
        step(t, c, id, ps).table.len() == t.len(),
        step(t, c, id, ps).table[i] is None,
        first_empty(step(t, c, id, ps).table) <= i,
        step(t, c, id, ps).next_color == c,
{
    let m = step(t, c, id, ps).table;
    assert(m =~= Seq::new(t.len(), |j: int| passed_slot(t, id, ps, j)));
    lemma_first_empty_bounds(m);
    if first_empty(m) > i {
        assert(m[i] is Some);
    }
}

proof fn lemma_link_extras_keeps(
    t: Seq<Option<LaneState>>,
    c: nat,
    cur: int,
    ps: Seq<Seq<char>>,
    k: nat,
    i: int,
)
    requires
        0 <= i < t.len(),
        t[i] is Some,
    ensures
        i < link_extras(t, c, cur, ps, k).0.len(),
        link_extras(t, c, cur, ps, k).0[i] == t[i],
    decreases ps.len() - k,
{
    if k < ps.len() {
        let p = ps[k as int];
        let a = first_awaiting(t, p);
        if a < t.len() {
            lemma_link_extras_keeps(t, c, cur, ps, k + 1, i);
        } else {
            let e = first_empty(t);
            lemma_first_empty_bounds(t);
            let slot = Some(LaneState { awaits: p, color: c });
            let t2 = if e < t.len() {
                t.update(e, slot)
            } else {
                t.push(slot)
            };
            assert(t2[i] == t[i]);
            lemma_link_extras_keeps(t2, c + 1, cur, ps, k + 1, i);
        }
    }
}

/// A slot that waits for something other than the commit being laid out
/// passes into the next table unchanged, at the same index.
pub proof fn lemma_step_keeps_other_lanes(
    t: Seq<Option<LaneState>>,
    c: nat,
    id: Seq<char>,
    ps: Seq<Seq<char>>,
    i: int,
)
    requires
        0 <= i < t.len(),
        t[i] is Some,
        !awaits(t[i], id),
    ensures
        i < step(t, c, id, ps).table.len(),
        step(t, c, id, ps).table[i] == t[i],
{
    let t1 = linked_table(t, c, id, ps);
    let c1 = if opens_lane(t, id, ps) {
        c + 1
    } else {
        c
    };
    assert(t1[i] == t[i]);
    lemma_link_extras_keeps(t1, c1, landing_lane(t, id, ps), ps, 1, i);
}

/// A lane waiting for an identifier that no commit from `k` up to `m` carries
/// (a parent cut off by a shortened history) stays as it is, at the same
/// index and in the same colour, through all those commits.
pub proof fn lemma_unresolved_lane_persists(cs: Seq<GitCommit>, k: nat, m: nat, i: int)
    requires
        k <= m <= cs.len(),
        0 <= i < state_after(keys(cs), k).0.len(),
        state_after(keys(cs), k).0[i] is Some,
        forall|j: int| k <= j < m ==> (#[trigger] cs[j]).id@ != state_after(keys(cs), k).0[i]->0.awaits,
    ensures
        i < state_after(keys(cs), m).0.len(),
        state_after(keys(cs), m).0[i] == state_after(keys(cs), k).0[i],
    decreases m - k,
{
    if k < m {
        let ks = keys(cs);
        lemma_unresolved_lane_persists(cs, k, (m - 1) as nat, i);
        let s = state_after(ks, (m - 1) as nat);
        assert(ks[m - 1].0 == cs[m - 1].id@);
        lemma_step_keeps_other_lanes(s.0, s.1, ks[m - 1].0, ks[m - 1].1, i);
    }
}

/// Two passes over commit sequences with the same identifiers and parents, in
/// the same order, give every commit the same lane and the same connectors.
pub proof fn lemma_layout_deterministic(a: Seq<GitCommit>, b: Seq<GitCommit>)
    requires
        a.len() == b.len(),
        forall|k: int| 0 <= k < a.len() ==> (#[trigger] a[k]).id@ == b[k].id@ && a[k].parents@.len()
            == b[k].parents@.len() && forall|p: int|
            0 <= p < a[k].parents@.len() ==> (#[trigger] a[k].parents@[p])@ == b[k].parents@[p]@,
    ensures
        forall|k: nat| k < a.len() ==> #[trigger] row(keys(a), k) == row(keys(b), k),
{
    assert(keys(a) =~= keys(b)) by {
        assert forall|k: int| 0 <= k < a.len() implies #[trigger] keys(a)[k] == keys(b)[k] by {
            assert(ids(a[k].parents@) =~= ids(b[k].parents@));
        }
    }
}

} // verus!
