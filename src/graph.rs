//! Lane and colour assignment for a newest-first commit history.
//!
//! A pass keeps a table of lane slots. An occupied slot names the commit
//! that the lane shows next and the colour it is drawn in; an empty slot is
//! a hole that the next parent allocation may reuse, lowest index first.

use vstd::prelude::*;

verus! {

/// One connector piece of a history row.
#[derive(Clone, Copy, Debug, PartialEq, Eq, Structural)]
pub struct GraphLine {
    /// `true` joins the previous row to this one, `false` this row to the next.
    pub upper: bool,
    pub from: usize,
    pub to: usize,
    pub color: usize,
}

/// Lane and colour of a node.
#[derive(Clone, Copy, Debug, PartialEq, Eq, Structural)]
pub struct GraphInfo {
    pub lane: usize,
    pub color: usize,
}

/// An occupied lane slot: the identifier it waits for and its colour.
#[derive(Debug)]
pub struct Lane {
    pub sha: String,
    pub color: usize,
}

/// What an occupied slot means.
pub struct LaneState {
    pub awaits: Seq<char>,
    pub color: nat,
}

pub open spec fn slot_view(s: Option<Lane>) -> Option<LaneState> {
    match s {
        Some(l) => Some(LaneState { awaits: l.sha@, color: l.color as nat }),
        None => None,
    }
}

pub open spec fn table_view(v: Seq<Option<Lane>>) -> Seq<Option<LaneState>> {
    v.map_values(|s: Option<Lane>| slot_view(s))
}

pub open spec fn seg(upper: bool, from: int, to: int, color: nat) -> GraphLine {
    GraphLine { upper, from: from as usize, to: to as usize, color: color as usize }
}

pub open spec fn awaits(slot: Option<LaneState>, id: Seq<char>) -> bool {
    slot is Some && slot->0.awaits == id
}

pub open spec fn color_of(slot: Option<LaneState>) -> nat {
    match slot {
        Some(l) => l.color,
        None => 0,
    }
}

pub open spec fn is_first_awaiting(t: Seq<Option<LaneState>>, id: Seq<char>, i: int) -> bool {
    &&& 0 <= i < t.len()
    &&& awaits(t[i], id)
    &&& forall|j: int| 0 <= j < i ==> !awaits(#[trigger] t[j], id)
}

/// Index of the lowest slot that waits for `id`, or the table's length if none does.
pub open spec fn first_awaiting(t: Seq<Option<LaneState>>, id: Seq<char>) -> int {
    if exists|i: int| is_first_awaiting(t, id, i) {
        choose|i: int| is_first_awaiting(t, id, i)
    } else {
        t.len() as int
    }
}

pub open spec fn is_first_empty(t: Seq<Option<LaneState>>, i: int) -> bool {
    &&& 0 <= i < t.len()
    &&& t[i] is None
    &&& forall|j: int| 0 <= j < i ==> (#[trigger] t[j]) is Some
}

/// Index of the lowest hole, or the table's length if there is none.
pub open spec fn first_empty(t: Seq<Option<LaneState>>) -> int {
    if exists|i: int| is_first_empty(t, i) {
        choose|i: int| is_first_empty(t, i)
    } else {
        t.len() as int
    }
}

proof fn lemma_first_awaiting_at(t: Seq<Option<LaneState>>, id: Seq<char>, i: int)
    requires
        is_first_awaiting(t, id, i),
    ensures
        first_awaiting(t, id) == i,
{
    let k = choose|k: int| is_first_awaiting(t, id, k);
    if k < i {
        assert(!awaits(t[k], id));
    } else if i < k {
        assert(!awaits(t[i], id));
    }
}

proof fn lemma_first_awaiting_none(t: Seq<Option<LaneState>>, id: Seq<char>)
    requires
        forall|j: int| 0 <= j < t.len() ==> !awaits(#[trigger] t[j], id),
    ensures
        first_awaiting(t, id) == t.len(),
{
}

proof fn lemma_first_awaiting_bounds(t: Seq<Option<LaneState>>, id: Seq<char>)
    ensures
        0 <= first_awaiting(t, id) <= t.len(),
        first_awaiting(t, id) < t.len() ==> is_first_awaiting(t, id, first_awaiting(t, id)),
        first_awaiting(t, id) == t.len() ==> forall|j: int|
            0 <= j < t.len() ==> !awaits(#[trigger] t[j], id),
{
    if exists|i: int| is_first_awaiting(t, id, i) {
    } else {
        assert forall|j: int| 0 <= j < t.len() implies !awaits(#[trigger] t[j], id) by {
            if awaits(t[j], id) {
                lemma_least_awaiting(t, id, j);
            }
        }
    }
}

proof fn lemma_least_awaiting(t: Seq<Option<LaneState>>, id: Seq<char>, j: int)
    requires
        0 <= j < t.len(),
        awaits(t[j], id),
    ensures
        exists|i: int| is_first_awaiting(t, id, i),
    decreases j,
{
    if forall|k: int| 0 <= k < j ==> !awaits(#[trigger] t[k], id) {
        assert(is_first_awaiting(t, id, j));
    } else {
        let k = choose|k: int| 0 <= k < j && awaits(#[trigger] t[k], id);
        lemma_least_awaiting(t, id, k);
    }
}

/// Index of the lowest slot of `t` that waits for `id`, or `t.len()`.
pub fn find_awaiting(t: &Vec<Option<Lane>>, id: &String) -> (r: usize)
    ensures
        r as int == first_awaiting(table_view(t@), id@),
{
    let ghost tv = table_view(t@);
    let mut i: usize = 0;
    while i < t.len()
        invariant
            0 <= i <= t@.len(),
            tv == table_view(t@),
            forall|j: int| 0 <= j < i ==> !awaits(#[trigger] tv[j], id@),
        decreases t@.len() - i,
    {
        match &t[i] {
            Some(l) => {
                if l.sha == *id {
                    proof {
                        assert(is_first_awaiting(tv, id@, i as int));
                        lemma_first_awaiting_at(tv, id@, i as int);
                    }
                    return i;
                }
            },
            None => {},
        }
        i = i + 1;
    }
    proof {
        lemma_first_awaiting_none(tv, id@);
    }
    i
}


proof fn lemma_least_empty(t: Seq<Option<LaneState>>, j: int)
    requires
        0 <= j < t.len(),
        t[j] is None,
    ensures
        exists|i: int| is_first_empty(t, i),
    decreases j,
{
    if forall|k: int| 0 <= k < j ==> (#[trigger] t[k]) is Some {
        assert(is_first_empty(t, j));
    } else {
        let k = choose|k: int| 0 <= k < j && (#[trigger] t[k]) is None;
        lemma_least_empty(t, k);
    }
}

pub proof fn lemma_first_empty_bounds(t: Seq<Option<LaneState>>)
    ensures
        0 <= first_empty(t) <= t.len(),
        first_empty(t) < t.len() ==> is_first_empty(t, first_empty(t)),
        first_empty(t) == t.len() ==> forall|j: int| 0 <= j < t.len() ==> (#[trigger] t[j]) is Some,
{
    if exists|i: int| is_first_empty(t, i) {
    } else {
        assert forall|j: int| 0 <= j < t.len() implies (#[trigger] t[j]) is Some by {
            if t[j] is None {
                lemma_least_empty(t, j);
            }
        }
    }
}

/// Index of the lowest hole of `t`, or `t.len()`.
pub fn find_empty(t: &Vec<Option<Lane>>) -> (r: usize)
    ensures
        r as int == first_empty(table_view(t@)),
{
    let ghost tv = table_view(t@);
    let mut i: usize = 0;
    while i < t.len()
        invariant
            0 <= i <= t@.len(),
            tv == table_view(t@),
            forall|j: int| 0 <= j < i ==> (#[trigger] tv[j]) is Some,
        decreases t@.len() - i,
    {
        if t[i].is_none() {
            proof {
                assert(is_first_empty(tv, i as int));
                let k = choose|k: int| is_first_empty(tv, k);
                if k < i {
                    assert(tv[k] is Some);
                } else if i < k {
                    assert(tv[i as int] is Some);
                }
            }
            return i;
        }
        i = i + 1;
    }
    i
}


pub open spec fn ids(ps: Seq<String>) -> Seq<Seq<char>> {
    ps.map_values(|s: String| s@)
}

/// The slot that index `i` of `t` becomes while commit `id` is laid out,
/// before parents other than the first are linked: a slot that waits for
/// something else passes through; the lowest slot that waits for `id` now
/// waits for the first parent (or becomes a hole for a root commit); any
/// further slot that waited for `id` converges and becomes a hole.
pub open spec fn passed_slot(
    t: Seq<Option<LaneState>>,
    id: Seq<char>,
    parents: Seq<Seq<char>>,
    i: int,
) -> Option<LaneState> {
    if !awaits(t[i], id) {
        t[i]
    } else if i == first_awaiting(t, id) && parents.len() > 0 {
        Some(LaneState { awaits: parents[0], color: t[i]->0.color })
    } else {
        None
    }
}

/// The connectors that slot `i` of `t` contributes to the row of commit `id`.
pub open spec fn slot_lines(
    t: Seq<Option<LaneState>>,
    id: Seq<char>,
    has_parents: bool,
    i: int,
) -> Seq<GraphLine> {
    match t[i] {
        None => seq![],
        Some(l) => {
            if l.awaits != id {
                seq![seg(true, i, i, l.color), seg(false, i, i, l.color)]
            } else if i == first_awaiting(t, id) {
                if has_parents {
                    seq![seg(true, i, i, l.color), seg(false, i, i, l.color)]
                } else {
                    seq![seg(true, i, i, l.color)]
                }
            } else {
                seq![seg(true, i, first_awaiting(t, id), l.color)]
            }
        },
    }
}

/// The connectors of the first `k` slots, in slot order.
pub open spec fn scan_lines(
    t: Seq<Option<LaneState>>,
    id: Seq<char>,
    has_parents: bool,
    k: nat,
) -> Seq<GraphLine>
    decreases k,
{
    if k == 0 {
        seq![]
    } else {
        scan_lines(t, id, has_parents, (k - 1) as nat) + slot_lines(t, id, has_parents, k - 1)
    }
}

/// Whether commit `id` starts a lane of its own: no slot waits for it and it has a parent.
pub open spec fn opens_lane(t: Seq<Option<LaneState>>, id: Seq<char>, parents: Seq<Seq<char>>) -> bool {
    first_awaiting(t, id) == t.len() && parents.len() > 0
}

/// The lane of commit `id`: the lowest slot waiting for it, else a new lane at
/// the end of the table, else (a root that nothing waits for) lane 0.
pub open spec fn landing_lane(t: Seq<Option<LaneState>>, id: Seq<char>, parents: Seq<Seq<char>>) -> int {
    if first_awaiting(t, id) < t.len() {
        first_awaiting(t, id)
    } else if parents.len() > 0 {
        t.len() as int
    } else {
        0
    }
}

/// The table once the commit has landed and its first parent is linked.
pub open spec fn linked_table(
    t: Seq<Option<LaneState>>,
    next_color: nat,
    id: Seq<char>,
    parents: Seq<Seq<char>>,
) -> Seq<Option<LaneState>> {
    let s = Seq::new(t.len(), |i: int| passed_slot(t, id, parents, i));
    if opens_lane(t, id, parents) {
        s.push(Some(LaneState { awaits: parents[0], color: next_color }))
    } else {
        s
    }
}

/// The connectors of the row before parents other than the first are linked.
pub open spec fn head_lines(
    t: Seq<Option<LaneState>>,
    next_color: nat,
    id: Seq<char>,
    parents: Seq<Seq<char>>,
) -> Seq<GraphLine> {
    let s = scan_lines(t, id, parents.len() > 0, t.len());
    if opens_lane(t, id, parents) {
        s.push(seg(false, t.len() as int, t.len() as int, next_color))
    } else {
        s
    }
}

/// Links `ps[k..]` one after another from lane `cur`. A parent that a slot
/// already waits for gets a connector to the lowest such slot in that slot's
/// colour; any other takes the lowest hole (or a new slot at the end) and a
/// fresh colour. Gives the table, the next fresh colour and the connectors.
pub open spec fn link_extras(
    t: Seq<Option<LaneState>>,
    next_color: nat,
    cur: int,
    ps: Seq<Seq<char>>,
    k: nat,
) -> (Seq<Option<LaneState>>, nat, Seq<GraphLine>)
    decreases ps.len() - k,
{
    if k >= ps.len() {
        (t, next_color, seq![])
    } else {
        let p = ps[k as int];
        let a = first_awaiting(t, p);
        if a < t.len() {
            let r = link_extras(t, next_color, cur, ps, k + 1);
            (r.0, r.1, seq![seg(false, cur, a, color_of(t[a]))] + r.2)
        } else {
            let e = first_empty(t);
            let slot = Some(LaneState { awaits: p, color: next_color });
            let t2 = if e < t.len() {
                t.update(e, slot)
            } else {
                t.push(slot)
            };
            let r = link_extras(t2, next_color + 1, cur, ps, k + 1);
            (r.0, r.1, seq![seg(false, cur, e, next_color)] + r.2)
        }
    }
}

/// What laying out one commit yields.
pub struct RowModel {
    pub lane: int,
    pub lines: Seq<GraphLine>,
    pub table: Seq<Option<LaneState>>,
    pub next_color: nat,
}

/// Lays out commit `id` with `parents` against table `t`, whose next fresh
/// colour is `next_color`.
pub open spec fn step(
    t: Seq<Option<LaneState>>,
    next_color: nat,
    id: Seq<char>,
    parents: Seq<Seq<char>>,
) -> RowModel {
    let cur = landing_lane(t, id, parents);
    let c1 = if opens_lane(t, id, parents) {
        next_color + 1
    } else {
        next_color
    };
    let r = link_extras(linked_table(t, next_color, id, parents), c1, cur, parents, 1);
    RowModel {
        lane: cur,
        lines: head_lines(t, next_color, id, parents) + r.2,
        table: r.0,
        next_color: r.1,
    }
}

/// The lane of a root commit that no lane waits for.
pub fn unmatched_root_lane() -> (r: usize)
    ensures
        r == 0,
{
    0
}

/// The carried state of a layout pass.
pub struct LaneTable {
    pub slots: Vec<Option<Lane>>,
    pub next_color: usize,
}


proof fn lemma_link_extras_colors(t: Seq<Option<LaneState>>, c: nat, cur: int, ps: Seq<Seq<char>>, k: nat)
    ensures
        c <= link_extras(t, c, cur, ps, k).1,
        k <= ps.len() ==> link_extras(t, c, cur, ps, k).1 <= c + (ps.len() - k),
        k >= ps.len() ==> link_extras(t, c, cur, ps, k).1 == c,
    decreases ps.len() - k,
{
    if k < ps.len() {
        let p = ps[k as int];
        let a = first_awaiting(t, p);
        if a < t.len() {
            lemma_link_extras_colors(t, c, cur, ps, k + 1);
        } else {
            let e = first_empty(t);
            let slot = Some(LaneState { awaits: p, color: c });
            let t2 = if e < t.len() {
                t.update(e, slot)
            } else {
                t.push(slot)
            };
            lemma_link_extras_colors(t2, c + 1, cur, ps, k + 1);
        }
    }
}

/// Laying out one commit issues at most one fresh colour per parent.
pub proof fn lemma_step_colors(t: Seq<Option<LaneState>>, c: nat, id: Seq<char>, ps: Seq<Seq<char>>)
    ensures
        c <= step(t, c, id, ps).next_color <= c + ps.len(),
{
    let c1 = if opens_lane(t, id, ps) {
        c + 1
    } else {
        c
    };
    lemma_link_extras_colors(linked_table(t, c, id, ps), c1, landing_lane(t, id, ps), ps, 1);
}

impl LaneTable {
    pub open spec fn slots_view(&self) -> Seq<Option<LaneState>> {
        table_view(self.slots@)
    }

    /// An empty table whose first fresh colour is 0.
    pub fn new() -> (r: LaneTable)
        ensures
            r.slots_view() == Seq::<Option<LaneState>>::empty(),
            r.next_color == 0,
    {
        let r = LaneTable { slots: Vec::new(), next_color: 0 };
        assert(r.slots_view() =~= Seq::<Option<LaneState>>::empty());
        r
    }

    /// Lays out one commit: returns its lane and connectors, and advances the table.
    pub fn process(&mut self, id: &String, parents: &Vec<String>) -> (r: (usize, Vec<GraphLine>))
        requires
            old(self).next_color + parents.len() <= usize::MAX,
        ensures
            ({
                let m = step(old(self).slots_view(), old(self).next_color as nat, id@, ids(parents@));
                &&& r.0 as int == m.lane
                &&& r.1@ == m.lines
                &&& final(self).slots_view() == m.table
                &&& final(self).next_color as nat == m.next_color
            }),
    {
        let ghost t = self.slots_view();
        let ghost ps = ids(parents@);
        let n = self.slots.len();
        let f = find_awaiting(&self.slots, id);
        proof {
            lemma_first_awaiting_bounds(t, id@);
        }
        let has_parents = parents.len() > 0;
        let mut next: Vec<Option<Lane>> = Vec::new();
        let mut lines: Vec<GraphLine> = Vec::new();
        let mut i: usize = 0;
        while i < n
            invariant
                n == self.slots@.len(),
                t == table_view(self.slots@),
                f as int == first_awaiting(t, id@),
                f <= n,
                has_parents == (ps.len() > 0),
                ps == ids(parents@),
                i <= n,
                next@.len() == i,
                forall|j: int| 0 <= j < i ==> #[trigger] table_view(next@)[j] == passed_slot(t, id@, ps, j),
                lines@ == scan_lines(t, id@, has_parents, i as nat),
            decreases n - i,
        {
            let ghost prev_lines = lines@;
            let ghost prev_next = next@;
            match &self.slots[i] {
                None => {
                    next.push(None);
                },
                Some(l) => {
                    if l.sha == *id {
                        if i == f {
                            lines.push(GraphLine { upper: true, from: i, to: i, color: l.color });
                            if has_parents {
                                lines.push(GraphLine { upper: false, from: i, to: i, color: l.color });
                                proof {
                                    assert(ps[0] == parents@[0]@);
                                }
                                next.push(Some(Lane { sha: parents[0].clone(), color: l.color }));
                            } else {
                                next.push(None);
                            }
                        } else {
                            lines.push(GraphLine { upper: true, from: i, to: f, color: l.color });
                            next.push(None);
                        }
                    } else {
                        lines.push(GraphLine { upper: true, from: i, to: i, color: l.color });
                        lines.push(GraphLine { upper: false, from: i, to: i, color: l.color });
                        next.push(Some(Lane { sha: l.sha.clone(), color: l.color }));
                    }
                },
            }
            proof {
                assert(lines@ =~= prev_lines + slot_lines(t, id@, has_parents, i as int));
                assert forall|j: int| 0 <= j < i + 1 implies #[trigger] table_view(next@)[j]
                    == passed_slot(t, id@, ps, j) by {
                    assert(table_view(next@)[j] == slot_view(next@[j]));
                    if j < i {
                        assert(next@[j] == prev_next[j]);
                        assert(table_view(prev_next)[j] == slot_view(prev_next[j]));
                    } else {
                        assert(t[j] == slot_view(self.slots@[j]));
                    }
                }
            }
            i = i + 1;
        }
        let ghost scanned = table_view(next@);
        proof {
            assert(scanned =~= Seq::new(t.len(), |j: int| passed_slot(t, id@, ps, j)));
        }
        let mut counter = self.next_color;
        let cur: usize;
        if f < n {
            cur = f;
        } else if has_parents {
            cur = n;
            proof {
                assert(ps[0] == parents@[0]@);
            }
            next.push(Some(Lane { sha: parents[0].clone(), color: counter }));
            lines.push(GraphLine { upper: false, from: n, to: n, color: counter });
            proof {
                assert(table_view(next@) =~= scanned.push(
                    Some(LaneState { awaits: ps[0], color: counter as nat }),
                ));
            }
            counter = counter + 1;
        } else {
            cur = unmatched_root_lane();
        }
        proof {
            assert(table_view(next@) =~= linked_table(t, self.next_color as nat, id@, ps));
            assert(lines@ =~= head_lines(t, self.next_color as nat, id@, ps));
        }
        let ghost t1 = table_view(next@);
        let ghost c1 = counter as nat;
        let ghost target = link_extras(t1, c1, cur as int, ps, 1);
        let ghost head = lines@;
        let mut k: usize = 1;
        while k < parents.len()
            invariant
                1 <= k,
                ps == ids(parents@),
                counter as int + parents@.len() - k <= usize::MAX,
                ({
                    let r = link_extras(table_view(next@), counter as nat, cur as int, ps, k as nat);
                    &&& r.0 == target.0
                    &&& r.1 == target.1
                    &&& lines@ + r.2 == head + target.2
                }),
            decreases parents@.len() - k,
        {
            let ghost tv = table_view(next@);
            let ghost prev_lines = lines@;
            let ghost p = ps[k as int];
            assert(p == parents@[k as int]@);
            let a = find_awaiting(&next, &parents[k]);
            proof {
                lemma_first_awaiting_bounds(tv, p);
            }
            if a < next.len() {
                let c = match &next[a] {
                    Some(l) => l.color,
                    None => 0,
                };
                lines.push(GraphLine { upper: false, from: cur, to: a, color: c });
                proof {
                    let r1 = link_extras(tv, counter as nat, cur as int, ps, (k + 1) as nat);
                    assert(lines@ + r1.2 =~= prev_lines + (seq![seg(false, cur as int, a as int, color_of(tv[a as int]))] + r1.2));
                }
            } else {
                let e = find_empty(&next);
                proof {
                    lemma_first_empty_bounds(tv);
                }
                let slot = Some(Lane { sha: parents[k].clone(), color: counter });
                let ghost sv = Some(LaneState { awaits: p, color: counter as nat });
                if e < next.len() {
                    next[e] = slot;
                    proof {
                        assert(table_view(next@) =~= tv.update(e as int, sv));
                    }
                } else {
                    next.push(slot);
                    proof {
                        assert(table_view(next@) =~= tv.push(sv));
                    }
                }
                lines.push(GraphLine { upper: false, from: cur, to: e, color: counter });
                proof {
                    let r1 = link_extras(table_view(next@), (counter + 1) as nat, cur as int, ps, (k + 1) as nat);
                    assert(lines@ + r1.2 =~= prev_lines + (seq![seg(false, cur as int, e as int, counter as nat)] + r1.2));
                }
                counter = counter + 1;
            }
            k = k + 1;
        }
        self.slots = next;
        self.next_color = counter;
        (cur, lines)
    }
}

} // verus!
