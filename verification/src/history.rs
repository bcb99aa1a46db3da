//! Assembly of the metrics history: the rows of a query that joins each
//! snapshot to its container measurements are grouped back into snapshots.
//!
//! What a snapshot and a container measurement hold is left to the caller
//! (the type parameters `H` and `C`); the grouping only reads snapshot ids.

use vstd::prelude::*;

verus! {

/// One row of the history query: the snapshot's id, the snapshot's own
/// columns, and the container measurement joined to it, if any.
pub struct HistoryRow<H, C> {
    pub snapshot_id: i64,
    pub header: H,
    pub container: Option<C>,
}

/// The `j`-th id is the first occurrence of its value.
pub open spec fn is_first(order: Seq<i64>, j: int) -> bool {
    forall|k: int| 0 <= k < j ==> order[k] != order[j]
}

/// The columns of the first row of a snapshot.
pub open spec fn header_of<H, C>(rows: Seq<HistoryRow<H, C>>, id: i64) -> Option<H>
    decreases rows.len(),
{
    if rows.len() == 0 {
        None
    } else if rows[0].snapshot_id == id {
        Some(rows[0].header)
    } else {
        header_of(rows.drop_first(), id)
    }
}

/// The container measurements of a snapshot, in row order.
pub open spec fn containers_of<H, C>(rows: Seq<HistoryRow<H, C>>, id: i64) -> Seq<C>
    decreases rows.len(),
{
    if rows.len() == 0 {
        Seq::empty()
    } else {
        let rest = containers_of(rows.drop_first(), id);
        if rows[0].snapshot_id == id && rows[0].container is Some {
            seq![rows[0].container.unwrap()] + rest
        } else {
            rest
        }
    }
}

/// The snapshot assembled for the `j`-th id, if it gets one: only the
/// first occurrence of an id does, and only when some row belongs to it.
pub open spec fn slot_spec<H, C>(order: Seq<i64>, rows: Seq<HistoryRow<H, C>>, j: int) -> Option<(H, Seq<C>)> {
    if is_first(order, j) && header_of(rows, order[j]) is Some {
        Some((header_of(rows, order[j]).unwrap(), containers_of(rows, order[j])))
    } else {
        None
    }
}

/// The snapshots in the order of `order`: each id with rows gives one
/// snapshot, with the columns of its first row and all of its container
/// measurements; ids without rows, and repeated ids, give none.
pub open spec fn history_spec<H, C>(order: Seq<i64>, rows: Seq<HistoryRow<H, C>>) -> Seq<(H, Seq<C>)>
    decreases order.len(),
{
    if order.len() == 0 {
        Seq::empty()
    } else {
        let prev = history_spec(order.drop_last(), rows);
        match slot_spec(order, rows, order.len() - 1) {
            Some(x) => prev.push(x),
            None => prev,
        }
    }
}

/// The history holds at most one snapshot per id asked for, in order: no
/// more snapshots than ids.
pub proof fn law_history_one_per_id<H, C>(order: Seq<i64>, rows: Seq<HistoryRow<H, C>>)
    ensures
        history_spec(order, rows).len() <= order.len(),
    decreases order.len(),
{
    if order.len() > 0 {
        law_history_one_per_id(order.drop_last(), rows);
    }
}

/// A snapshot with its containers as a sequence.
pub open spec fn snapshot_view<H, C>(x: (H, Vec<C>)) -> (H, Seq<C>) {
    (x.0, x.1@)
}

/// The slot with its containers as a sequence.
pub open spec fn slot_view<H, C>(x: Option<(H, Vec<C>)>) -> Option<(H, Seq<C>)> {
    match x {
        Some(y) => Some((y.0, y.1@)),
        None => None,
    }
}

proof fn lemma_slot_prefix<H, C>(order: Seq<i64>, rows: Seq<HistoryRow<H, C>>, j: int)
    requires
        0 <= j < order.len(),
    ensures
        slot_spec(order.subrange(0, j + 1), rows, j) == slot_spec(order, rows, j),
{
    let p = order.subrange(0, j + 1);
    assert(p[j] == order[j]);
    assert(is_first(p, j) == is_first(order, j)) by {
        assert forall|k: int| 0 <= k < j implies p[k] == order[k] by {}
    }
}

/// Groups the rows of the history query into snapshots, in the order of
/// `order` (the snapshot ids, newest first).
pub fn group_history<H, C>(order: &Vec<i64>, rows: Vec<HistoryRow<H, C>>) -> (r: Vec<(H, Vec<C>)>)
    ensures
        r@.map_values(|x: (H, Vec<C>)| snapshot_view(x)) == history_spec(order@, rows@),
{
    let n = order.len();
    let ghost all = rows@;
    let mut slots: Vec<Option<(H, Vec<C>)>> = Vec::new();
    let mut j: usize = 0;
    while j < n
        invariant
            j <= n == order@.len(),
            slots@.len() == j,
            forall|t: int| 0 <= t < j ==> (#[trigger] slots@[t]) is None,
        decreases n - j,
    {
        slots.push(None);
        j = j + 1;
    }
    let mut rows = rows;
    proof {
        assert(all.subrange(all.len() as int, all.len() as int) =~= Seq::<HistoryRow<H, C>>::empty());
        assert forall|t: int| 0 <= t < n implies slot_view(#[trigger] slots@[t]) == slot_spec(
            order@,
            all.subrange(all.len() as int, all.len() as int),
            t,
        ) by {}
    }
    while rows.len() > 0
        invariant
            n == order@.len(),
            slots@.len() == n,
            rows@ == all.subrange(0, rows@.len() as int),
            rows@.len() <= all.len(),
            forall|t: int|
                0 <= t < n ==> slot_view(#[trigger] slots@[t]) == slot_spec(
                    order@,
                    all.subrange(rows@.len() as int, all.len() as int),
                    t,
                ),
        decreases rows@.len(),
    {
        let ghost k = (rows@.len() - 1) as int;
        let ghost before = all.subrange(k + 1, all.len() as int);
        let ghost after = all.subrange(k, all.len() as int);
        let row = rows.pop().unwrap();
        proof {
            assert(row == all[k]);
            assert(after[0] == row);
            assert(after.drop_first() =~= before);
            assert(rows@ =~= all.subrange(0, k));
        }
        let id = row.snapshot_id;
        let mut f: usize = 0;
        while f < n && order[f] != id
            invariant
                f <= n == order@.len(),
                forall|t: int| 0 <= t < f ==> order@[t] != id,
            decreases n - f,
        {
            f = f + 1;
        }
        if f < n {
            proof {
                assert(is_first(order@, f as int));
            }
            let ghost prev_slots = slots@;
            let old_slot = slots.remove(f);
            let new_slot = match old_slot {
                None => {
                    let mut cs: Vec<C> = Vec::new();
                    match row.container {
                        Some(c) => {
                            cs.push(c);
                        },
                        None => {},
                    }
                    Some((row.header, cs))
                },
                Some((_h, cs)) => {
                    let mut cs = cs;
                    match row.container {
                        Some(c) => {
                            cs.insert(0, c);
                        },
                        None => {},
                    }
                    Some((row.header, cs))
                },
            };
            let ghost placed = new_slot;
            slots.insert(f, new_slot);
            proof {
                assert(slots@ =~= prev_slots.update(f as int, placed));
                assert(old_slot == prev_slots[f as int]);
                assert forall|t: int| 0 <= t < n implies slot_view(#[trigger] slots@[t]) == slot_spec(
                    order@,
                    after,
                    t,
                ) by {
                    if order@[t] == id {
                        if t == f {
                            assert(slot_view(slots@[t]) == slot_spec(order@, after, t)) by {
                                if row.container is Some {
                                    let c = row.container.unwrap();
                                    assert(containers_of(after, id) == seq![c] + containers_of(before, id));
                                    match slot_view(old_slot) {
                                        Some(x) => {
                                            assert(x.1 == containers_of(before, id));
                                        },
                                        None => {
                                            assert(containers_of(before, id) =~= Seq::<C>::empty()) by {
                                                lemma_no_header_no_containers(before, id);
                                            }
                                        },
                                    }
                                } else {
                                    match slot_view(old_slot) {
                                        Some(x) => {},
                                        None => {
                                            lemma_no_header_no_containers(before, id);
                                        },
                                    }
                                }
                            }
                        } else {
                            assert(!is_first(order@, t)) by {
                                if t > f {
                                    assert(order@[f as int] == order@[t]);
                                }
                            }
                            assert(slots@[t] == prev_slots[t]);
                        }
                    } else {
                        assert(header_of(after, order@[t]) == header_of(before, order@[t]));
                        assert(containers_of(after, order@[t]) == containers_of(before, order@[t]));
                    }
                }
            }
        } else {
            proof {
                assert forall|t: int| 0 <= t < n implies slot_view(#[trigger] slots@[t]) == slot_spec(
                    order@,
                    after,
                    t,
                ) by {
                    assert(order@[t] != id);
                    assert(header_of(after, order@[t]) == header_of(before, order@[t]));
                    assert(containers_of(after, order@[t]) == containers_of(before, order@[t]));
                }
            }
        }
    }
    assert(all.subrange(0, all.len() as int) =~= all);
    let mut r: Vec<(H, Vec<C>)> = Vec::new();
    let mut slots = slots;
    let mut taken: usize = 0;
    let ghost full = slots@;
    proof {
        assert(order@.subrange(0, 0) =~= Seq::<i64>::empty());
        assert(r@.map_values(|x: (H, Vec<C>)| snapshot_view(x)) =~= Seq::<(H, Seq<C>)>::empty());
    }
    while slots.len() > 0
        invariant
            n == order@.len(),
            full.len() == n,
            taken + slots@.len() == n,
            slots@ == full.subrange(taken as int, n as int),
            forall|t: int| 0 <= t < n ==> slot_view(#[trigger] full[t]) == slot_spec(order@, all, t),
            r@.map_values(|x: (H, Vec<C>)| snapshot_view(x)) == history_spec(order@.subrange(0, taken as int), all),
        decreases slots@.len(),
    {
        let s = slots.remove(0);
        proof {
            assert(s == full[taken as int]);
            assert(slots@ =~= full.subrange(taken + 1, n as int));
            let p = order@.subrange(0, taken + 1);
            assert(p.drop_last() =~= order@.subrange(0, taken as int));
            lemma_slot_prefix(order@, all, taken as int);
        }
        let ghost before = r@.map_values(|x: (H, Vec<C>)| snapshot_view(x));
        match s {
            Some(x) => {
                r.push(x);
                assert(r@.map_values(|x: (H, Vec<C>)| snapshot_view(x)) =~= before.push(
                    snapshot_view(r@[r@.len() - 1]),
                ));
            },
            None => {},
        }
        taken = taken + 1;
    }
    assert(order@.subrange(0, n as int) =~= order@);
    r
}

proof fn lemma_no_header_no_containers<H, C>(rows: Seq<HistoryRow<H, C>>, id: i64)
    requires
        header_of(rows, id) is None,
    ensures
        containers_of(rows, id) == Seq::<C>::empty(),
    decreases rows.len(),
{
    if rows.len() > 0 {
        lemma_no_header_no_containers(rows.drop_first(), id);
    }
}

} // verus!
