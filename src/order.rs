//! Putting an item's stats in the order of the ordering table.
use crate::identification::{Identification, StatusId};
use crate::item::{IdGroup, IdentificationOrder, Item};
use crate::roll::{max_id, max_spec, min_id, min_spec};
use vstd::prelude::*;

verus! {

/// One stat of an item together with its kind's ordinal.
#[derive(Debug, PartialEq, Eq, Structural, Clone, Copy)]
pub struct Stat {
    pub id: Identification,
    pub ordinal: i32,
    pub status: StatusId,
}

impl Stat {
    /// The best roll of the stat.
    pub fn max_id(&self) -> (r: i64)
        ensures
            r == max_spec(self.status.base_value as int, self.status.is_fixed),
    {
        max_id(self.status.base_value, self.status.is_fixed)
    }

    /// The worst roll of the stat.
    pub fn min_id(&self) -> (r: i64)
        ensures
            r == min_spec(self.status.base_value as int, self.status.is_fixed),
    {
        min_id(self.status.base_value, self.status.is_fixed)
    }
}

/// The first entry for kind `id` among an item's stats.
pub open spec fn status_of(statuses: Seq<(Identification, StatusId)>, id: Identification) -> Option<
    StatusId,
>
    decreases statuses.len(),
{
    if statuses.len() == 0 {
        None
    } else if statuses[0].0 == id {
        Some(statuses[0].1)
    } else {
        status_of(statuses.drop_first(), id)
    }
}

/// The first entry for kind `id` among an item's stats.
pub fn status_lookup(statuses: &Vec<(Identification, StatusId)>, id: Identification) -> (r: Option<
    StatusId,
>)
    ensures
        r == status_of(statuses@, id),
{
    let n = statuses.len();
    let mut i: usize = 0;
    assert(statuses@.subrange(0, n as int) =~= statuses@);
    while i < n
        invariant
            n == statuses@.len(),
            i <= n,
            status_of(statuses@, id) == status_of(statuses@.subrange(i as int, n as int), id),
        decreases n - i,
    {
        assert(statuses@.subrange(i as int, n as int).drop_first() =~= statuses@.subrange(
            i + 1,
            n as int,
        ));
        if statuses[i].0 == id {
            return Some(statuses[i].1);
        }
        i = i + 1;
    }
    None
}

/// The stats of an item whose kinds the ordering table lists, in the
/// table's order.
pub open spec fn present_stats(
    order: Seq<(Identification, i32)>,
    statuses: Seq<(Identification, StatusId)>,
) -> Seq<Stat>
    decreases order.len(),
{
    if order.len() == 0 {
        Seq::empty()
    } else {
        let prev = present_stats(order.drop_last(), statuses);
        let (id, ordinal) = order.last();
        match status_of(statuses, id) {
            Some(status) => prev.push(Stat { id, ordinal, status }),
            None => prev,
        }
    }
}

/// The index of the first stat with the lowest ordinal among `s[0..n]`.
pub open spec fn first_min(s: Seq<Stat>, n: int) -> int
    decreases n,
{
    if n <= 1 {
        0
    } else {
        let m = first_min(s, n - 1);
        if s[n - 1].ordinal < s[m].ordinal {
            n - 1
        } else {
            m
        }
    }
}

/// The stats sorted by ordinal, stats with equal ordinals in their former
/// order: repeatedly the first stat with the lowest ordinal comes next.
pub open spec fn sort_by_ordinal(s: Seq<Stat>) -> Seq<Stat>
    decreases s.len(),
{
    let m = first_min(s, s.len() as int);
    if s.len() == 0 || !(0 <= m < s.len()) {
        Seq::empty()
    } else {
        seq![s[m]] + sort_by_ordinal(s.remove(m))
    }
}

/// The stats of `item` that the ordering table lists, in ordinal order.
pub open spec fn ordered_stats_spec(item: Item, order: IdentificationOrder) -> Seq<Stat> {
    sort_by_ordinal(present_stats(order.order@, item.statuses@))
}

/// The first lowest stat among `s[0..n]` lies in that range.
pub proof fn lemma_first_min_bounds(s: Seq<Stat>, n: int)
    requires
        1 <= n,
    ensures
        0 <= first_min(s, n) < n,
    decreases n,
{
    if n > 1 {
        lemma_first_min_bounds(s, n - 1);
    }
}

/// Each stat in the table's order is the item's entry for its kind.
pub proof fn lemma_present_stats_entries(
    order: Seq<(Identification, i32)>,
    statuses: Seq<(Identification, StatusId)>,
)
    ensures
        forall|i: int|
            0 <= i < present_stats(order, statuses).len() ==> status_of(
                statuses,
                (#[trigger] present_stats(order, statuses)[i]).id,
            ) == Some(present_stats(order, statuses)[i].status),
    decreases order.len(),
{
    if order.len() > 0 {
        lemma_present_stats_entries(order.drop_last(), statuses);
    }
}

/// Sorting keeps a property that every stat has.
pub proof fn lemma_sort_keeps(s: Seq<Stat>, p: spec_fn(Stat) -> bool)
    requires
        forall|i: int| 0 <= i < s.len() ==> p(#[trigger] s[i]),
    ensures
        forall|i: int|
            0 <= i < sort_by_ordinal(s).len() ==> p(#[trigger] sort_by_ordinal(s)[i]),
    decreases s.len(),
{
    if s.len() > 0 {
        lemma_first_min_bounds(s, s.len() as int);
        let m = first_min(s, s.len() as int);
        let rest = s.remove(m);
        assert forall|i: int| 0 <= i < rest.len() implies p(#[trigger] rest[i]) by {
            if i < m {
                assert(rest[i] == s[i]);
            } else {
                assert(rest[i] == s[i + 1]);
            }
        }
        lemma_sort_keeps(rest, p);
        let r = sort_by_ordinal(s);
        assert forall|i: int| 0 <= i < r.len() implies p(#[trigger] r[i]) by {
            if i > 0 {
                assert(r[i] == sort_by_ordinal(rest)[i - 1]);
            }
        }
    }
}

/// Each stat in ordinal order is the item's entry for its kind.
pub proof fn lemma_ordered_stats_entries(item: Item, order: IdentificationOrder)
    ensures
        forall|i: int|
            0 <= i < ordered_stats_spec(item, order).len() ==> status_of(
                item.statuses@,
                (#[trigger] ordered_stats_spec(item, order)[i]).id,
            ) == Some(ordered_stats_spec(item, order)[i].status),
{
    let statuses = item.statuses@;
    let present = present_stats(order.order@, statuses);
    lemma_present_stats_entries(order.order@, statuses);
    let p = |st: Stat| status_of(statuses, st.id) == Some(st.status);
    assert forall|i: int| 0 <= i < present.len() implies p(#[trigger] present[i]) by {}
    lemma_sort_keeps(present, p);
}

/// The first lowest stat among `s[0..n]` has the lowest ordinal there.
proof fn lemma_first_min_is_min(s: Seq<Stat>, n: int)
    requires
        1 <= n <= s.len(),
    ensures
        forall|k: int| 0 <= k < n ==> s[first_min(s, n)].ordinal <= #[trigger] s[k].ordinal,
    decreases n,
{
    if n > 1 {
        lemma_first_min_is_min(s, n - 1);
        lemma_first_min_bounds(s, n - 1);
    }
}

/// No two stats share an ordinal.
pub open spec fn distinct_ordinals(s: Seq<Stat>) -> bool {
    forall|i: int, j: int| 0 <= i < j < s.len() ==> #[trigger] s[i].ordinal != #[trigger] s[j].ordinal
}

/// The stats' ordinals rise strictly.
pub open spec fn increasing_ordinals(s: Seq<Stat>) -> bool {
    forall|i: int, j: int| 0 <= i < j < s.len() ==> #[trigger] s[i].ordinal < #[trigger] s[j].ordinal
}

/// Sorting stats with distinct ordinals makes their ordinals rise strictly.
proof fn lemma_sort_increasing(s: Seq<Stat>)
    requires
        distinct_ordinals(s),
    ensures
        increasing_ordinals(sort_by_ordinal(s)),
    decreases s.len(),
{
    if s.len() > 0 {
        let n = s.len() as int;
        lemma_first_min_bounds(s, n);
        lemma_first_min_is_min(s, n);
        let m = first_min(s, n);
        let rest = s.remove(m);
        assert forall|i: int, j: int| 0 <= i < j < rest.len() implies #[trigger] rest[i].ordinal
            != #[trigger] rest[j].ordinal by {
            let a = if i < m { i } else { i + 1 };
            let b = if j < m { j } else { j + 1 };
            assert(rest[i] == s[a] && rest[j] == s[b]);
        }
        lemma_sort_increasing(rest);
        let head = s[m];
        let p = |x: Stat| head.ordinal < x.ordinal;
        assert forall|i: int| 0 <= i < rest.len() implies p(#[trigger] rest[i]) by {
            let a = if i < m { i } else { i + 1 };
            assert(rest[i] == s[a]);
            assert(s[m].ordinal <= s[a].ordinal);
            if a < m {
                assert(s[a].ordinal != s[m].ordinal);
            } else {
                assert(s[m].ordinal != s[a].ordinal);
            }
        }
        lemma_sort_keeps(rest, p);
        let r = sort_by_ordinal(s);
        let t = sort_by_ordinal(rest);
        assert(r == seq![head] + t);
        assert forall|i: int, j: int| 0 <= i < j < r.len() implies #[trigger] r[i].ordinal
            < #[trigger] r[j].ordinal by {
            assert(r[j] == t[j - 1]);
            if i > 0 {
                assert(r[i] == t[i - 1]);
            } else {
                assert(p(t[j - 1]));
            }
        }
    }
}

/// Whether some entry of the ordering table has ordinal `k`.
pub open spec fn ordinal_listed(order: Seq<(Identification, i32)>, k: i32) -> bool {
    exists|a: int| 0 <= a < order.len() && #[trigger] order[a].1 == k
}

/// Each stat in the table's order has an ordinal of the table, and where the
/// table's ordinals are distinct, so are the stats'.
proof fn lemma_present_distinct(
    order: Seq<(Identification, i32)>,
    statuses: Seq<(Identification, StatusId)>,
)
    requires
        forall|i: int, j: int|
            0 <= i < j < order.len() ==> #[trigger] order[i].1 != #[trigger] order[j].1,
    ensures
        distinct_ordinals(present_stats(order, statuses)),
        forall|i: int|
            0 <= i < present_stats(order, statuses).len() ==> ordinal_listed(
                order,
                (#[trigger] present_stats(order, statuses)[i]).ordinal,
            ),
    decreases order.len(),
{
    if order.len() > 0 {
        let init = order.drop_last();
        assert forall|i: int, j: int| 0 <= i < j < init.len() implies #[trigger] init[i].1
            != #[trigger] init[j].1 by {
            assert(init[i] == order[i] && init[j] == order[j]);
        }
        lemma_present_distinct(init, statuses);
        let prev = present_stats(init, statuses);
        let cur = present_stats(order, statuses);
        let last = order.len() - 1;
        assert forall|i: int| 0 <= i < prev.len() implies ordinal_listed(
            order,
            #[trigger] prev[i].ordinal,
        ) && prev[i].ordinal != order[last].1 by {
            assert(ordinal_listed(init, prev[i].ordinal));
            let a = choose|a: int| 0 <= a < init.len() && #[trigger] init[a].1 == prev[i].ordinal;
            assert(order[a] == init[a]);
        }
        assert(ordinal_listed(order, order[last].1));
        if cur.len() > prev.len() {
            assert forall|i: int| 0 <= i < cur.len() implies ordinal_listed(
                order,
                (#[trigger] cur[i]).ordinal,
            ) by {
                if i < prev.len() {
                    assert(cur[i] == prev[i]);
                }
            }
            assert forall|i: int, j: int| 0 <= i < j < cur.len() implies #[trigger] cur[i].ordinal
                != #[trigger] cur[j].ordinal by {
                assert(cur[i] == prev[i]);
                if j < prev.len() {
                    assert(cur[j] == prev[j]);
                }
            }
        }
    }
}

/// With a well-formed ordering table an item's stats come in strictly rising
/// ordinal order, so each ordinal gives at most one stat.
pub proof fn lemma_ordered_stats_increasing(item: Item, order: IdentificationOrder)
    requires
        order.wf(),
    ensures
        increasing_ordinals(ordered_stats_spec(item, order)),
{
    assert forall|i: int, j: int| 0 <= i < j < order.order@.len() implies #[trigger] order.order@[i].1
        != #[trigger] order.order@[j].1 by {
        assert(order.order@[i].0 != order.order@[j].0);
    }
    lemma_present_distinct(order.order@, item.statuses@);
    lemma_sort_increasing(present_stats(order.order@, item.statuses@));
}

/// The index of the first stat with the lowest ordinal.
fn find_first_min(s: &Vec<Stat>) -> (m: usize)
    requires
        s@.len() >= 1,
    ensures
        m == first_min(s@, s@.len() as int),
        m < s@.len(),
{
    let mut m: usize = 0;
    let mut i: usize = 1;
    while i < s.len()
        invariant
            1 <= i <= s@.len(),
            m == first_min(s@, i as int),
            m < i,
        decreases s@.len() - i,
    {
        if s[i].ordinal < s[m].ordinal {
            m = i;
        }
        i = i + 1;
    }
    m
}

/// The stats of `item` that the ordering table lists, in ordinal order.
pub fn ordered_stats(item: &Item, order: &IdentificationOrder) -> (r: Vec<Stat>)
    ensures
        r@ == ordered_stats_spec(*item, *order),
{
    let mut present: Vec<Stat> = Vec::new();
    let n = order.order.len();
    let mut i: usize = 0;
    while i < n
        invariant
            n == order.order@.len(),
            i <= n,
            present@ == present_stats(order.order@.subrange(0, i as int), item.statuses@),
        decreases n - i,
    {
        assert(order.order@.subrange(0, i + 1).drop_last() =~= order.order@.subrange(0, i as int));
        let (id, ordinal) = order.order[i];
        match status_lookup(&item.statuses, id) {
            Some(status) => present.push(Stat { id, ordinal, status }),
            None => {},
        }
        i = i + 1;
    }
    assert(order.order@.subrange(0, n as int) =~= order.order@);
    let ghost all = present@;
    let mut out: Vec<Stat> = Vec::new();
    assert(out@ + sort_by_ordinal(present@) =~= sort_by_ordinal(all));
    while present.len() > 0
        invariant
            out@ + sort_by_ordinal(present@) == sort_by_ordinal(all),
        decreases present@.len(),
    {
        let m = find_first_min(&present);
        let ghost before = present@;
        let s = present.remove(m);
        assert(sort_by_ordinal(before) == seq![s] + sort_by_ordinal(present@));
        assert(out@.push(s) + sort_by_ordinal(present@) =~= out@ + sort_by_ordinal(before));
        out.push(s);
    }
    assert(out@ + sort_by_ordinal(present@) =~= out@);
    out
}

/// The last group that contains `ord`.
pub open spec fn last_group_containing(groups: Seq<IdGroup>, ord: i32) -> Option<IdGroup>
    decreases groups.len(),
{
    if groups.len() == 0 {
        None
    } else if groups.last().contains_spec(ord) {
        Some(groups.last())
    } else {
        last_group_containing(groups.drop_last(), ord)
    }
}

/// The group in force after a stat with ordinal `ord`: the last group that
/// contains it, or the group before if none does.
pub open spec fn group_after(prev: Option<IdGroup>, ord: i32, groups: Seq<IdGroup>) -> Option<
    IdGroup,
> {
    match last_group_containing(groups, ord) {
        Some(g) => Some(g),
        None => prev,
    }
}

/// The group in force after a stat with ordinal `ord`.
pub fn next_group(prev: Option<IdGroup>, ord: i32, groups: &Vec<IdGroup>) -> (r: Option<IdGroup>)
    ensures
        r == group_after(prev, ord, groups@),
{
    let mut cur = prev;
    let mut i: usize = 0;
    assert(groups@.subrange(0, 0) =~= Seq::<IdGroup>::empty());
    while i < groups.len()
        invariant
            i <= groups@.len(),
            cur == group_after(prev, ord, groups@.subrange(0, i as int)),
        decreases groups@.len() - i,
    {
        assert(groups@.subrange(0, i + 1).drop_last() =~= groups@.subrange(0, i as int));
        if groups[i].contains(ord) {
            cur = Some(groups[i]);
        }
        i = i + 1;
    }
    assert(groups@.subrange(0, groups@.len() as int) =~= groups@);
    cur
}

/// Whether `id` is one of the kinds in `ids`.
pub fn contains_id(ids: &Vec<Identification>, id: Identification) -> (r: bool)
    ensures
        r == ids@.contains(id),
{
    let mut i: usize = 0;
    while i < ids.len()
        invariant
            i <= ids@.len(),
            forall|j: int| 0 <= j < i ==> ids@[j] != id,
        decreases ids@.len() - i,
    {
        if ids[i] == id {
            return true;
        }
        i = i + 1;
    }
    false
}

} // verus!
