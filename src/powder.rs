//! Powders and their packing: each slot character of an identification
//! string carries up to several stacked powders as the base-6 digits of its
//! integer, digit `d` standing for the powder with index `d - 1`.
use vstd::prelude::*;

verus! {

/// The elemental powders, in the order of their indices.
#[derive(Debug, PartialEq, Eq, Structural, Clone, Copy)]
pub enum Powders {
    Earth,
    Thunder,
    Water,
    Fire,
    Air,
}

/// The powder with index `n`; an index out of range counts as air.
pub open spec fn powder_of(n: int) -> Powders {
    if n == 0 {
        Powders::Earth
    } else if n == 1 {
        Powders::Thunder
    } else if n == 2 {
        Powders::Water
    } else if n == 3 {
        Powders::Fire
    } else {
        Powders::Air
    }
}

impl Powders {
    /// The powder with index `n`; an index out of range counts as air.
    pub fn from_i32(n: i32) -> (r: Self)
        ensures
            r == powder_of(n as int),
    {
        match n {
            0 => Powders::Earth,
            1 => Powders::Thunder,
            2 => Powders::Water,
            3 => Powders::Fire,
            _ => Powders::Air,
        }
    }
}

/// The powder indices packed into one slot integer `p`, least significant
/// first: digit `p % 6` gives index `p % 6 - 1`, and unpacking stops at the
/// first digit that gives no index (a zero digit, or `p <= 0`).
pub open spec fn unpack_slot(p: int) -> Seq<int>
    decreases p,
{
    if p <= 0 || p % 6 == 0 {
        Seq::empty()
    } else {
        seq![p % 6 - 1] + unpack_slot(p / 6)
    }
}

/// The indices of a list of slot integers, each slot's in unpacking order,
/// slots in list order.
pub open spec fn unpack_all(slots: Seq<int>) -> Seq<int>
    decreases slots.len(),
{
    if slots.len() == 0 {
        Seq::empty()
    } else {
        unpack_all(slots.drop_last()) + unpack_slot(slots.last())
    }
}

/// The powders that a powder segment's slot integers hold, in presentation
/// order: the slots are read last to first and the whole list of indices is
/// then reversed.
pub open spec fn powders_spec(slots: Seq<int>) -> Seq<Powders> {
    unpack_all(slots.reverse()).reverse().map_values(|d: int| powder_of(d))
}

/// The slot integer holding the powder indices `ds`, first index as the most
/// significant digit.
pub open spec fn pack_slot(ds: Seq<int>) -> int
    decreases ds.len(),
{
    if ds.len() == 0 {
        0
    } else {
        6 * pack_slot(ds.drop_last()) + ds.last() + 1
    }
}

/// Whether every index of `ds` names a powder.
pub open spec fn valid_indices(ds: Seq<int>) -> bool {
    forall|i: int| 0 <= i < ds.len() ==> 0 <= #[trigger] ds[i] <= 4
}

/// The indices that a slot integer holds, in presentation order.
fn unpack_slot_exec(p: i32, out: &mut Vec<i32>)
    ensures
        final(out)@.map_values(|d: i32| d as int) == old(out)@.map_values(|d: i32| d as int)
            + unpack_slot(p as int),
{
    let mut q: i32 = p;
    let ghost start = old(out)@.map_values(|d: i32| d as int);
    assert(start + unpack_slot(p as int) =~= out@.map_values(|d: i32| d as int) + unpack_slot(
        q as int,
    ));
    while q > 0 && q % 6 != 0
        invariant
            start + unpack_slot(p as int) =~= out@.map_values(|d: i32| d as int) + unpack_slot(
                q as int,
            ),
        decreases q,
    {
        let ghost before = out@.map_values(|d: i32| d as int);
        out.push(q % 6 - 1);
        assert(out@.map_values(|d: i32| d as int) =~= before.push((q % 6 - 1) as int));
        assert(before + unpack_slot(q as int) =~= before.push((q % 6 - 1) as int) + unpack_slot(
            (q / 6) as int,
        ));
        q = q / 6;
    }
    assert(unpack_slot(q as int) =~= Seq::<int>::empty());
    assert(out@.map_values(|d: i32| d as int) + unpack_slot(q as int) =~= out@.map_values(
        |d: i32| d as int,
    ));
}

/// The powders that the slot integers of a powder segment hold, in
/// presentation order.
pub fn decode_powders(slots: &Vec<i32>) -> (r: Vec<Powders>)
    ensures
        r@ == powders_spec(slots@.map_values(|p: i32| p as int)),
{
    let ghost all = slots@.map_values(|p: i32| p as int);
    let ghost rev = all.reverse();
    let mut digits: Vec<i32> = Vec::new();
    let mut k: usize = slots.len();
    assert(rev.subrange(0, 0) =~= Seq::<int>::empty());
    assert(digits@.map_values(|d: i32| d as int) =~= Seq::<int>::empty());
    while k > 0
        invariant
            k <= slots@.len(),
            all == slots@.map_values(|p: i32| p as int),
            rev == all.reverse(),
            digits@.map_values(|d: i32| d as int) == unpack_all(
                rev.subrange(0, slots@.len() - k),
            ),
        decreases k,
    {
        k = k - 1;
        let ghost done = slots@.len() - k;
        assert(rev.subrange(0, done).drop_last() =~= rev.subrange(0, done - 1));
        assert(rev.subrange(0, done).last() == slots@[k as int] as int);
        unpack_slot_exec(slots[k], &mut digits);
    }
    assert(rev.subrange(0, slots@.len() as int) =~= rev);
    let ghost emitted = unpack_all(rev);
    let mut r: Vec<Powders> = Vec::new();
    let mut j: usize = digits.len();
    while j > 0
        invariant
            j <= digits@.len(),
            emitted == digits@.map_values(|d: i32| d as int),
            r@ =~= emitted.reverse().subrange(0, digits@.len() - j).map_values(
                |d: int| powder_of(d),
            ),
        decreases j,
    {
        j = j - 1;
        r.push(Powders::from_i32(digits[j]));
        assert(r@ =~= emitted.reverse().subrange(0, digits@.len() - j).map_values(
            |d: int| powder_of(d),
        ));
    }
    assert(emitted.reverse().subrange(0, digits@.len() as int) =~= emitted.reverse());
    r
}

/// Unpacking a slot integer packed from valid indices gives the indices back,
/// last index first.
pub proof fn lemma_unpack_pack(ds: Seq<int>)
    requires
        valid_indices(ds),
    ensures
        unpack_slot(pack_slot(ds)) == ds.reverse(),
        pack_slot(ds) >= 0,
    decreases ds.len(),
{
    if ds.len() > 0 {
        let rest = ds.drop_last();
        assert(valid_indices(rest));
        lemma_unpack_pack(rest);
        let d = ds.last();
        let q = pack_slot(rest);
        let p = 6 * q + d + 1;
        assert(p % 6 == d + 1 && p / 6 == q);
        assert(ds.reverse() =~= seq![d] + rest.reverse());
    }
}

/// Each slot's powders survive packing and unpacking: unpacking a packed slot
/// and packing what came out gives the same slot integer back, and a whole
/// powder segment of packed slots decodes to every slot's powders, slot after
/// slot, each slot in its own order.
pub proof fn lemma_powder_round_trip(slots: Seq<Seq<int>>)
    requires
        forall|k: int| 0 <= k < slots.len() ==> valid_indices(#[trigger] slots[k]),
    ensures
        forall|k: int|
            0 <= k < slots.len() ==> #[trigger] pack_slot(unpack_slot(pack_slot(slots[k])).reverse())
                == pack_slot(slots[k]),
        powders_spec(slots.map_values(|ds: Seq<int>| pack_slot(ds))) == slots.flatten().map_values(
            |d: int| powder_of(d),
        ),
    decreases slots.len(),
{
    assert forall|k: int| 0 <= k < slots.len() implies #[trigger] pack_slot(
        unpack_slot(pack_slot(slots[k])).reverse(),
    ) == pack_slot(slots[k]) by {
        lemma_unpack_pack(slots[k]);
        assert(slots[k].reverse().reverse() =~= slots[k]);
    }
    lemma_unpack_all_packed(slots);
}

/// Unpacking the packed slots read last to first gives every slot's indices
/// in reverse.
proof fn lemma_unpack_all_packed(slots: Seq<Seq<int>>)
    requires
        forall|k: int| 0 <= k < slots.len() ==> valid_indices(#[trigger] slots[k]),
    ensures
        unpack_all(slots.map_values(|ds: Seq<int>| pack_slot(ds)).reverse()).reverse()
            == slots.flatten(),
    decreases slots.len(),
{
    let packed = slots.map_values(|ds: Seq<int>| pack_slot(ds));
    if slots.len() == 0 {
        assert(packed.reverse() =~= Seq::<int>::empty());
        assert(unpack_all(packed.reverse()) =~= Seq::<int>::empty());
        assert(unpack_all(packed.reverse()).reverse() =~= Seq::<int>::empty());
    } else {
        let rest = slots.drop_first();
        assert forall|k: int| 0 <= k < rest.len() implies valid_indices(#[trigger] rest[k]) by {
            assert(rest[k] == slots[k + 1]);
        }
        lemma_unpack_all_packed(rest);
        let packed_rest = rest.map_values(|ds: Seq<int>| pack_slot(ds));
        assert(packed.reverse().drop_last() =~= packed_rest.reverse());
        assert(packed.reverse().last() == pack_slot(slots[0]));
        lemma_unpack_pack(slots[0]);
        let a = unpack_all(packed_rest.reverse());
        let b = slots[0].reverse();
        assert((a + b).reverse() =~= b.reverse() + a.reverse());
        assert(b.reverse() =~= slots[0]);
        assert(slots.flatten() =~= slots[0] + rest.flatten());
    }
}

} // verus!
