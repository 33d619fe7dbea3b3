use vstd::prelude::*;

verus! {

/// The three ways of combining two solids.
#[derive(Clone, Copy, Debug, PartialEq, Eq, Structural)]
pub enum CsgOp {
    Union,
    Intersection,
    Difference,
}

/// Whether a boundary crossing is a visible surface of the combined solid.
pub open spec fn allowed(op: CsgOp, left_hit: bool, inl: bool, inr: bool) -> bool {
    match op {
        CsgOp::Union => (left_hit && !inr) || (!left_hit && !inl),
        CsgOp::Intersection => (left_hit && inr) || (!left_hit && inl),
        CsgOp::Difference => (left_hit && !inr) || (!left_hit && inl),
    }
}

impl CsgOp {
    pub fn intersection_allowed(&self, left_hit: bool, inl: bool, inr: bool) -> (r: bool)
        ensures
            r == allowed(*self, left_hit, inl, inr),
    {
        match self {
            CsgOp::Union => (left_hit && !inr) || (!left_hit && !inl),
            CsgOp::Intersection => (left_hit && inr) || (!left_hit && inl),
            CsgOp::Difference => (left_hit && !inr) || (!left_hit && inl),
        }
    }
}

/// Whether the ray is inside the solid of one side after the crossings `flags`
/// (`true` marks a crossing of the left solid): the parity of that side's crossings.
pub open spec fn inside(flags: Seq<bool>, side: bool) -> bool
    decreases flags.len(),
{
    if flags.len() == 0 {
        false
    } else if flags.last() == side {
        !inside(flags.drop_last(), side)
    } else {
        inside(flags.drop_last(), side)
    }
}

/// Whether the crossing at position `i` of a t-ordered scan is kept by `op`.
pub open spec fn kept(op: CsgOp, flags: Seq<bool>, i: int) -> bool {
    allowed(op, flags[i], inside(flags.take(i), true), inside(flags.take(i), false))
}

/// The same crossings, with the two children exchanged.
pub open spec fn swapped(flags: Seq<bool>) -> Seq<bool> {
    flags.map_values(|b: bool| !b)
}

/// A union keeps exactly the crossings of either solid that do not lie inside
/// the other solid.
pub proof fn lemma_union_keeps_outside(flags: Seq<bool>, i: int)
    requires
        0 <= i < flags.len(),
    ensures
        kept(CsgOp::Union, flags, i) <==> (if flags[i] {
            !inside(flags.take(i), false)
        } else {
            !inside(flags.take(i), true)
        }),
{
}

proof fn lemma_inside_swapped(flags: Seq<bool>, side: bool)
    ensures
        inside(swapped(flags), side) == inside(flags, !side),
    decreases flags.len(),
{
    if flags.len() > 0 {
        assert(swapped(flags).drop_last() =~= swapped(flags.drop_last()));
        lemma_inside_swapped(flags.drop_last(), side);
    }
}

/// Union and intersection do not depend on which child is the left one: with
/// the children exchanged, each keeps the same crossings.
pub proof fn lemma_symmetric_ops(flags: Seq<bool>, i: int)
    requires
        0 <= i < flags.len(),
    ensures
        kept(CsgOp::Union, swapped(flags), i) == kept(CsgOp::Union, flags, i),
        kept(CsgOp::Intersection, swapped(flags), i) == kept(CsgOp::Intersection, flags, i),
{
    assert(swapped(flags).take(i) =~= swapped(flags.take(i)));
    lemma_inside_swapped(flags.take(i), true);
    lemma_inside_swapped(flags.take(i), false);
}

/// Two convex solids whose spans along the ray overlap: each is crossed twice
/// (entered, then left), and the second crossing is not of the solid crossed
/// first.
pub open spec fn overlapping_pair(flags: Seq<bool>) -> bool {
    &&& flags.len() == 4
    &&& flags[0] != flags[1]
    &&& (flags[2] != flags[3])
}

/// Of two overlapping convex solids, the intersection keeps exactly the two
/// inner crossings, and the union exactly the two outer ones.
pub proof fn lemma_overlapping_pair(flags: Seq<bool>)
    requires
        overlapping_pair(flags),
    ensures
        !kept(CsgOp::Intersection, flags, 0),
        kept(CsgOp::Intersection, flags, 1),
        kept(CsgOp::Intersection, flags, 2),
        !kept(CsgOp::Intersection, flags, 3),
        kept(CsgOp::Union, flags, 0),
        !kept(CsgOp::Union, flags, 1),
        !kept(CsgOp::Union, flags, 2),
        kept(CsgOp::Union, flags, 3),
{
    let t0 = flags.take(0);
    let t1 = flags.take(1);
    let t2 = flags.take(2);
    let t3 = flags.take(3);
    assert(t1.drop_last() =~= t0);
    assert(t2.drop_last() =~= t1);
    assert(t3.drop_last() =~= t2);
    assert(t1.last() == flags[0]);
    assert(t2.last() == flags[1]);
    assert(t3.last() == flags[2]);
    reveal_with_fuel(inside, 4);
}

/// Classifies the t-ordered crossings of a combined solid. `on_left[i]` says whether
/// crossing `i` belongs to the left child; the result marks the crossings kept.
pub fn filter_intersections(op: CsgOp, on_left: &Vec<bool>) -> (r: Vec<bool>)
    ensures
        r@.len() == on_left@.len(),
        forall|i: int| 0 <= i < r@.len() ==> r@[i] == kept(op, on_left@, i),
{
    let mut inl = false;
    let mut inr = false;
    let mut result: Vec<bool> = Vec::new();
    let mut i: usize = 0;
    while i < on_left.len()
        invariant
            i <= on_left@.len(),
            result@.len() == i,
            inl == inside(on_left@.take(i as int), true),
            inr == inside(on_left@.take(i as int), false),
            forall|j: int| 0 <= j < i ==> result@[j] == kept(op, on_left@, j),
        decreases on_left@.len() - i,
    {
        let left_hit = on_left[i];
        result.push(op.intersection_allowed(left_hit, inl, inr));
        proof {
            let next = on_left@.take(i + 1);
            assert(next.drop_last() =~= on_left@.take(i as int));
            assert(next.last() == left_hit);
        }
        if left_hit {
            inl = !inl;
        } else {
            inr = !inr;
        }
        i = i + 1;
    }
    result
}

} // verus!
