use vstd::prelude::*;

verus! {

/// One crossing of a ray with the boundary of a primitive.
///
/// The distance along the ray is held as its order key (`key_of_bits`): keys compare as the
/// distances do, and a key is negative exactly when the distance is (the crossing
/// lies behind the ray's origin). `object` identifies the primitive crossed.
#[derive(Clone, Copy, Debug, PartialEq, Eq, Structural)]
pub struct Intersection {
    pub t_key: i64,
    pub object: usize,
}

/// The order key of a distance given by its IEEE 754 bit pattern: the magnitude
/// bits, negated where the sign bit is set. Numbers (all but NaN) order as
/// their keys do, a key is negative exactly when the number is below zero, and
/// both zeros have key 0.
pub open spec fn key_of_bits(bits: u64) -> int {
    let magnitude = (bits % 0x8000_0000_0000_0000) as int;
    if bits >= 0x8000_0000_0000_0000 {
        -magnitude
    } else {
        magnitude
    }
}

/// Computes `key_of_bits`.
pub fn order_key(bits: u64) -> (r: i64)
    ensures
        r == key_of_bits(bits),
{
    let magnitude = (bits % 0x8000_0000_0000_0000) as i64;
    if bits >= 0x8000_0000_0000_0000 {
        -magnitude
    } else {
        magnitude
    }
}

/// The keys of a sequence of intersections.
pub open spec fn keys_of(xs: Seq<Intersection>) -> Seq<i64> {
    xs.map_values(|x: Intersection| x.t_key)
}

/// The visible crossing: index `i` holds the smallest non-negative key, and no
/// earlier index holds the same key.
pub open spec fn is_hit(keys: Seq<i64>, i: int) -> bool {
    &&& 0 <= i < keys.len()
    &&& keys[i] >= 0
    &&& forall|j: int| 0 <= j < keys.len() && keys[j] >= 0 ==> keys[i] <= keys[j]
    &&& forall|j: int| 0 <= j < i && keys[j] >= 0 ==> keys[i] < keys[j]
}

/// No crossing lies on or in front of the ray's origin.
pub open spec fn all_behind(keys: Seq<i64>) -> bool {
    forall|j: int| 0 <= j < keys.len() ==> keys[j] < 0
}

/// The objects crossed by a sequence of intersections.
pub open spec fn objects_of(xs: Seq<Intersection>) -> Seq<usize> {
    xs.map_values(|x: Intersection| x.object)
}

/// Crossing the boundary of `o`: leave it if it is entered, enter it otherwise.
pub open spec fn toggle(stack: Seq<usize>, o: usize) -> Seq<usize> {
    if stack.contains(o) {
        stack.remove(stack.index_of(o))
    } else {
        stack.push(o)
    }
}

/// The objects the ray is inside of after the crossings `objects`, in the order
/// they were entered.
pub open spec fn containers(objects: Seq<usize>) -> Seq<usize>
    decreases objects.len(),
{
    if objects.len() == 0 {
        Seq::empty()
    } else {
        toggle(containers(objects.drop_last()), objects.last())
    }
}

/// The object most recently entered, or `None` in vacuum.
pub open spec fn innermost(stack: Seq<usize>) -> Option<usize> {
    if stack.len() == 0 {
        None
    } else {
        Some(stack.last())
    }
}

/// An object is entered at most once at a time.
pub proof fn lemma_containers_distinct(objects: Seq<usize>)
    ensures
        containers(objects).no_duplicates(),
    decreases objects.len(),
{
    if objects.len() > 0 {
        let before = containers(objects.drop_last());
        lemma_containers_distinct(objects.drop_last());
        let o = objects.last();
        if before.contains(o) {
            let k = before.index_of(o);
            before.remove_ensures(k);
        }
    }
}

/// How many of the crossings `objects` cross the boundary of `o`.
pub open spec fn times_crossed(objects: Seq<usize>, o: usize) -> nat
    decreases objects.len(),
{
    if objects.len() == 0 {
        0
    } else {
        times_crossed(objects.drop_last(), o) + if objects.last() == o {
            1nat
        } else {
            0nat
        }
    }
}

proof fn lemma_inside_iff_odd(objects: Seq<usize>, o: usize)
    ensures
        containers(objects).contains(o) <==> times_crossed(objects, o) % 2 == 1,
    decreases objects.len(),
{
    if objects.len() > 0 {
        let rest = objects.drop_last();
        let before = containers(rest);
        let last = objects.last();
        lemma_inside_iff_odd(rest, o);
        lemma_containers_distinct(rest);
        if before.contains(last) {
            let k = before.index_of(last);
            let after = before.remove(k);
            before.remove_ensures(k);
            if last == o {
                assert(!after.contains(o)) by {
                    if after.contains(o) {
                        let j = choose|j: int| 0 <= j < after.len() && after[j] == o;
                        if j < k {
                            assert(before[j] == o);
                        } else {
                            assert(before[j + 1] == o);
                        }
                    }
                };
            } else {
                if before.contains(o) {
                    let j = choose|j: int| 0 <= j < before.len() && before[j] == o;
                    if j < k {
                        assert(after[j] == o);
                    } else {
                        assert(j != k);
                        assert(after[j - 1] == o);
                    }
                }
                if after.contains(o) {
                    let j = choose|j: int| 0 <= j < after.len() && after[j] == o;
                    if j < k {
                        assert(before[j] == o);
                    } else {
                        assert(before[j + 1] == o);
                    }
                }
            }
        } else {
            let after = before.push(last);
            if last == o {
                assert(after[after.len() - 1] == o);
            } else {
                if before.contains(o) {
                    let j = choose|j: int| 0 <= j < before.len() && before[j] == o;
                    assert(after[j] == o);
                }
                if after.contains(o) {
                    let j = choose|j: int| 0 <= j < after.len() && after[j] == o;
                    assert(j < before.len());
                    assert(before[j] == o);
                }
            }
        }
    }
}

/// A ray that leaves every object it enters (each is crossed an even number of
/// times) is in vacuum after its last crossing.
pub proof fn lemma_balanced_crossings_end_in_vacuum(xs: Seq<Intersection>)
    requires
        xs.len() > 0,
        forall|o: usize| #[trigger] times_crossed(objects_of(xs), o) % 2 == 0,
    ensures
        innermost(containers(objects_of(xs).take(xs.len() as int))) is None,
{
    let objs = objects_of(xs);
    assert(objs.take(xs.len() as int) =~= objs);
    let stack = containers(objs);
    if stack.len() > 0 {
        let o = stack[0];
        assert(stack.contains(o));
        lemma_inside_iff_odd(objs, o);
        assert(times_crossed(objs, o) % 2 == 0);
    }
}

/// Applies `toggle` to a stack without repeated objects.
fn toggle_in(stack: &mut Vec<usize>, o: usize)
    requires
        old(stack)@.no_duplicates(),
    ensures
        final(stack)@ == toggle(old(stack)@, o),
{
    let mut p: usize = 0;
    let mut found = false;
    while p < stack.len() && !found
        invariant
            p <= stack@.len(),
            found ==> p < stack@.len() && stack@[p as int] == o,
            forall|j: int| 0 <= j < p ==> stack@[j] != o,
        decreases stack@.len() - p + (if found { 0int } else { 1 }),
    {
        if stack[p] == o {
            found = true;
        } else {
            p = p + 1;
        }
    }
    if found {
        proof {
            assert(stack@.contains(o));
            let k = stack@.index_of(o);
            assert(k == p);
        }
        stack.remove(p);
    } else {
        stack.push(o);
    }
}

fn innermost_of(stack: &Vec<usize>) -> (r: Option<usize>)
    ensures
        r == innermost(stack@),
{
    if stack.len() == 0 {
        None
    } else {
        Some(stack[stack.len() - 1])
    }
}

impl Intersection {
    /// The objects whose refractive indices hold on either side of the crossing
    /// at index `hit` of a t-ordered list: the innermost object entered before the
    /// crossing, and after it (`None` stands for vacuum).
    pub fn refractive_containers(xs: &Vec<Intersection>, hit: usize) -> (r: (
        Option<usize>,
        Option<usize>,
    ))
        requires
            hit < xs@.len(),
        ensures
            r.0 == innermost(containers(objects_of(xs@).take(hit as int))),
            r.1 == innermost(containers(objects_of(xs@).take(hit + 1))),
    {
        let ghost objs = objects_of(xs@);
        let mut stack: Vec<usize> = Vec::new();
        let mut i: usize = 0;
        while i < hit
            invariant
                i <= hit < xs@.len(),
                objs == objects_of(xs@),
                stack@ == containers(objs.take(i as int)),
            decreases hit - i,
        {
            proof {
                lemma_containers_distinct(objs.take(i as int));
                assert(objs.take(i + 1).drop_last() =~= objs.take(i as int));
            }
            toggle_in(&mut stack, xs[i].object);
            i = i + 1;
        }
        let n1 = innermost_of(&stack);
        proof {
            lemma_containers_distinct(objs.take(i as int));
            assert(objs.take(i + 1).drop_last() =~= objs.take(i as int));
        }
        toggle_in(&mut stack, xs[hit].object);
        let n2 = innermost_of(&stack);
        (n1, n2)
    }

    /// The index of the crossing with the smallest non-negative distance.
    pub fn hit(xs: &Vec<Intersection>) -> (r: Option<usize>)
        ensures
            r.is_none() <==> all_behind(keys_of(xs@)),
            r matches Some(i) ==> is_hit(keys_of(xs@), i as int),
    {
        let ghost keys = keys_of(xs@);
        let mut best: Option<usize> = None;
        let mut i: usize = 0;
        while i < xs.len()
            invariant
                i <= xs@.len(),
                keys == keys_of(xs@),
                best.is_none() <==> all_behind(keys.take(i as int)),
                best matches Some(b) ==> is_hit(keys.take(i as int), b as int),
            decreases xs@.len() - i,
        {
            let k = xs[i].t_key;
            proof {
                assert(keys[i as int] == k);
                assert(keys.take(i + 1).drop_last() =~= keys.take(i as int));
            }
            match best {
                None => {
                    if k >= 0 {
                        best = Some(i);
                    }
                },
                Some(b) => {
                    if k >= 0 && k < xs[b].t_key {
                        best = Some(i);
                    }
                },
            }
            proof {
                let next = keys.take(i + 1);
                if let Some(b) = best {
                    assert(next[b as int] >= 0);
                }
            }
            i = i + 1;
        }
        proof {
            assert(keys.take(xs@.len() as int) =~= keys);
        }
        best
    }
}

} // verus!
