use vstd::prelude::*;
use crate::intersection::Intersection;

verus! {

/// How many nested secondary rays a camera ray may spawn.
pub const MAX_DEPTH: usize = 8;

/// The secondary rays that shading a hit casts, each with the depth budget it
/// is traced with, and whether the two are weighted by the Fresnel reflectance
/// (otherwise they are added unweighted).
#[derive(Clone, Copy, Debug, PartialEq, Eq, Structural)]
pub struct SecondaryRays {
    pub reflected: Option<usize>,
    pub refracted: Option<usize>,
    pub fresnel_blend: bool,
}

pub open spec fn plan(
    depth: usize,
    reflective: bool,
    transparent: bool,
    total_internal: bool,
) -> SecondaryRays {
    SecondaryRays {
        reflected: if depth > 0 && reflective {
            Some((depth - 1) as usize)
        } else {
            None
        },
        refracted: if depth > 0 && transparent && !total_internal {
            Some((depth - 1) as usize)
        } else {
            None
        },
        fresnel_blend: reflective && transparent,
    }
}

/// Some shading at depth `depth` casts a secondary ray traced at depth `next`.
pub open spec fn spawns(depth: usize, next: usize) -> bool {
    exists|reflective: bool, transparent: bool, total_internal: bool|
        {
            let p = #[trigger] plan(depth, reflective, transparent, total_internal);
            p.reflected == Some(next) || p.refracted == Some(next)
        }
}

/// Decides the secondary rays for a hit shaded with `depth` levels left, on a
/// material that is (or is not) reflective and transparent, where
/// `total_internal` says whether refraction is totally internal.
pub fn secondary_rays(depth: usize, reflective: bool, transparent: bool, total_internal: bool) -> (r:
    SecondaryRays)
    ensures
        r == plan(depth, reflective, transparent, total_internal),
{
    let reflected = if depth > 0 && reflective {
        Some(depth - 1)
    } else {
        None
    };
    let refracted = if depth > 0 && transparent && !total_internal {
        Some(depth - 1)
    } else {
        None
    };
    SecondaryRays { reflected, refracted, fresnel_blend: reflective && transparent }
}

/// Every chain of nested secondary rays that starts within the depth budget has
/// at most `MAX_DEPTH + 1` levels, whatever the materials: the recursion ends.
pub proof fn lemma_recursion_bounded(chain: Seq<usize>)
    requires
        chain.len() > 0,
        chain[0] <= MAX_DEPTH,
        forall|k: int| 0 <= k < chain.len() - 1 ==> spawns(#[trigger] chain[k], chain[k + 1]),
    ensures
        chain.len() <= MAX_DEPTH + 1,
        forall|k: int| 0 <= k < chain.len() ==> chain[k] + k <= MAX_DEPTH,
{
    assert forall|k: int| 0 <= k < chain.len() implies chain[k] + k <= MAX_DEPTH by {
        lemma_chain_step(chain, k);
    }
    let last = chain.len() - 1;
    assert(chain[last] + last <= MAX_DEPTH);
}

proof fn lemma_chain_step(chain: Seq<usize>, k: int)
    requires
        0 <= k < chain.len(),
        chain[0] <= MAX_DEPTH,
        forall|j: int| 0 <= j < chain.len() - 1 ==> spawns(#[trigger] chain[j], chain[j + 1]),
    ensures
        chain[k] + k <= MAX_DEPTH,
    decreases k,
{
    if k > 0 {
        lemma_chain_step(chain, k - 1);
        assert(spawns(chain[k - 1], chain[k]));
        let (a, b, c) = choose|a: bool, b: bool, c: bool|
            {
                let p = #[trigger] plan(chain[k - 1], a, b, c);
                p.reflected == Some(chain[k]) || p.refracted == Some(chain[k])
            };
        assert(chain[k] + 1 == chain[k - 1]);
    }
}

/// Whether a point is in shadow of a light: some crossing on the ray toward the
/// light lies in front of the point, nearer than the light, on an object that
/// casts shadows. `light_distance` is the light's distance as an order key, and
/// `casts_shadows[i]` says whether the object of crossing `i` casts shadows.
pub open spec fn shadowed(xs: Seq<Intersection>, casts_shadows: Seq<bool>, light_distance: i64) -> bool {
    exists|i: int|
        0 <= i < xs.len() && #[trigger] xs[i].t_key >= 0 && xs[i].t_key < light_distance
            && casts_shadows[i]
}

/// Decides `shadowed` for the crossings of a shadow ray.
pub fn is_shadowed(xs: &Vec<Intersection>, casts_shadows: &Vec<bool>, light_distance: i64) -> (r:
    bool)
    requires
        casts_shadows@.len() == xs@.len(),
    ensures
        r == shadowed(xs@, casts_shadows@, light_distance),
{
    let mut i: usize = 0;
    while i < xs.len()
        invariant
            i <= xs@.len(),
            casts_shadows@.len() == xs@.len(),
            forall|j: int|
                0 <= j < i ==> !(#[trigger] xs@[j].t_key >= 0 && xs@[j].t_key < light_distance
                    && casts_shadows@[j]),
        decreases xs@.len() - i,
    {
        let x = xs[i];
        if x.t_key >= 0 && x.t_key < light_distance && casts_shadows[i] {
            return true;
        }
        i = i + 1;
    }
    false
}

} // verus!
