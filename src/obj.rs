use vstd::prelude::*;

verus! {

/// The triangles of a polygon face with `corners` corners, as fan triples of
/// corner positions: the first corner with each pair of neighbours after it.
pub open spec fn fan(corners: nat) -> Seq<(usize, usize, usize)> {
    Seq::new(
        if corners >= 2 {
            (corners - 2) as nat
        } else {
            0
        },
        |k: int| (0usize, (k + 1) as usize, (k + 2) as usize),
    )
}

/// Splits a face of `corners` corners into `fan(corners)`; a face with fewer
/// than three corners gives no triangle.
pub fn fan_triangles(corners: usize) -> (r: Vec<(usize, usize, usize)>)
    ensures
        r@ == fan(corners as nat),
{
    let mut r: Vec<(usize, usize, usize)> = Vec::new();
    let mut k: usize = 0;
    let n: usize = if corners >= 2 {
        corners - 2
    } else {
        0
    };
    while k < n
        invariant
            k <= n,
            n == fan(corners as nat).len(),
            r@ =~= fan(corners as nat).take(k as int),
        decreases n - k,
    {
        r.push((0, k + 1, k + 2));
        k = k + 1;
        proof {
            assert(r@ =~= fan(corners as nat).take(k as int));
        }
    }
    proof {
        assert(fan(corners as nat).take(n as int) =~= fan(corners as nat));
    }
    r
}

/// A face corner's index as written (counting from one) made to count from
/// zero; zero, which names nothing, gives `None`.
pub fn from_one(index: usize) -> (r: Option<usize>)
    ensures
        r == (if index == 0 {
            None::<usize>
        } else {
            Some((index - 1) as usize)
        }),
{
    if index == 0 {
        None
    } else {
        Some(index - 1)
    }
}

} // verus!
