use vstd::prelude::*;

verus! {

/// Per-vertex masses of a strand whose vertices all weigh `m0` except the
/// last one, which weighs `m1`.
pub fn end_weighted_masses<S: Copy>(num_verts: usize, m0: S, m1: S) -> (masses: Vec<S>)
    ensures
        masses@.len() == num_verts,
        forall|i: int|
            0 <= i < num_verts ==> #[trigger] masses@[i] == if i == num_verts - 1 {
                m1
            } else {
                m0
            },
{
    let mut masses: Vec<S> = Vec::new();
    let mut iv: usize = 0;
    while iv < num_verts
        invariant
            iv <= num_verts,
            masses@.len() == iv,
            forall|i: int|
                0 <= i < iv ==> #[trigger] masses@[i] == if i == num_verts - 1 {
                    m1
                } else {
                    m0
                },
        decreases num_verts - iv,
    {
        if iv < num_verts - 1 {
            masses.push(m0);
        } else {
            masses.push(m1);
        }
        iv = iv + 1;
    }
    masses
}

/// Per-edge stiffnesses of `num_edges` springs alternating between
/// `stiffness1` (even edges) and `stiffness2` (odd edges).
pub fn alternating_stiffnesses<S: Copy>(num_edges: usize, stiffness1: S, stiffness2: S) -> (stiffnesses: Vec<S>)
    ensures
        stiffnesses@.len() == num_edges,
        forall|i: int|
            0 <= i < num_edges ==> #[trigger] stiffnesses@[i] == if i % 2 == 1 {
                stiffness2
            } else {
                stiffness1
            },
{
    let mut stiffnesses: Vec<S> = Vec::new();
    let mut ie: usize = 0;
    while ie < num_edges
        invariant
            ie <= num_edges,
            stiffnesses@.len() == ie,
            forall|i: int|
                0 <= i < ie ==> #[trigger] stiffnesses@[i] == if i % 2 == 1 {
                    stiffness2
                } else {
                    stiffness1
                },
        decreases num_edges - ie,
    {
        if ie % 2 == 1 {
            stiffnesses.push(stiffness2);
        } else {
            stiffnesses.push(stiffness1);
        }
        ie = ie + 1;
    }
    stiffnesses
}

} // verus!
