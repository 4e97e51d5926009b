use vstd::prelude::*;

verus! {

/// Rest length of a spring, in terms of the segment lengths the strand was
/// built from: a stretch spring spans one segment, a skip spring spans two
/// consecutive segments and rests at their sum.
#[derive(Clone, Copy, Debug, PartialEq)]
pub enum RestLength<S> {
    Single(S),
    Joined(S, S),
}

/// Whether the edge `e` has `v` as one of its two endpoints.
pub open spec fn touches(e: [i32; 2], v: int) -> bool {
    e[0] == v || e[1] == v
}

/// Ids of the edges of `edges` that touch vertex `v`, in increasing order.
pub open spec fn incident_edges(edges: Seq<[i32; 2]>, v: int) -> Seq<i32>
    decreases edges.len(),
{
    if edges.len() == 0 {
        Seq::empty()
    } else {
        let rest = incident_edges(edges.drop_last(), v);
        if touches(edges.last(), v) {
            rest.push((edges.len() - 1) as i32)
        } else {
            rest
        }
    }
}

/// Whether the edge `e` joins vertex `a` to vertex `b`, in that order.
pub open spec fn edge_is(e: [i32; 2], a: int, b: int) -> bool {
    e[0] == a && e[1] == b
}

/// Number of springs of a strand of `n` segments built by `from_uniform`:
/// one stretch spring per segment, plus one skip spring per pair of
/// consecutive segments when skip springs are added.
pub open spec fn uniform_edge_count(n: nat, add_skip_spring: bool) -> nat {
    if add_skip_spring && n > 0 {
        (2 * n - 1) as nat
    } else {
        n
    }
}

/// Number of springs present after the first `i` of `n` segments were
/// processed by `from_uniform`.
pub open spec fn uniform_prefix_count(i: nat, n: nat, add_skip_spring: bool) -> nat {
    if add_skip_spring {
        if i == n && n > 0 {
            (2 * i - 1) as nat
        } else {
            2 * i
        }
    } else {
        i
    }
}

/// Index of the first segment spanned by spring `k` of a uniform strand.
pub open spec fn uniform_segment(k: int, add_skip_spring: bool) -> int {
    if add_skip_spring {
        k / 2
    } else {
        k
    }
}

/// Whether spring `k` of a uniform strand is a skip spring (spanning two
/// segments) rather than a stretch spring (spanning one).
pub open spec fn uniform_is_skip(k: int, add_skip_spring: bool) -> bool {
    add_skip_spring && k % 2 == 1
}

/// What the numbering of a uniform strand's springs means: without skip
/// springs, spring `k` is the stretch spring of segment `k`; with skip
/// springs, even spring `2i` is the stretch spring of segment `i` and odd
/// spring `2i + 1` is the skip spring starting at segment `i`.
pub proof fn lemma_uniform_spring_layout(add_skip_spring: bool)
    ensures
        forall|k: int|
            #![trigger uniform_segment(k, add_skip_spring)]
            #![trigger uniform_is_skip(k, add_skip_spring)]
            0 <= k ==> {
                &&& !add_skip_spring ==> uniform_segment(k, add_skip_spring) == k
                    && !uniform_is_skip(k, add_skip_spring)
                &&& add_skip_spring ==> (uniform_is_skip(k, add_skip_spring) <==> k % 2 == 1)
                &&& add_skip_spring ==> 2 * uniform_segment(k, add_skip_spring) + (if k % 2 == 1 {
                    1int
                } else {
                    0int
                }) == k
            },
        forall|n: nat|
            #![trigger uniform_edge_count(n, add_skip_spring)]
            uniform_edge_count(n, add_skip_spring) == if add_skip_spring && n > 0 {
                2 * n - 1
            } else {
                n as int
            },
{
}

/// One spring acting on a vertex, as the solver reads it: the spring's id,
/// its two endpoints in the order the edge stores them, its rest length and
/// stiffness, and whether the vertex is the spring's first endpoint (which
/// fixes the sign of the spring force on it).
#[derive(Debug)]
pub struct SpringTerm<S> {
    pub edge: usize,
    pub v1: usize,
    pub v2: usize,
    pub rest_length: RestLength<S>,
    pub stiffness: S,
    pub vertex_is_first: bool,
}

/// The spring topology and spring parameters of a strand.  `S` is the scalar
/// type of masses, stiffnesses and lengths; the library only moves such values
/// around and never computes with them.
pub struct VBDStrand<S> {
    /// Number of vertices.
    pub num_verts: usize,
    /// Per-vertex masses.
    pub vertex_mass: Vec<S>,
    /// Each edge is a pair of vertex indices `[v0, v1]`.
    pub edges: Vec<[i32; 2]>,
    /// Per-edge stiffness values (indexed by edge id).
    pub edges_stiffness: Vec<S>,
    /// For each vertex, the ids of the edges that touch it.
    pub vert_adjacent_edges: Vec<Vec<i32>>,
    /// Total number of edges.
    pub n_edges: usize,
    /// Uniform stiffness of stretch springs.
    pub stiffness: S,
    /// Stiffness of skip springs.
    pub stiffness_skip_spring: S,
    /// Rest lengths of every edge.
    pub org_lengths: Vec<RestLength<S>>,
}

impl<S> VBDStrand<S> {
    /// The adjacency lists as sequences.
    pub open spec fn adjacency(&self) -> Seq<Seq<i32>> {
        self.vert_adjacent_edges@.map_values(|l: Vec<i32>| l@)
    }

    /// Well-formedness: sizes agree, every edge joins two distinct vertices of
    /// the strand, and every vertex's adjacency list is exactly the increasing
    /// list of the edges that touch it.
    pub open spec fn wf(&self) -> bool {
        &&& self.num_verts <= i32::MAX
        &&& self.vertex_mass@.len() == self.num_verts
        &&& self.vert_adjacent_edges@.len() == self.num_verts
        &&& self.n_edges == self.edges@.len()
        &&& self.org_lengths@.len() == self.n_edges
        &&& self.edges_stiffness@.len() >= self.n_edges
        &&& self.n_edges <= i32::MAX + 1
        &&& forall|e: int|
            0 <= e < self.edges@.len() ==> {
                &&& 0 <= #[trigger] self.edges@[e][0] < self.edges@[e][1]
                &&& self.edges@[e][1] < self.num_verts
            }
        &&& forall|v: int|
            0 <= v < self.num_verts ==> #[trigger] self.adjacency()[v] == incident_edges(
                self.edges@,
                v,
            )
    }

    /// An empty strand whose stiffness parameters are `zero`.
    pub fn new_empty(zero: S) -> (r: Self)
        where S: Copy,
        ensures
            r.wf(),
            r.num_verts == 0,
            r.n_edges == 0,
            r.vertex_mass@ == Seq::<S>::empty(),
            r.edges@ == Seq::<[i32; 2]>::empty(),
            r.edges_stiffness@ == Seq::<S>::empty(),
            r.vert_adjacent_edges@ == Seq::<Vec<i32>>::empty(),
            r.org_lengths@ == Seq::<RestLength<S>>::empty(),
            r.stiffness == zero,
            r.stiffness_skip_spring == zero,
    {
        VBDStrand {
            num_verts: 0,
            vertex_mass: Vec::new(),
            edges: Vec::new(),
            edges_stiffness: Vec::new(),
            vert_adjacent_edges: Vec::new(),
            n_edges: 0,
            stiffness: zero,
            stiffness_skip_spring: zero,
            org_lengths: Vec::new(),
        }
    }
}

impl<S: Copy> VBDStrand<S> {
    /// Rebuilds the strand from per-vertex `masses` and per-segment rest
    /// `lengths` (vertex `i` and `i + 1` are joined by segment `i`), with one
    /// stretch spring of stiffness `stiffness_in` per segment and, when
    /// `add_skip_spring` holds, a skip spring of stiffness
    /// `stiffness_skip_spring_in` joining vertices `i` and `i + 2` for each pair
    /// of consecutive segments.  Springs are numbered in the order they are
    /// created: the stretch spring of segment `i`, then its skip spring.
    pub fn from_uniform(
        &mut self,
        masses: &[S],
        lengths: &[S],
        stiffness_in: S,
        add_skip_spring: bool,
        stiffness_skip_spring_in: S,
    )
        requires
            masses@.len() == lengths@.len() + 1,
            lengths@.len() < i32::MAX,
            uniform_edge_count(lengths@.len(), add_skip_spring) <= i32::MAX + 1,
        ensures
            final(self).wf(),
            final(self).num_verts == lengths@.len() + 1,
            final(self).vertex_mass@ == masses@,
            final(self).stiffness == stiffness_in,
            final(self).stiffness_skip_spring == stiffness_skip_spring_in,
            final(self).n_edges == uniform_edge_count(lengths@.len(), add_skip_spring),
            forall|k: int|
                #![trigger final(self).edges@[k]]
                #![trigger final(self).edges_stiffness@[k]]
                #![trigger final(self).org_lengths@[k]]
                0 <= k < final(self).n_edges ==> {
                    let i = uniform_segment(k, add_skip_spring);
                    let skip = uniform_is_skip(k, add_skip_spring);
                    &&& edge_is(
                        final(self).edges@[k],
                        i,
                        if skip { i + 2 } else { i + 1 },
                    )
                    &&& final(self).edges_stiffness@[k] == if skip {
                        stiffness_skip_spring_in
                    } else {
                        stiffness_in
                    }
                    &&& final(self).org_lengths@[k] == if skip {
                        RestLength::Joined(lengths@[i], lengths@[i + 1])
                    } else {
                        RestLength::Single(lengths@[i])
                    }
                },
            final(self).edges_stiffness@.len() == final(self).n_edges,
            add_skip_spring && lengths@.len() > 0 ==> final(self).n_edges == 2 * lengths@.len() - 1,
            !add_skip_spring ==> final(self).n_edges == lengths@.len(),
            // each segment `i` has its stretch spring `(i, i + 1)`
            !add_skip_spring ==> forall|i: int|
                0 <= i < lengths@.len() ==> {
                    &&& edge_is(#[trigger] final(self).edges@[i], i, i + 1)
                    &&& final(self).edges_stiffness@[i] == stiffness_in
                    &&& final(self).org_lengths@[i] == RestLength::Single(lengths@[i])
                },
            add_skip_spring ==> forall|i: int|
                0 <= i < lengths@.len() ==> {
                    &&& edge_is(#[trigger] final(self).edges@[2 * i], i, i + 1)
                    &&& final(self).edges_stiffness@[2 * i] == stiffness_in
                    &&& final(self).org_lengths@[2 * i] == RestLength::Single(lengths@[i])
                },
            // with skip springs, each pair of consecutive segments `i`, `i + 1`
            // has its skip spring `(i, i + 2)` right after the stretch spring of `i`
            add_skip_spring ==> forall|i: int|
                0 <= i < lengths@.len() - 1 ==> {
                    &&& edge_is(#[trigger] final(self).edges@[2 * i + 1], i, i + 2)
                    &&& final(self).edges_stiffness@[2 * i + 1] == stiffness_skip_spring_in
                    &&& final(self).org_lengths@[2 * i + 1] == RestLength::Joined(
                        lengths@[i],
                        lengths@[i + 1],
                    )
                },
    {
        let n = lengths.len();
        let num_verts = n + 1;
        let mut adj = empty_adjacency(num_verts);
        let mut edges: Vec<[i32; 2]> = Vec::new();
        let mut stiff: Vec<S> = Vec::new();
        let mut rest: Vec<RestLength<S>> = Vec::new();
        assert forall|u: int| 0 <= u < num_verts implies (#[trigger] adj@[u])@ == incident_edges(edges@, u) by {}
        let mut i: usize = 0;
        while i < n
            invariant
                n == lengths@.len(),
                num_verts == n + 1,
                n < i32::MAX,
                uniform_edge_count(n as nat, add_skip_spring) <= i32::MAX + 1,
                i <= n,
                adj@.len() == num_verts,
                edges@.len() == uniform_prefix_count(i as nat, n as nat, add_skip_spring),
                stiff@.len() == edges@.len(),
                rest@.len() == edges@.len(),
                forall|u: int| 0 <= u < num_verts ==> (#[trigger] adj@[u])@ == incident_edges(edges@, u),
                forall|k: int|
                    #![trigger edges@[k]]
                    #![trigger stiff@[k]]
                    #![trigger rest@[k]]
                    0 <= k < edges@.len() ==> {
                        let j = uniform_segment(k, add_skip_spring);
                        let skip = uniform_is_skip(k, add_skip_spring);
                        &&& edge_is(edges@[k], j, if skip { j + 2 } else { j + 1 })
                        &&& stiff@[k] == if skip {
                            stiffness_skip_spring_in
                        } else {
                            stiffness_in
                        }
                        &&& rest@[k] == if skip {
                            RestLength::Joined(lengths@[j], lengths@[j + 1])
                        } else {
                            RestLength::Single(lengths@[j])
                        }
                    },
            decreases n - i,
        {
            let edge_id = edges.len() as i32;
            let e: [i32; 2] = [i as i32, (i + 1) as i32];
            proof {
                assert forall|u: int| 0 <= u < num_verts implies #[trigger] incident_edges(edges@.push(e), u)
                    == if touches(e, u) { incident_edges(edges@, u).push(edge_id) } else { incident_edges(edges@, u) } by {
                    lemma_incident_push(edges@, e, u);
                }
            }
            edges.push(e);
            adj[i].push(edge_id);
            adj[i + 1].push(edge_id);
            stiff.push(stiffness_in);
            rest.push(RestLength::Single(lengths[i]));
            if add_skip_spring && i < n - 1 {
                let skip_edge_id = edges.len() as i32;
                let se: [i32; 2] = [i as i32, (i + 2) as i32];
                proof {
                    assert forall|u: int| 0 <= u < num_verts implies #[trigger] incident_edges(edges@.push(se), u)
                        == if touches(se, u) { incident_edges(edges@, u).push(skip_edge_id) } else { incident_edges(edges@, u) } by {
                        lemma_incident_push(edges@, se, u);
                    }
                }
                edges.push(se);
                adj[i].push(skip_edge_id);
                adj[i + 2].push(skip_edge_id);
                stiff.push(stiffness_skip_spring_in);
                rest.push(RestLength::Joined(lengths[i], lengths[i + 1]));
            }
            i = i + 1;
        }
        self.num_verts = num_verts;
        self.vertex_mass = vstd::slice::slice_to_vec(masses);
        self.edges = edges;
        self.edges_stiffness = stiff;
        self.vert_adjacent_edges = adj;
        self.n_edges = self.edges.len();
        self.stiffness = stiffness_in;
        self.stiffness_skip_spring = stiffness_skip_spring_in;
        self.org_lengths = rest;
        proof {
            if add_skip_spring {
                assert forall|i: int| 0 <= i < n implies {
                    &&& edge_is(#[trigger] self.edges@[2 * i], i, i + 1)
                    &&& self.edges_stiffness@[2 * i] == stiffness_in
                    &&& self.org_lengths@[2 * i] == RestLength::Single(lengths@[i])
                } by {
                    let k = 2 * i;
                    assert(k < self.n_edges);
                    assert(uniform_segment(k, true) == i);
                    assert(!uniform_is_skip(k, true));
                    assert(self.edges_stiffness@[k] == stiffness_in);
                }
            } else {
                assert forall|i: int| 0 <= i < n implies {
                    &&& edge_is(#[trigger] self.edges@[i], i, i + 1)
                    &&& self.edges_stiffness@[i] == stiffness_in
                    &&& self.org_lengths@[i] == RestLength::Single(lengths@[i])
                } by {
                    assert(uniform_segment(i, false) == i);
                    assert(!uniform_is_skip(i, false));
                    assert(self.edges_stiffness@[i] == stiffness_in);
                }
            }
            if add_skip_spring {
                assert forall|i: int| 0 <= i < n - 1 implies {
                    &&& edge_is(#[trigger] self.edges@[2 * i + 1], i, i + 2)
                    &&& self.edges_stiffness@[2 * i + 1] == stiffness_skip_spring_in
                    &&& self.org_lengths@[2 * i + 1] == RestLength::Joined(
                        lengths@[i],
                        lengths@[i + 1],
                    )
                } by {
                    let k = 2 * i + 1;
                    assert(k < self.n_edges);
                    assert(uniform_segment(k, true) == i);
                    assert(uniform_is_skip(k, true));
                    assert(self.edges_stiffness@[k] == stiffness_skip_spring_in);
                }
            }
        }
    }

    /// Rebuilds the strand as a chain of stretch springs, one per segment,
    /// from per-vertex `masses` and per-segment rest `lengths`.  The stiffness
    /// table becomes `stiffness_in` followed by one copy of the strand's current
    /// uniform `stiffness` per spring, so spring `k` reads `stiffness_in[k]`
    /// where `stiffness_in` is long enough and the uniform stiffness past its
    /// end.  The uniform and skip stiffness values are left unchanged.
    pub fn from_per_edge(&mut self, masses: &[S], lengths: &[S], stiffness_in: Vec<S>)
        requires
            masses@.len() == lengths@.len() + 1,
            lengths@.len() < i32::MAX,
        ensures
            final(self).wf(),
            final(self).num_verts == lengths@.len() + 1,
            final(self).vertex_mass@ == masses@,
            final(self).stiffness == old(self).stiffness,
            final(self).stiffness_skip_spring == old(self).stiffness_skip_spring,
            final(self).n_edges == lengths@.len(),
            final(self).edges_stiffness@ == stiffness_in@ + Seq::new(
                lengths@.len(),
                |k: int| old(self).stiffness,
            ),
            forall|k: int|
                #![trigger final(self).edges@[k]]
                #![trigger final(self).org_lengths@[k]]
                0 <= k < final(self).n_edges ==> {
                    &&& edge_is(final(self).edges@[k], k, k + 1)
                    &&& final(self).org_lengths@[k] == RestLength::Single(lengths@[k])
                },
    {
        let n = lengths.len();
        let num_verts = n + 1;
        let uniform = self.stiffness;
        let ghost given = stiffness_in@;
        let mut stiff = stiffness_in;
        let mut adj = empty_adjacency(num_verts);
        let mut edges: Vec<[i32; 2]> = Vec::new();
        let mut rest: Vec<RestLength<S>> = Vec::new();
        assert forall|u: int| 0 <= u < num_verts implies (#[trigger] adj@[u])@ == incident_edges(edges@, u) by {}
        let mut i: usize = 0;
        while i < n
            invariant
                n == lengths@.len(),
                num_verts == n + 1,
                n < i32::MAX,
                i <= n,
                adj@.len() == num_verts,
                edges@.len() == i,
                rest@.len() == i,
                stiff@ == given + Seq::new(i as nat, |k: int| uniform),
                forall|u: int| 0 <= u < num_verts ==> (#[trigger] adj@[u])@ == incident_edges(edges@, u),
                forall|k: int|
                    #![trigger edges@[k]]
                    #![trigger rest@[k]]
                    0 <= k < i ==> {
                        &&& edge_is(edges@[k], k, k + 1)
                        &&& rest@[k] == RestLength::Single(lengths@[k])
                    },
            decreases n - i,
        {
            let edge_id = edges.len() as i32;
            let e: [i32; 2] = [i as i32, (i + 1) as i32];
            proof {
                assert forall|u: int| 0 <= u < num_verts implies #[trigger] incident_edges(edges@.push(e), u)
                    == if touches(e, u) { incident_edges(edges@, u).push(edge_id) } else { incident_edges(edges@, u) } by {
                    lemma_incident_push(edges@, e, u);
                }
            }
            edges.push(e);
            adj[i].push(edge_id);
            adj[i + 1].push(edge_id);
            stiff.push(uniform);
            assert(stiff@ =~= given + Seq::new((i + 1) as nat, |k: int| uniform));
            rest.push(RestLength::Single(lengths[i]));
            i = i + 1;
        }
        self.num_verts = num_verts;
        self.vertex_mass = vstd::slice::slice_to_vec(masses);
        self.edges = edges;
        self.edges_stiffness = stiff;
        self.vert_adjacent_edges = adj;
        self.n_edges = self.edges.len();
        self.org_lengths = rest;
    }
}

impl<S: Copy> VBDStrand<S> {
    /// The springs acting on vertex `iv`, in the order of its adjacency list.
    pub fn springs_at(&self, iv: usize) -> (terms: Vec<SpringTerm<S>>)
        requires
            self.wf(),
            iv < self.num_verts,
        ensures
            terms@.len() == self.adjacency()[iv as int].len(),
            forall|j: int|
                0 <= j < terms@.len() ==> {
                    let e = self.adjacency()[iv as int][j] as int;
                    &&& 0 <= e < self.n_edges
                    &&& (#[trigger] terms@[j]).edge == e
                    &&& terms@[j].v1 == self.edges@[e][0]
                    &&& terms@[j].v2 == self.edges@[e][1]
                    &&& terms@[j].rest_length == self.org_lengths@[e]
                    &&& terms@[j].stiffness == self.edges_stiffness@[e]
                    &&& terms@[j].vertex_is_first == (terms@[j].v1 == iv)
                    &&& (terms@[j].v1 == iv || terms@[j].v2 == iv)
                },
            forall|e: int|
                0 <= e < self.n_edges ==> (touches(#[trigger] self.edges@[e], iv as int) <==> exists|
                    j: int,
                | 0 <= j < terms@.len() && terms@[j].edge == e),
    {
        let adj = &self.vert_adjacent_edges[iv];
        proof {
            assert(self.adjacency()[iv as int] == adj@);
            lemma_incident_edges_members(self.edges@, iv as int);
        }
        let mut terms: Vec<SpringTerm<S>> = Vec::new();
        let mut j: usize = 0;
        while j < adj.len()
            invariant
                self.wf(),
                iv < self.num_verts,
                adj@ == self.adjacency()[iv as int],
                adj@ == incident_edges(self.edges@, iv as int),
                forall|m: int|
                    0 <= m < adj@.len() ==> 0 <= #[trigger] adj@[m] < self.edges@.len() && touches(
                        self.edges@[adj@[m] as int],
                        iv as int,
                    ),
                j <= adj@.len(),
                terms@.len() == j,
                forall|m: int|
                    0 <= m < j ==> {
                        let e = adj@[m] as int;
                        &&& (#[trigger] terms@[m]).edge == e
                        &&& terms@[m].v1 == self.edges@[e][0]
                        &&& terms@[m].v2 == self.edges@[e][1]
                        &&& terms@[m].rest_length == self.org_lengths@[e]
                        &&& terms@[m].stiffness == self.edges_stiffness@[e]
                        &&& terms@[m].vertex_is_first == (terms@[m].v1 == iv)
                    },
            decreases adj@.len() - j,
        {
            let eid = adj[j] as usize;
            let pair = self.edges[eid];
            assert(0 <= pair[0] < pair[1] < self.num_verts);
            let v1 = pair[0] as usize;
            let v2 = pair[1] as usize;
            terms.push(
                SpringTerm {
                    edge: eid,
                    v1,
                    v2,
                    rest_length: self.org_lengths[eid],
                    stiffness: self.edges_stiffness[eid],
                    vertex_is_first: v1 == iv,
                },
            );
            j = j + 1;
        }
        proof {
            lemma_adjacency_exact(self);
            assert forall|e: int|
                0 <= e < self.n_edges implies (touches(#[trigger] self.edges@[e], iv as int) <==> exists|
                    j: int,
                | 0 <= j < terms@.len() && terms@[j].edge == e) by {
                if touches(self.edges@[e], iv as int) {
                    assert(self.adjacency()[iv as int].contains(e as i32));
                    let j = choose|j: int| 0 <= j < adj@.len() && adj@[j] == e as i32;
                    assert(terms@[j].edge == e);
                }
                if exists|j: int| 0 <= j < terms@.len() && terms@[j].edge == e {
                    let j = choose|j: int| 0 <= j < terms@.len() && terms@[j].edge == e;
                    assert(adj@[j] as int == e);
                    assert(self.adjacency()[iv as int][j] == adj@[j]);
                }
            }
        }
        terms
    }
}

/// In a well-formed strand, the adjacency list of a vertex holds an edge id
/// exactly when that edge has the vertex as an endpoint, every entry is a
/// valid edge id, and each list is strictly increasing (so no spring is
/// listed twice).
pub proof fn lemma_adjacency_exact<S>(strand: &VBDStrand<S>)
    requires
        strand.wf(),
    ensures
        forall|v: int, e: int|
            0 <= v < strand.num_verts && 0 <= e < strand.n_edges ==> (
            #[trigger] strand.adjacency()[v].contains(e as i32) <==> touches(
                #[trigger] strand.edges@[e],
                v,
            )),
        forall|v: int, j: int|
            0 <= v < strand.num_verts && 0 <= j < strand.adjacency()[v].len() ==> {
                let e = #[trigger] strand.adjacency()[v][j];
                0 <= e < strand.n_edges && touches(strand.edges@[e as int], v)
            },
        forall|v: int, j1: int, j2: int|
            0 <= v < strand.num_verts && 0 <= j1 < j2 < strand.adjacency()[v].len()
                ==> #[trigger] strand.adjacency()[v][j1] < #[trigger] strand.adjacency()[v][j2],
{
    assert forall|v: int, e: int|
        0 <= v < strand.num_verts && 0 <= e < strand.n_edges implies (
        #[trigger] strand.adjacency()[v].contains(e as i32) <==> touches(
            #[trigger] strand.edges@[e],
            v,
        )) by {
        lemma_incident_edges_members(strand.edges@, v);
        let inc = strand.adjacency()[v];
        if inc.contains(e as i32) {
            let j = choose|j: int| 0 <= j < inc.len() && inc[j] == e as i32;
            assert(inc[j] as int == e);
        }
    }
    assert forall|v: int, j: int|
        0 <= v < strand.num_verts && 0 <= j < strand.adjacency()[v].len() implies {
            let e = #[trigger] strand.adjacency()[v][j];
            0 <= e < strand.n_edges && touches(strand.edges@[e as int], v)
        } by {
        lemma_incident_edges_members(strand.edges@, v);
    }
    assert forall|v: int, j1: int, j2: int|
        0 <= v < strand.num_verts && 0 <= j1 < j2 < strand.adjacency()[v].len() implies
            #[trigger] strand.adjacency()[v][j1] < #[trigger] strand.adjacency()[v][j2] by {
        lemma_incident_edges_members(strand.edges@, v);
    }
}

/// The incidence list of `v` holds, in strictly increasing order, exactly the
/// ids of the edges that touch `v`.
pub proof fn lemma_incident_edges_members(edges: Seq<[i32; 2]>, v: int)
    requires
        edges.len() <= i32::MAX + 1,
    ensures
        forall|j: int|
            0 <= j < incident_edges(edges, v).len() ==> 0 <= #[trigger] incident_edges(
                edges,
                v,
            )[j] < edges.len() && touches(edges[incident_edges(edges, v)[j] as int], v),
        forall|j1: int, j2: int|
            0 <= j1 < j2 < incident_edges(edges, v).len() ==> #[trigger] incident_edges(
                edges,
                v,
            )[j1] < #[trigger] incident_edges(edges, v)[j2],
        forall|e: int|
            0 <= e < edges.len() && touches(#[trigger] edges[e], v) ==> incident_edges(
                edges,
                v,
            ).contains(e as i32),
    decreases edges.len(),
{
    if edges.len() > 0 {
        let prefix = edges.drop_last();
        lemma_incident_edges_members(prefix, v);
        let inc = incident_edges(edges, v);
        let pinc = incident_edges(prefix, v);
        assert forall|e: int| 0 <= e < edges.len() && touches(#[trigger] edges[e], v) implies inc.contains(e as i32) by {
            if e < edges.len() - 1 {
                assert(prefix[e] == edges[e]);
                let w = choose|w: int| 0 <= w < pinc.len() && pinc[w] == e as i32;
                assert(inc[w] == e as i32);
            } else {
                assert(inc[inc.len() - 1] == e as i32);
            }
        }
    }
}

/// `num_verts` empty adjacency lists.
fn empty_adjacency(num_verts: usize) -> (adj: Vec<Vec<i32>>)
    ensures
        adj@.len() == num_verts,
        forall|u: int| 0 <= u < num_verts ==> (#[trigger] adj@[u])@ == Seq::<i32>::empty(),
{
    let mut adj: Vec<Vec<i32>> = Vec::new();
    let mut v: usize = 0;
    while v < num_verts
        invariant
            v <= num_verts,
            adj@.len() == v,
            forall|u: int| 0 <= u < v ==> (#[trigger] adj@[u])@ == Seq::<i32>::empty(),
        decreases num_verts - v,
    {
        adj.push(Vec::new());
        v = v + 1;
    }
    adj
}

/// Appending an edge extends the incidence list of each of its endpoints by
/// the new edge's id and leaves every other vertex's list unchanged.
pub proof fn lemma_incident_push(edges: Seq<[i32; 2]>, e: [i32; 2], v: int)
    ensures
        incident_edges(edges.push(e), v) == if touches(e, v) {
            incident_edges(edges, v).push(edges.len() as i32)
        } else {
            incident_edges(edges, v)
        },
{
    assert(edges.push(e).drop_last() =~= edges);
}

} // verus!
