//! 3D extrusion of building footprints: from a 2D triangle-list tessellation,
//! raise the roof and build vertical walls along the silhouette — the edges
//! that belong to exactly one triangle. Interior edges, shared by two
//! triangles in opposite directions, cancel during the scan.
//!
//! The mesh structure — which silhouette edges exist, which wall corners are
//! created and how they are wound — is fixed here. The corner positions and
//! normals are coordinate arithmetic and come from the vertex type through
//! [`ExtrudeVertex`].

use vstd::prelude::*;
use vstd::seq_lib::*;

use lyon::tessellation::VertexBuffers;

verus! {

/// Vertex operations the extrusion needs from a concrete vertex type.
pub trait ExtrudeVertex: Sized {
    /// The four wall corners over the silhouette edge from `a` to `b`, in
    /// this order: base corner at `a`, base corner at `b`, top corner above
    /// `a`, top corner above `b` — all carrying the wall's outward normal.
    fn wall_quad(a: &Self, b: &Self) -> (Self, Self, Self, Self);

    /// The vertex raised to roof height.
    fn lift_to_roof(v: &Self) -> Self;
}

/// The edge partner of position `i` in a triangle list: the next position of
/// the same triangle, wrapping back to the triangle's first position.
pub open spec fn edge_partner(i: int) -> int {
    if (i + 1) % 3 == 0 {
        i - 2
    } else {
        i + 1
    }
}

/// The directed edge read at position `i` of the triangle list.
pub open spec fn edge_at(indices: Seq<u32>, i: int) -> (u32, u32) {
    (indices[i], indices[edge_partner(i)])
}

/// The silhouette edges after scanning the first `n` positions of the
/// triangle list, in insertion order: a directed edge joins the list when
/// first seen, cancels its reverse when the reverse is present, and is left
/// alone when it is already present itself.
pub open spec fn contour_scan(indices: Seq<u32>, n: int) -> Seq<(u32, u32)>
    decreases n,
{
    if n <= 0 {
        Seq::empty()
    } else {
        let c = contour_scan(indices, n - 1);
        let e = edge_at(indices, n - 1);
        let rev = (e.1, e.0);
        if c.contains(rev) {
            c.remove_value(rev)
        } else if c.contains(e) {
            c
        } else {
            c.push(e)
        }
    }
}

/// Law: the silhouette list never holds an edge twice.
pub proof fn lemma_contour_scan_no_duplicates(indices: Seq<u32>, n: int)
    ensures
        contour_scan(indices, n).no_duplicates(),
    decreases n,
{
    if n <= 0 {
    } else {
        lemma_contour_scan_no_duplicates(indices, n - 1);
        let c = contour_scan(indices, n - 1);
        let e = edge_at(indices, n - 1);
        let rev = (e.1, e.0);
        if c.contains(rev) {
            c.index_of_first_ensures(rev);
        } else if c.contains(e) {
        } else {
            assert forall|a: int, b: int|
                0 <= a < b < c.push(e).len() implies c.push(e)[a] != c.push(e)[b] by {
                if b < c.len() {
                    assert(c[a] != c[b]);
                } else {
                    assert(c.push(e)[b] == e);
                    assert(c.push(e)[a] == c[a]);
                    assert(!c.contains(e));
                }
            }
        }
    }
}

/// The scan never holds more edges than positions scanned.
pub proof fn lemma_contour_scan_len(indices: Seq<u32>, n: int)
    requires
        n >= 0,
    ensures
        contour_scan(indices, n).len() <= n,
    decreases n,
{
    if n > 0 {
        lemma_contour_scan_len(indices, n - 1);
        let c = contour_scan(indices, n - 1);
        let e = edge_at(indices, n - 1);
        let rev = (e.1, e.0);
        if c.contains(rev) {
            c.index_of_first_ensures(rev);
        }
    }
}

/// Every endpoint of a silhouette edge is one of the scanned index values,
/// hence in bounds of the vertex list.
pub proof fn lemma_contour_scan_in_bounds(indices: Seq<u32>, n: int, vbound: int)
    requires
        0 <= n <= indices.len(),
        indices.len() % 3 == 0,
        forall|i: int| 0 <= i < indices.len() ==> (indices[i] as int) < vbound,
    ensures
        forall|j: int|
            #![trigger contour_scan(indices, n)[j]]
            0 <= j < contour_scan(indices, n).len() ==> (contour_scan(indices, n)[j].0 as int)
                < vbound && (contour_scan(indices, n)[j].1 as int) < vbound,
    decreases n,
{
    if n > 0 {
        lemma_contour_scan_in_bounds(indices, n - 1, vbound);
        let c = contour_scan(indices, n - 1);
        let e = edge_at(indices, n - 1);
        let rev = (e.1, e.0);
        // The partner position stays inside the triangle list.
        assert(0 <= edge_partner(n - 1) < indices.len());
        if c.contains(rev) {
            c.index_of_first_ensures(rev);
            let i = c.index_of_first(rev).unwrap();
            let r = c.remove(i);
            c.remove_ensures(i);
            assert forall|j: int|
                #![trigger r[j]]
                0 <= j < r.len() implies (r[j].0 as int) < vbound && (r[j].1 as int)
                < vbound by {
                if j < i {
                    assert(r[j] == c[j]);
                } else {
                    assert(r[j] == c[j + 1]);
                }
            }
        }
    }
}

/// The edge read at some position among the first `n`.
pub open spec fn edge_seen(indices: Seq<u32>, n: int, e: (u32, u32)) -> bool {
    exists|i: int| 0 <= i < n && edge_at(indices, i) == e
}

/// In a duplicate-free sequence, removing a value's (only) occurrence keeps
/// exactly the other values.
proof fn lemma_remove_value_membership<T>(s: Seq<T>, v: T, x: T)
    requires
        s.no_duplicates(),
        s.contains(v),
    ensures
        s.remove_value(v).contains(x) <==> (s.contains(x) && x != v),
{
    s.index_of_first_ensures(v);
    let i = s.index_of_first(v).unwrap();
    let r = s.remove(i);
    s.remove_ensures(i);
    if r.contains(x) {
        let j = choose|j: int| 0 <= j < r.len() && r[j] == x;
        if j < i {
            assert(s[j] == x);
            assert(s[j] != s[i]);
        } else {
            assert(s[j + 1] == x);
            assert(s[j + 1] != s[i]);
        }
    }
    if s.contains(x) && x != v {
        let j = choose|j: int| 0 <= j < s.len() && s[j] == x;
        if j < i {
            assert(r[j] == x);
        } else {
            assert(j != i);
            assert(r[j - 1] == x);
        }
    }
}

/// Law: on a mesh whose directed edges are pairwise distinct and never
/// degenerate, the silhouette holds exactly the boundary edges — those whose
/// reverse no triangle contributes. Interior edges, shared by two triangles
/// in opposite directions, cancel.
#[verifier::rlimit(50)]
pub proof fn lemma_contour_scan_is_boundary(indices: Seq<u32>, n: int)
    requires
        0 <= n <= indices.len(),
        indices.len() % 3 == 0,
        forall|i: int, j: int|
            0 <= i < j < indices.len() ==> edge_at(indices, i) != edge_at(indices, j),
        forall|i: int|
            0 <= i < indices.len() ==> (#[trigger] edge_at(indices, i)).0 != edge_at(indices, i).1,
    ensures
        forall|e: (u32, u32)|
            contour_scan(indices, n).contains(e) <==> (edge_seen(indices, n, e) && !edge_seen(
                indices,
                n,
                (e.1, e.0),
            )),
    decreases n,
{
    if n > 0 {
        lemma_contour_scan_is_boundary(indices, n - 1);
        lemma_contour_scan_no_duplicates(indices, n - 1);
        let c = contour_scan(indices, n - 1);
        let cn = contour_scan(indices, n);
        let f = edge_at(indices, n - 1);
        let rev = (f.1, f.0);
        // The scanned edge is new: it never occurred among the earlier
        // positions.
        assert(!edge_seen(indices, n - 1, f));
        assert(f.0 != f.1);
        assert forall|e: (u32, u32)| cn.contains(e) <==> (edge_seen(indices, n, e) && !edge_seen(
            indices,
            n,
            (e.1, e.0),
        )) by {
            let erev = (e.1, e.0);
            assert(edge_seen(indices, n, e) <==> (edge_seen(indices, n - 1, e) || e == f));
            assert(edge_seen(indices, n, erev) <==> (edge_seen(indices, n - 1, erev) || erev
                == f));
            if c.contains(rev) {
                lemma_remove_value_membership(c, rev, e);
                if e == f {
                    assert(!c.contains(f));
                    assert(edge_seen(indices, n, erev));
                } else if e == rev {
                    assert(edge_seen(indices, n - 1, e));
                    assert(erev == f);
                    assert(edge_seen(indices, n, erev));
                } else {
                    assert(erev != f);
                }
            } else if c.contains(f) {
                // A present edge was already seen, but this one is new.
                assert(edge_seen(indices, n - 1, f));
            } else {
                assert(cn == c.push(f));
                assert(cn.contains(e) <==> (c.contains(e) || e == f)) by {
                    if c.contains(e) {
                        let j = choose|j: int| 0 <= j < c.len() && c[j] == e;
                        assert(cn[j] == e);
                    }
                    if cn.contains(e) {
                        let j = choose|j: int| 0 <= j < cn.len() && cn[j] == e;
                        if j < c.len() {
                            assert(c[j] == e);
                        }
                    }
                    assert(cn[c.len() as int] == f);
                }
                if e == f {
                    // Were the reverse already seen, it would still be in the
                    // silhouette, since its own reverse is only seen now.
                    assert(!edge_seen(indices, n - 1, rev)) by {
                        if edge_seen(indices, n - 1, rev) {
                            assert(c.contains(rev));
                        }
                    }
                    assert(rev != f);
                } else if erev == f {
                    assert(e == rev);
                    assert(!c.contains(e));
                    assert(edge_seen(indices, n, erev));
                } else {
                    assert(erev != f);
                }
            }
        }
    }
}

/// The index of the `i`-th wall corner reference for walls over `base`
/// original vertices: edge `j = i / 6` owns corners `base + 4j` (base at the
/// edge's first endpoint), `+1` (base at the second), `+2` (top above the
/// first), `+3` (top above the second); each wall is the two clockwise
/// triangles (base a, top b, top a) and (base b, top b, base a).
pub open spec fn wall_index_at(base: int, i: int) -> int {
    let j = i / 6;
    let o = i % 6;
    base + 4 * j + (
    if o == 0 {
        0int
    } else if o == 1 {
        3int
    } else if o == 2 {
        2int
    } else if o == 3 {
        1int
    } else if o == 4 {
        3int
    } else {
        0int
    })
}

/// The wall triangles' indices for `k` silhouette edges.
pub open spec fn spec_wall_indices(base: int, k: int) -> Seq<u32> {
    Seq::new((6 * k) as nat, |i: int| wall_index_at(base, i) as u32)
}

/// Law: every silhouette edge contributes exactly two wall triangles — six
/// indices referring to its own four new vertices and to no others.
pub proof fn lemma_wall_output_counts(base: int, k: int, i: int)
    requires
        k >= 0,
        base >= 0,
        0 <= i < 6 * k,
    ensures
        spec_wall_indices(base, k).len() == 6 * k,
        base <= wall_index_at(base, i) < base + 4 * k,
        base + 4 * (i / 6) <= wall_index_at(base, i) < base + 4 * (i / 6) + 4,
{
    assert(0 <= i / 6 < k && 0 <= i % 6 < 6) by (nonlinear_arith)
        requires
            0 <= i < 6 * k,
    ;
}

/// The first position holding `target`, scanning from the front.
fn find_pair(edges: &Vec<(u32, u32)>, target: (u32, u32)) -> (r: Option<usize>)
    ensures
        match r {
            Option::Some(p) => p < edges@.len() && edges@[p as int] == target && forall|j: int|
                0 <= j < p ==> edges@[j] != target,
            Option::None => !edges@.contains(target),
        },
{
    let n = edges.len();
    let mut p: usize = 0;
    while p < n
        invariant
            n == edges@.len(),
            0 <= p <= n,
            forall|j: int| 0 <= j < p ==> edges@[j] != target,
        decreases n - p,
    {
        let e = edges[p];
        if e.0 == target.0 && e.1 == target.1 {
            proof {
                assert(edges@[p as int] == target);
            }
            return Some(p);
        }
        p = p + 1;
    }
    None
}

/// The silhouette edges of a triangle list, in insertion order.
pub fn contour_edges(indices: &Vec<u32>) -> (edges: Vec<(u32, u32)>)
    requires
        indices@.len() % 3 == 0,
    ensures
        edges@ == contour_scan(indices@, indices@.len() as int),
{
    let n = indices.len();
    let mut edges: Vec<(u32, u32)> = Vec::new();
    let mut i: usize = 0;
    while i < n
        invariant
            n == indices@.len(),
            indices@.len() % 3 == 0,
            0 <= i <= n,
            edges@ == contour_scan(indices@, i as int),
        decreases n - i,
    {
        proof {
            if (i + 1) % 3 == 0 {
                assert(i >= 2);
            } else {
                assert(i + 1 < n);
            }
        }
        let a = indices[i];
        let partner: usize = if (i + 1) % 3 == 0 {
            i - 2
        } else {
            i + 1
        };
        let b = indices[partner];
        let ghost c = edges@;
        let ghost e = edge_at(indices@, i as int);
        proof {
            assert(e == (a, b));
        }
        let rev_at = find_pair(&edges, (b, a));
        match rev_at {
            Option::Some(p) => {
                edges.remove(p);
                proof {
                    // The removed position is the first occurrence, so this
                    // is exactly the scan's cancellation step.
                    c.index_of_first_ensures((b, a));
                    let q = c.index_of_first((b, a)).unwrap();
                    assert(q == p as int);
                }
            },
            Option::None => {
                let fwd_at = find_pair(&edges, (a, b));
                match fwd_at {
                    Option::Some(_) => {
                    },
                    Option::None => {
                        edges.push((a, b));
                    },
                }
            },
        }
        i = i + 1;
    }
    edges
}

/// Extrudes a tessellated 2D footprint into a closed 3D volume, in place:
/// walls rise over every silhouette edge, then every original vertex is
/// lifted to roof height — after wall building, so the wall bases keep the
/// ground-level positions. Wall vertices and indices are appended; wall
/// index values refer to the vertex list as extended here.
#[verifier::rlimit(50)]
pub fn extrude_buffer<V: ExtrudeVertex>(buffer: &mut VertexBuffers<V, u32>)
    requires
        old(buffer).indices@.len() % 3 == 0,
        forall|i: int|
            0 <= i < old(buffer).indices@.len() ==> (old(buffer).indices@[i] as int) < old(
                buffer,
            ).vertices@.len(),
        old(buffer).vertices@.len() + 4 * old(buffer).indices@.len() <= u32::MAX,
    ensures
        ({
            let edges = contour_scan(old(buffer).indices@, old(buffer).indices@.len() as int);
            &&& final(buffer).vertices@.len() == old(buffer).vertices@.len() + 4 * edges.len()
            &&& final(buffer).indices@ == old(buffer).indices@ + spec_wall_indices(
                old(buffer).vertices@.len() as int,
                edges.len() as int,
            )
        }),
{
    let ghost orig_vertices = old(buffer).vertices@;
    let ghost orig_indices = old(buffer).indices@;
    let edges = contour_edges(&buffer.indices);
    let base = buffer.vertices.len();
    proof {
        lemma_contour_scan_len(orig_indices, orig_indices.len() as int);
        lemma_contour_scan_in_bounds(orig_indices, orig_indices.len() as int, base as int);
    }
    let edge_count = edges.len();

    // Build the walls against the ground-level vertices.
    let mut wall_vertices: Vec<V> = Vec::new();
    let mut wall_indices: Vec<u32> = Vec::new();
    let mut j: usize = 0;
    while j < edge_count
        invariant
            buffer.vertices@ == orig_vertices,
            buffer.indices@ == orig_indices,
            base == orig_vertices.len(),
            edge_count == edges@.len(),
            edges@ == contour_scan(orig_indices, orig_indices.len() as int),
            base + 4 * edge_count <= u32::MAX,
            forall|q: int|
                #![trigger edges@[q]]
                0 <= q < edges@.len() ==> (edges@[q].0 as int) < base && (edges@[q].1 as int)
                    < base,
            0 <= j <= edge_count,
            wall_vertices@.len() == 4 * j,
            wall_indices@ == spec_wall_indices(base as int, j as int),
        decreases edge_count - j,
    {
        let e = edges[j];
        let (base_a, base_b, top_a, top_b) = V::wall_quad(
            &buffer.vertices[e.0 as usize],
            &buffer.vertices[e.1 as usize],
        );
        wall_vertices.push(base_a);
        wall_vertices.push(base_b);
        wall_vertices.push(top_a);
        wall_vertices.push(top_b);
        let corner = (base as u32) + 4 * (j as u32);
        wall_indices.push(corner);
        wall_indices.push(corner + 3);
        wall_indices.push(corner + 2);
        wall_indices.push(corner + 1);
        wall_indices.push(corner + 3);
        wall_indices.push(corner);
        proof {
            assert(wall_indices@ =~= spec_wall_indices(base as int, j as int + 1)) by {
                assert forall|i: int| 0 <= i < 6 * (j + 1) implies wall_indices@[i]
                    == spec_wall_indices(base as int, j as int + 1)[i] by {
                    if i < 6 * (j as int) {
                        assert(wall_indices@[i] == spec_wall_indices(base as int, j as int)[i]);
                    } else {
                        assert(i / 6 == j as int && i % 6 == i - 6 * (j as int))
                            by (nonlinear_arith)
                            requires
                                6 * (j as int) <= i < 6 * (j as int + 1),
                        ;
                    }
                }
            }
        }
        j = j + 1;
    }

    // Raise the roof: the bottom will not be visible anyway.
    let mut k: usize = 0;
    while k < base
        invariant
            base <= buffer.vertices@.len(),
            buffer.vertices@.len() == orig_vertices.len(),
            buffer.indices@ == orig_indices,
            base == orig_vertices.len(),
            edge_count == contour_scan(orig_indices, orig_indices.len() as int).len(),
            wall_vertices@.len() == 4 * edge_count,
            wall_indices@ == spec_wall_indices(base as int, edge_count as int),
            0 <= k <= base,
        decreases base - k,
    {
        let lifted = V::lift_to_roof(&buffer.vertices[k]);
        buffer.vertices[k] = lifted;
        k = k + 1;
    }

    // Merge the walls into the buffer.
    buffer.vertices.append(&mut wall_vertices);
    buffer.indices.append(&mut wall_indices);
}

} // verus!
