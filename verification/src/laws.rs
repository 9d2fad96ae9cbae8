use vstd::prelude::*;

verus! {

use crate::point::{Point, dist_sq, lemma_dist_sq_nonneg};
use crate::distances::{edge_in, tri_in, edge_present, tri_present};
use crate::model::{ModelView, state_coherent};

/// Law: raising the threshold never removes anything. For thresholds
/// `t1 <= t2`, every edge of the proximity graph at `t1` is an edge at
/// `t2`, and every filled triangle at `t1` is filled at `t2`.
pub proof fn lemma_threshold_monotonic(points: Seq<Point>, t1: int, t2: int)
    requires
        t1 <= t2,
    ensures
        forall|a: int, b: int| #[trigger]
            edge_present(points, t1, a, b) ==> edge_present(points, t2, a, b),
        forall|a: int, b: int, c: int| #[trigger]
            tri_present(points, t1, a, b, c) ==> tri_present(points, t2, a, b, c),
{
}

/// Law: a triple is a filled triangle exactly when its three bounding
/// edges are present, and a filled triangle's indices are strictly
/// ascending, so each unordered triple is named exactly one way.
pub proof fn lemma_triangle_closure(points: Seq<Point>, t: int, a: int, b: int, c: int)
    ensures
        tri_present(points, t, a, b, c) <==> (edge_present(points, t, a, b) && edge_present(
            points,
            t,
            a,
            c,
        ) && edge_present(points, t, b, c)),
        tri_present(points, t, a, b, c) ==> (a < b && b < c),
{
}

/// Law: at a threshold of zero or less nothing qualifies: no pair is an
/// edge, so no triple is a filled triangle.
pub proof fn lemma_zero_threshold(points: Seq<Point>, t: int)
    requires
        t <= 0,
    ensures
        forall|a: int, b: int| !(#[trigger] edge_present(points, t, a, b)),
        forall|a: int, b: int, c: int| !(#[trigger] tri_present(points, t, a, b, c)),
{
    assert forall|a: int, b: int| !(#[trigger] edge_present(points, t, a, b)) by {
        if edge_present(points, t, a, b) {
            lemma_dist_sq_nonneg(points[a], points[b]);
        }
    }
}

/// Law: once the threshold strictly exceeds every pairwise squared
/// distance, the complex saturates: every canonical pair is an edge and
/// every canonical triple is a filled triangle.
pub proof fn lemma_saturating_threshold(points: Seq<Point>, t: int)
    requires
        forall|a: int, b: int|
            0 <= a < b < points.len() ==> #[trigger] dist_sq(points[a], points[b]) < t,
    ensures
        forall|a: int, b: int| #[trigger]
            edge_present(points, t, a, b) <==> (0 <= a < b < points.len()),
        forall|a: int, b: int, c: int| #[trigger]
            tri_present(points, t, a, b, c) <==> (0 <= a < b < c < points.len()),
{
    assert forall|a: int, b: int| #[trigger]
        edge_present(points, t, a, b) <==> (0 <= a < b < points.len()) by {
        if 0 <= a < b < points.len() {
            assert(dist_sq(points[a], points[b]) < t);
        }
    }
    assert forall|a: int, b: int, c: int| #[trigger]
        tri_present(points, t, a, b, c) <==> (0 <= a < b < c < points.len()) by {
        if 0 <= a < b < c < points.len() {
            assert(edge_present(points, t, a, b));
            assert(edge_present(points, t, a, c));
            assert(edge_present(points, t, b, c));
        }
    }
}

/// Law, on the computed state: of two coherent complexes over the same
/// cloud, the one with the lower threshold has a subset of the other's
/// edges and a subset of its triangles.
pub proof fn lemma_state_threshold_monotonic(v1: ModelView, v2: ModelView)
    requires
        state_coherent(v1),
        state_coherent(v2),
        v1.vertices == v2.vertices,
        v1.distance_threshold <= v2.distance_threshold,
    ensures
        forall|a: int, b: int| #[trigger] edge_in(v1.lines, a, b) ==> edge_in(v2.lines, a, b),
        forall|a: int, b: int, c: int| #[trigger]
            tri_in(v1.triangles, a, b, c) ==> tri_in(v2.triangles, a, b, c),
{
    assert forall|a: int, b: int| #[trigger] edge_in(v1.lines, a, b) implies edge_in(
        v2.lines,
        a,
        b,
    ) by {
        assert(edge_present(v1.vertices, v1.distance_threshold, a, b));
        assert(edge_present(v2.vertices, v2.distance_threshold, a, b));
    }
    assert forall|a: int, b: int, c: int| #[trigger]
        tri_in(v1.triangles, a, b, c) implies tri_in(v2.triangles, a, b, c) by {
        assert(tri_present(v1.vertices, v1.distance_threshold, a, b, c));
        assert(tri_present(v2.vertices, v2.distance_threshold, a, b, c));
    }
}

/// Law, on the computed state: a triple is reported as a triangle exactly
/// when its three bounding edges are reported as edges. Together with the
/// duplicate-freedom of a coherent state, each such 3-clique appears
/// exactly once.
pub proof fn lemma_state_triangle_closure(v: ModelView)
    requires
        state_coherent(v),
    ensures
        forall|a: int, b: int, c: int| #[trigger]
            tri_in(v.triangles, a, b, c) <==> (edge_in(v.lines, a, b) && edge_in(v.lines, a, c)
                && edge_in(v.lines, b, c)),
{
    assert forall|a: int, b: int, c: int| #[trigger]
        tri_in(v.triangles, a, b, c) <==> (edge_in(v.lines, a, b) && edge_in(v.lines, a, c)
            && edge_in(v.lines, b, c)) by {
        if tri_in(v.triangles, a, b, c) {
            assert(tri_present(v.vertices, v.distance_threshold, a, b, c));
            assert(edge_in(v.lines, a, b));
            assert(edge_in(v.lines, a, c));
            assert(edge_in(v.lines, b, c));
        }
        if edge_in(v.lines, a, b) && edge_in(v.lines, a, c) && edge_in(v.lines, b, c) {
            assert(edge_present(v.vertices, v.distance_threshold, a, b));
            assert(edge_present(v.vertices, v.distance_threshold, a, c));
            assert(edge_present(v.vertices, v.distance_threshold, b, c));
            assert(tri_present(v.vertices, v.distance_threshold, a, b, c));
        }
    }
}

/// Law, on the computed state: at a threshold of zero or less a coherent
/// complex holds no edges and no triangles at all.
pub proof fn lemma_state_zero_threshold(v: ModelView)
    requires
        state_coherent(v),
        v.distance_threshold <= 0,
    ensures
        v.lines.len() == 0,
        v.triangles.len() == 0,
{
    lemma_zero_threshold(v.vertices, v.distance_threshold);
    if v.lines.len() > 0 {
        let e = v.lines[0];
        assert(edge_in(v.lines, e.a as int, e.b as int));
    }
    if v.triangles.len() > 0 {
        let t = v.triangles[0];
        assert(tri_in(v.triangles, t.a as int, t.b as int, t.c as int));
    }
}

/// Law, on the computed state: once the threshold strictly exceeds every
/// pairwise squared distance of the cloud, a coherent complex reports
/// every canonical pair as an edge and every canonical triple as a
/// triangle.
pub proof fn lemma_state_saturating_threshold(v: ModelView)
    requires
        state_coherent(v),
        forall|a: int, b: int|
            0 <= a < b < v.vertices.len() ==> #[trigger] dist_sq(v.vertices[a], v.vertices[b])
                < v.distance_threshold,
    ensures
        forall|a: int, b: int| #[trigger] edge_in(v.lines, a, b) <==> (0 <= a < b
            < v.vertices.len()),
        forall|a: int, b: int, c: int| #[trigger] tri_in(v.triangles, a, b, c) <==> (0 <= a < b < c
            < v.vertices.len()),
{
    lemma_saturating_threshold(v.vertices, v.distance_threshold);
    assert forall|a: int, b: int| #[trigger]
        edge_in(v.lines, a, b) <==> (0 <= a < b < v.vertices.len()) by {
        assert(edge_in(v.lines, a, b) <==> edge_present(v.vertices, v.distance_threshold, a, b));
    }
    assert forall|a: int, b: int, c: int| #[trigger]
        tri_in(v.triangles, a, b, c) <==> (0 <= a < b < c < v.vertices.len()) by {
        assert(tri_in(v.triangles, a, b, c) <==> tri_present(
            v.vertices,
            v.distance_threshold,
            a,
            b,
            c,
        ));
    }
}

} // verus!
