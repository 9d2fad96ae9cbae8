use vstd::prelude::*;

verus! {

use crate::point::{Point, UNIT_HALF, dist_sq, lemma_dist_sq_nonneg};
use crate::distances::{
    Distances, Edge, Triangle, edge_in, tri_in, edge_present, tri_present, line_present,
    lemma_line_present_iff, entry_le, entry_valid,
};
use crate::sample::generate_vertices;

/// Why a complex could not be constructed.
#[derive(Clone, Copy, PartialEq, Eq, Structural, Debug)]
pub enum ConstructionError {
    /// More vertices were requested than the one-byte index encoding of
    /// the edge and triangle buffers can name.
    VertexLimitExceeded,
    /// A squared radius of zero or less admits no point at all.
    InvalidRadius,
    /// The rejection sampler spent its whole attempt budget without
    /// accepting enough points.
    GenerationExhausted,
}

/// The observable state of a model: the cloud, the current threshold, and
/// the edge and triangle sets derived from them.
pub struct ModelView {
    pub vertices: Seq<Point>,
    pub lines: Seq<Edge>,
    pub triangles: Seq<Triangle>,
    pub distance_threshold: int,
}

/// The state invariant of the complex. The edge set holds exactly the
/// canonical pairs strictly closer than the threshold, in ascending
/// distance order without duplicates; the triangle set holds exactly the
/// canonical triples whose three edges are all present, without
/// duplicates.
pub open spec fn state_coherent(v: ModelView) -> bool {
    &&& forall|a: int, b: int| #[trigger]
        edge_in(v.lines, a, b) <==> edge_present(v.vertices, v.distance_threshold, a, b)
    &&& forall|a: int, b: int, c: int| #[trigger]
        tri_in(v.triangles, a, b, c) <==> tri_present(v.vertices, v.distance_threshold, a, b, c)
    &&& forall|k: int| 0 <= k < v.lines.len() ==> (#[trigger] v.lines[k]).a < v.lines[k].b
    &&& forall|k: int| 0 <= k < v.triangles.len() ==> ((#[trigger] v.triangles[k]).a
        < v.triangles[k].b && v.triangles[k].b < v.triangles[k].c)
    &&& forall|p: int, q: int|
        0 <= p < q < v.lines.len() ==> !((#[trigger] v.lines[p]).a == (#[trigger] v.lines[q]).a
            && v.lines[p].b == v.lines[q].b)
    &&& forall|p: int, q: int| 0 <= p < q < v.triangles.len() ==> #[trigger] v.triangles[p]
        != #[trigger] v.triangles[q]
    &&& forall|p: int, q: int|
        0 <= p <= q < v.lines.len() ==> dist_sq(
            v.vertices[(#[trigger] v.lines[p]).a as int],
            v.vertices[v.lines[p].b as int],
        ) <= dist_sq(
            v.vertices[(#[trigger] v.lines[q]).a as int],
            v.vertices[v.lines[q].b as int],
        )
}

/// The stateful proximity complex: an immutable point cloud, its
/// precomputed distance table, and the edge and triangle sets for the
/// current threshold. Changing the threshold replaces both derived sets
/// wholesale; nothing else ever mutates.
#[derive(Debug)]
pub struct Model {
    vertices: Vec<Point>,
    distances: Distances,
    lines: Vec<Edge>,
    triangles: Vec<Triangle>,
    distance_threshold: i64,
}

impl View for Model {
    type V = ModelView;

    closed spec fn view(&self) -> ModelView {
        ModelView {
            vertices: self.vertices@,
            lines: self.lines@,
            triangles: self.triangles@,
            distance_threshold: self.distance_threshold as int,
        }
    }
}

impl Model {
    /// Internal well-formedness: the cloud is small and bounded, the table
    /// describes it, and the derived sets are coherent with the threshold.
    pub closed spec fn inv(self) -> bool {
        &&& self.vertices@.len() <= 255
        &&& forall|k: int| 0 <= k < self.vertices@.len() ==> (#[trigger] self.vertices@[k]).in_bounds()
        &&& self.distances.wf()
        &&& self.distances.matches(self.vertices@)
        &&& 2 * self.distances@.len() == self.vertices@.len() * (self.vertices@.len() - 1)
        &&& state_coherent(self@)
    }

    /// Builds the complex over a freshly generated random cloud of
    /// `num_vertices` points, each strictly inside the sphere of squared
    /// radius `radius_sq`. The initial threshold is zero, so the edge and
    /// triangle sets start empty.
    pub fn new(num_vertices: usize, radius_sq: i64) -> (r: Result<Model, ConstructionError>)
        ensures
            (r matches Err(e) && e == ConstructionError::VertexLimitExceeded) <==> num_vertices
                > 255,
            (r matches Err(e) && e == ConstructionError::InvalidRadius) <==> (num_vertices <= 255
                && radius_sq <= 0),
            num_vertices <= 255 && radius_sq > 3 * UNIT_HALF * UNIT_HALF ==> r is Ok,
            (match r {
                Ok(m) => {
                    &&& m.inv()
                    &&& state_coherent(m@)
                    &&& m@.vertices.len() == num_vertices
                    &&& forall|k: int|
                        0 <= k < m@.vertices.len() ==> (#[trigger] m@.vertices[k]).in_unit_cube()
                            && m@.vertices[k].norm_sq() < radius_sq
                    &&& m@.distance_threshold == 0
                    &&& m@.lines.len() == 0
                    &&& m@.triangles.len() == 0
                },
                Err(_) => true,
            }),
    {
        if num_vertices > 255 {
            return Err(ConstructionError::VertexLimitExceeded);
        }
        if radius_sq <= 0 {
            return Err(ConstructionError::InvalidRadius);
        }
        match generate_vertices(num_vertices, radius_sq) {
            None => Err(ConstructionError::GenerationExhausted),
            Some(vertices) => Ok(Self::assemble(vertices)),
        }
    }

    /// Builds the complex over a cloud the caller supplies, so a prepared
    /// or reproducible point set can be used in place of a random one.
    pub fn with_vertices(vertices: Vec<Point>) -> (r: Result<Model, ConstructionError>)
        requires
            forall|k: int| 0 <= k < vertices@.len() ==> (#[trigger] vertices@[k]).in_bounds(),
        ensures
            r is Ok <==> vertices@.len() <= 255,
            (r matches Err(e) ==> e == ConstructionError::VertexLimitExceeded),
            (match r {
                Ok(m) => {
                    &&& m.inv()
                    &&& state_coherent(m@)
                    &&& m@.vertices == vertices@
                    &&& m@.distance_threshold == 0
                    &&& m@.lines.len() == 0
                    &&& m@.triangles.len() == 0
                },
                Err(_) => true,
            }),
    {
        if vertices.len() > 255 {
            return Err(ConstructionError::VertexLimitExceeded);
        }
        Ok(Self::assemble(vertices))
    }

    /// Shared construction: tabulate the distances once; start at
    /// threshold zero with empty derived sets.
    fn assemble(vertices: Vec<Point>) -> (m: Model)
        requires
            vertices@.len() <= 255,
            forall|k: int| 0 <= k < vertices@.len() ==> (#[trigger] vertices@[k]).in_bounds(),
        ensures
            m.inv(),
            state_coherent(m@),
            m@.vertices == vertices@,
            m@.distance_threshold == 0,
            m@.lines.len() == 0,
            m@.triangles.len() == 0,
    {
        let distances = Distances::new(&vertices);
        let m = Model {
            vertices,
            distances,
            lines: Vec::new(),
            triangles: Vec::new(),
            distance_threshold: 0,
        };
        proof {
            assert forall|a: int, b: int| !edge_present(m@.vertices, 0, a, b) by {
                if edge_present(m@.vertices, 0, a, b) {
                    lemma_dist_sq_nonneg(m@.vertices[a], m@.vertices[b]);
                }
            }
        }
        m
    }

    /// The current threshold, as a squared fixed-point distance.
    pub fn distance_threshold(&self) -> (t: i64)
        ensures
            t as int == self@.distance_threshold,
    {
        self.distance_threshold
    }

    /// The immutable point cloud, for vertex buffer upload.
    pub fn vertices(&self) -> (r: &Vec<Point>)
        ensures
            r@ == self@.vertices,
    {
        &self.vertices
    }

    /// The current edge set, canonical pairs in ascending distance order.
    pub fn lines(&self) -> (r: &Vec<Edge>)
        ensures
            r@ == self@.lines,
    {
        &self.lines
    }

    /// The current triangle set, canonical triples without duplicates.
    pub fn triangles(&self) -> (r: &Vec<Triangle>)
        ensures
            r@ == self@.triangles,
    {
        &self.triangles
    }

    /// Replaces the edge and triangle sets with the ones derived from the
    /// new threshold, atomically from the caller's point of view: when
    /// this returns, everything observable belongs to the new threshold.
    /// The threshold is a squared fixed-point distance; zero or less
    /// empties both sets.
    pub fn update_distance_threshold(&mut self, distance_threshold: i64)
        requires
            old(self).inv(),
        ensures
            final(self).inv(),
            state_coherent(final(self)@),
            final(self)@.vertices == old(self)@.vertices,
            final(self)@.distance_threshold == distance_threshold as int,
            (forall|a: int, b: int|
                0 <= a < b < old(self)@.vertices.len() ==> #[trigger] dist_sq(
                    old(self)@.vertices[a],
                    old(self)@.vertices[b],
                ) < distance_threshold as int) ==> 2 * final(self)@.lines.len() == final(self)@.vertices.len() * (final(self)@.vertices.len() - 1),
    {
        let lines = self.distances.lines(distance_threshold);
        let triangles = self.distances.triangles(distance_threshold);
        proof {
            lemma_line_present_iff(
                self.distances@,
                self.vertices@,
                distance_threshold as int,
            );
        }
        self.lines = lines;
        self.triangles = triangles;
        self.distance_threshold = distance_threshold;
        proof {
            let v = self@;
            let tbl = self.distances@;
            let t = distance_threshold as int;
            assert forall|a: int, b: int| #[trigger]
                edge_in(v.lines, a, b) <==> edge_present(v.vertices, v.distance_threshold, a, b) by {
                assert(edge_in(v.lines, a, b) <==> line_present(tbl, t, a, b));
                assert(line_present(tbl, t, a, b) <==> edge_present(v.vertices, t, a, b));
            }
            assert forall|a: int, b: int, c: int| #[trigger]
                tri_in(v.triangles, a, b, c) <==> tri_present(
                v.vertices,
                v.distance_threshold,
                a,
                b,
                c,
            ) by {
                assert(tri_in(v.triangles, a, b, c) <==> (a < b && b < c && line_present(
                    tbl,
                    t,
                    a,
                    b,
                ) && line_present(tbl, t, a, c) && line_present(tbl, t, b, c)));
                assert(line_present(tbl, t, a, b) <==> edge_present(v.vertices, t, a, b));
                assert(line_present(tbl, t, a, c) <==> edge_present(v.vertices, t, a, c));
                assert(line_present(tbl, t, b, c) <==> edge_present(v.vertices, t, b, c));
            }
            assert forall|p: int, q: int| 0 <= p <= q < v.lines.len() implies dist_sq(
                v.vertices[(#[trigger] v.lines[p]).a as int],
                v.vertices[v.lines[p].b as int],
            ) <= dist_sq(
                v.vertices[(#[trigger] v.lines[q]).a as int],
                v.vertices[v.lines[q].b as int],
            ) by {
                assert(entry_valid(tbl[p], v.vertices));
                assert(entry_valid(tbl[q], v.vertices));
                assert(entry_le(tbl[p], tbl[q]));
            }
            if forall|a: int, b: int|
                0 <= a < b < v.vertices.len() ==> #[trigger] dist_sq(v.vertices[a], v.vertices[b])
                    < t {
                if v.lines.len() < tbl.len() {
                    let e = tbl[v.lines.len() as int];
                    assert(entry_valid(e, v.vertices));
                    assert(dist_sq(v.vertices[e.a as int], v.vertices[e.b as int]) < t);
                    assert(false);
                }
            }
        }
    }

    /// The combined index buffer for the renderer: every edge as two
    /// vertex indices, followed by every triangle as three, so the caller
    /// locates the triangle data at twice the edge count.
    pub fn index_data(&self) -> (r: Vec<u8>)
        ensures
            r@.len() == 2 * self@.lines.len() + 3 * self@.triangles.len(),
            forall|k: int|
                0 <= k < self@.lines.len() ==> (r@[2 * k] == (#[trigger] self@.lines[k]).a && r@[2
                    * k + 1] == self@.lines[k].b),
            forall|k: int|
                0 <= k < self@.triangles.len() ==> (r@[2 * self@.lines.len() + 3 * k] == (
                #[trigger] self@.triangles[k]).a && r@[2 * self@.lines.len() + 3 * k + 1]
                    == self@.triangles[k].b && r@[2 * self@.lines.len() + 3 * k + 2]
                    == self@.triangles[k].c),
    {
        let mut r: Vec<u8> = Vec::new();
        let mut k: usize = 0;
        while k < self.lines.len()
            invariant
                k <= self@.lines.len(),
                r@.len() == 2 * k,
                forall|m: int|
                    0 <= m < k ==> (r@[2 * m] == (#[trigger] self@.lines[m]).a && r@[2 * m + 1]
                        == self@.lines[m].b),
            decreases self@.lines.len() - k,
        {
            let e = self.lines[k];
            r.push(e.a);
            r.push(e.b);
            k = k + 1;
        }
        let mut j: usize = 0;
        while j < self.triangles.len()
            invariant
                j <= self@.triangles.len(),
                r@.len() == 2 * self@.lines.len() + 3 * j,
                forall|m: int|
                    0 <= m < self@.lines.len() ==> (r@[2 * m] == (#[trigger] self@.lines[m]).a
                        && r@[2 * m + 1] == self@.lines[m].b),
                forall|m: int|
                    0 <= m < j ==> (r@[2 * self@.lines.len() + 3 * m] == (
                    #[trigger] self@.triangles[m]).a && r@[2 * self@.lines.len() + 3 * m + 1]
                        == self@.triangles[m].b && r@[2 * self@.lines.len() + 3 * m + 2]
                        == self@.triangles[m].c),
            decreases self@.triangles.len() - j,
        {
            let t = self.triangles[j];
            r.push(t.a);
            r.push(t.b);
            r.push(t.c);
            j = j + 1;
        }
        r
    }
}

} // verus!
