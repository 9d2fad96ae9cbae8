use vstd::prelude::*;

verus! {

use crate::point::{Point, dist_sq, distance};

/// One tabulated pair: the squared distance `d` between the points at
/// positions `a` and `b` of the cloud, with `a < b` canonically.
#[derive(Clone, Copy, PartialEq, Eq, Structural, Debug)]
pub struct DistanceEntry {
    pub d: i64,
    pub a: u8,
    pub b: u8,
}

/// An edge of the proximity graph: an unordered pair of vertex indices,
/// stored canonically with `a < b`.
#[derive(Clone, Copy, PartialEq, Eq, Structural, Debug)]
pub struct Edge {
    pub a: u8,
    pub b: u8,
}

/// A filled triangle: an unordered index triple stored canonically with
/// `a < b < c`, all three of whose edges are in the current edge set.
#[derive(Clone, Copy, PartialEq, Eq, Structural, Debug)]
pub struct Triangle {
    pub a: u8,
    pub b: u8,
    pub c: u8,
}

/// Table order: ascending squared distance, ties broken by the index pair,
/// so the table is deterministic for a given cloud.
pub open spec fn entry_le(e1: DistanceEntry, e2: DistanceEntry) -> bool {
    ||| e1.d < e2.d
    ||| (e1.d == e2.d && (e1.a < e2.a || (e1.a == e2.a && e1.b <= e2.b)))
}

pub open spec fn entries_sorted(s: Seq<DistanceEntry>) -> bool {
    forall|i: int, j: int| 0 <= i <= j < s.len() ==> entry_le(#[trigger] s[i], #[trigger] s[j])
}

/// No two entries stand for the same vertex pair.
pub open spec fn pairs_distinct(s: Seq<DistanceEntry>) -> bool {
    forall|i: int, j: int|
        0 <= i < j < s.len() ==> !((#[trigger] s[i]).a == (#[trigger] s[j]).a && s[i].b == s[j].b)
}

/// Every entry names its pair canonically.
pub open spec fn entries_canonical(s: Seq<DistanceEntry>) -> bool {
    forall|k: int| 0 <= k < s.len() ==> (#[trigger] s[k]).a < s[k].b
}

/// The entry correctly describes the cloud: a canonical in-range pair with
/// its exact squared distance.
pub open spec fn entry_valid(e: DistanceEntry, points: Seq<Point>) -> bool {
    &&& e.a < e.b
    &&& (e.b as int) < points.len()
    &&& e.d == dist_sq(points[e.a as int], points[e.b as int])
}

pub open spec fn entries_valid(s: Seq<DistanceEntry>, points: Seq<Point>) -> bool {
    forall|k: int| 0 <= k < s.len() ==> entry_valid(#[trigger] s[k], points)
}

/// Some entry of the table names the pair `(a, b)`.
pub open spec fn pair_in(s: Seq<DistanceEntry>, a: int, b: int) -> bool {
    exists|k: int|
        0 <= k < s.len() && (#[trigger] s[k]).a as int == a && s[k].b as int == b
}

/// Every unordered pair of the cloud has an entry.
pub open spec fn entries_complete(s: Seq<DistanceEntry>, points: Seq<Point>) -> bool {
    forall|a: int, b: int| 0 <= a < b < points.len() ==> #[trigger] pair_in(s, a, b)
}

/// The table holds the pair `(a, b)` at a squared distance strictly below
/// the threshold `t`.
pub open spec fn line_present(s: Seq<DistanceEntry>, t: int, a: int, b: int) -> bool {
    exists|k: int|
        0 <= k < s.len() && (#[trigger] s[k]).a as int == a && s[k].b as int == b && s[k].d < t
}

/// The pair `(a, b)` is an edge of the proximity graph of `points` at
/// threshold `t`: canonical, in range, and strictly closer than `t`
/// (squared distances on both sides).
pub open spec fn edge_present(points: Seq<Point>, t: int, a: int, b: int) -> bool {
    0 <= a < b < points.len() && dist_sq(points[a], points[b]) < t
}

/// The triple `(a, b, c)` is a filled triangle of the proximity graph of
/// `points` at threshold `t`: all three of its edges are present.
pub open spec fn tri_present(points: Seq<Point>, t: int, a: int, b: int, c: int) -> bool {
    &&& edge_present(points, t, a, b)
    &&& edge_present(points, t, a, c)
    &&& edge_present(points, t, b, c)
}

/// The edge sequence holds the pair `(a, b)`.
pub open spec fn edge_in(es: Seq<Edge>, a: int, b: int) -> bool {
    exists|k: int| 0 <= k < es.len() && (#[trigger] es[k]).a as int == a && es[k].b as int == b
}

/// The triangle sequence holds the triple `(a, b, c)`.
pub open spec fn tri_in(ts: Seq<Triangle>, a: int, b: int, c: int) -> bool {
    exists|k: int|
        0 <= k < ts.len() && (#[trigger] ts[k]).a as int == a && ts[k].b as int == b
            && ts[k].c as int == c
}

/// On a table that is valid and complete for a cloud, threshold membership
/// over the table agrees with the proximity graph of the cloud itself.
pub proof fn lemma_line_present_iff(s: Seq<DistanceEntry>, points: Seq<Point>, t: int)
    requires
        entries_valid(s, points),
        entries_complete(s, points),
    ensures
        forall|a: int, b: int| #[trigger] line_present(s, t, a, b) <==> edge_present(
            points,
            t,
            a,
            b,
        ),
{
    assert forall|a: int, b: int| #[trigger] line_present(s, t, a, b) <==> edge_present(
        points,
        t,
        a,
        b,
    ) by {
        if line_present(s, t, a, b) {
            let k = choose|k: int|
                0 <= k < s.len() && (#[trigger] s[k]).a as int == a && s[k].b as int == b && s[k].d
                    < t;
            assert(entry_valid(s[k], points));
        }
        if edge_present(points, t, a, b) {
            assert(pair_in(s, a, b));
            let k = choose|k: int|
                0 <= k < s.len() && (#[trigger] s[k]).a as int == a && s[k].b as int == b;
            assert(entry_valid(s[k], points));
            assert(s[k].d < t);
        }
    }
}

/// The precomputed pairwise distance table of a point cloud: every
/// unordered pair once, sorted ascending by squared distance. Built once
/// per cloud and queried for every threshold change.
#[derive(Debug)]
pub struct Distances {
    inner: Vec<DistanceEntry>,
}

impl View for Distances {
    type V = Seq<DistanceEntry>;

    closed spec fn view(&self) -> Seq<DistanceEntry> {
        self.inner@
    }
}

impl Distances {
    /// The table's own shape: sorted, duplicate-free, canonical.
    pub open spec fn wf(self) -> bool {
        &&& entries_sorted(self@)
        &&& pairs_distinct(self@)
        &&& entries_canonical(self@)
    }

    /// The table describes exactly the cloud `points`.
    pub open spec fn matches(self, points: Seq<Point>) -> bool {
        &&& entries_valid(self@, points)
        &&& entries_complete(self@, points)
    }

    /// Tabulates every pairwise squared distance of the cloud, sorted
    /// ascending, ties broken by the index pair.
    #[verifier::loop_isolation(false)]
    pub fn new(points: &Vec<Point>) -> (r: Distances)
        requires
            points@.len() <= 255,
            forall|k: int| 0 <= k < points@.len() ==> (#[trigger] points@[k]).in_bounds(),
        ensures
            r.wf(),
            r.matches(points@),
            2 * r@.len() == points@.len() * (points@.len() - 1),
    {
        let n = points.len();
        let mut inner: Vec<DistanceEntry> = Vec::new();
        let mut i: usize = 0;
        while i < n
            invariant
                i <= n,
                entries_sorted(inner@),
                pairs_distinct(inner@),
                entries_valid(inner@, points@),
                forall|a: int, b: int| #[trigger]
                    pair_in(inner@, a, b) <==> (0 <= a < b < n && a < i),
                2 * inner@.len() == i * (2 * n - i - 1),
            decreases n - i,
        {
            let mut j = i + 1;
            while j < n
                invariant
                    i < j <= n,
                    entries_sorted(inner@),
                    pairs_distinct(inner@),
                    entries_valid(inner@, points@),
                    forall|a: int, b: int| #[trigger]
                        pair_in(inner@, a, b) <==> (0 <= a < b < n && (a < i || (a == i && b
                            < j))),
                    2 * inner@.len() == i * (2 * n - i - 1) + 2 * (j - i - 1),
                decreases n - j,
            {
                let d = distance(points, i, j);
                let e = DistanceEntry { d, a: i as u8, b: j as u8 };
                let pos = insert_pos(&inner, &e);
                let ghost s0 = inner@;
                inner.insert(pos, e);
                proof {
                    assert(e.a as int == i && e.b as int == j);
                    assert(!pair_in(s0, i as int, j as int));
                    lemma_insert_entry(s0, pos as int, e, points@);
                    assert forall|a: int, b: int| #[trigger]
                        pair_in(inner@, a, b) <==> (0 <= a < b < n && (a < i || (a == i && b < j
                            + 1))) by {
                        assert(pair_in(inner@, a, b) <==> pair_in(s0, a, b) || (a == i && b
                            == j));
                    }
                }
                j = j + 1;
            }
            i = i + 1;
            proof {
                assert forall|a: int, b: int| #[trigger]
                    pair_in(inner@, a, b) <==> (0 <= a < b < n && a < i) by {}
                assert(2 * inner@.len() == i * (2 * n - i - 1)) by (nonlinear_arith)
                    requires
                        2 * inner@.len() == (i - 1) * (2 * n - i) + 2 * (n - i),
                        1 <= i <= n,
                ;
            }
        }
        let r = Distances { inner };
        proof {
            assert forall|a: int, b: int| 0 <= a < b < points@.len() implies #[trigger]
                pair_in(r@, a, b) by {}
        }
        r
    }
}

/// The pair appears among the first `m_end` edges of the sequence.
spec fn edge_upto(es: Seq<Edge>, m_end: int, a: int, b: int) -> bool {
    exists|m: int| 0 <= m < m_end && (#[trigger] es[m]).a as int == a && es[m].b as int == b
}

/// Adjacency lookup in the flat 256 by 256 membership square.
spec fn adj_at(adj: Seq<bool>, a: int, b: int) -> bool {
    adj[a * 256 + b]
}

impl Distances {
    /// Every edge strictly closer than the threshold `d`, in ascending
    /// distance order: the qualifying prefix of the sorted table. Squared
    /// distances compare exactly as the distances themselves do, so `d` is
    /// a squared fixed-point threshold.
    #[verifier::loop_isolation(false)]
    pub fn lines(&self, d: i64) -> (r: Vec<Edge>)
        requires
            self.wf(),
        ensures
            r@.len() <= self@.len(),
            forall|k: int|
                0 <= k < r@.len() ==> ((#[trigger] r@[k]).a == self@[k].a && r@[k].b == self@[k].b
                    && self@[k].d < d),
            r@.len() < self@.len() ==> self@[r@.len() as int].d >= d,
            forall|a: int, b: int| #[trigger]
                edge_in(r@, a, b) <==> line_present(self@, d as int, a, b),
            forall|k: int| 0 <= k < r@.len() ==> (#[trigger] r@[k]).a < r@[k].b,
            forall|p: int, q: int|
                0 <= p < q < r@.len() ==> !((#[trigger] r@[p]).a == (#[trigger] r@[q]).a && r@[p].b
                    == r@[q].b),
    {
        let mut r: Vec<Edge> = Vec::new();
        let mut k: usize = 0;
        while k < self.inner.len() && self.inner[k].d < d
            invariant
                k <= self@.len(),
                r@.len() == k,
                forall|m: int|
                    0 <= m < k ==> ((#[trigger] r@[m]).a == self@[m].a && r@[m].b == self@[m].b
                        && self@[m].d < d),
            decreases self@.len() - k,
        {
            let ea = self.inner[k].a;
            let eb = self.inner[k].b;
            r.push(Edge { a: ea, b: eb });
            k = k + 1;
        }
        proof {
            assert forall|a: int, b: int| #[trigger]
                edge_in(r@, a, b) <==> line_present(self@, d as int, a, b) by {
                if edge_in(r@, a, b) {
                    let m = choose|m: int|
                        0 <= m < r@.len() && (#[trigger] r@[m]).a as int == a && r@[m].b as int
                            == b;
                    assert(0 <= m < self@.len() && self@[m].a as int == a && self@[m].b as int == b
                        && self@[m].d < d);
                }
                if line_present(self@, d as int, a, b) {
                    let m = choose|m: int|
                        0 <= m < self@.len() && (#[trigger] self@[m]).a as int == a
                            && self@[m].b as int == b && self@[m].d < d;
                    if m >= r@.len() {
                        assert(entry_le(self@[r@.len() as int], self@[m]));
                        assert(false);
                    }
                    assert(0 <= m < r@.len() && r@[m].a as int == a && r@[m].b as int == b);
                }
            }
        }
        r
    }

    /// Every filled triangle at threshold `d`: each canonical index triple
    /// `a < b < c` whose three edges are all strictly closer than `d`,
    /// each reported exactly once.
    #[verifier::loop_isolation(false)]
    #[verifier::rlimit(50)]
    pub fn triangles(&self, d: i64) -> (r: Vec<Triangle>)
        requires
            self.wf(),
        ensures
            forall|a: int, b: int, c: int| #[trigger]
                tri_in(r@, a, b, c) <==> (a < b && b < c && line_present(self@, d as int, a, b)
                    && line_present(self@, d as int, a, c) && line_present(self@, d as int, b, c)),
            forall|p: int, q: int| 0 <= p < q < r@.len() ==> r@[p] != r@[q],
            forall|k: int| 0 <= k < r@.len() ==> ((#[trigger] r@[k]).a < r@[k].b && r@[k].b
                < r@[k].c),
    {
        let lines = self.lines(d);
        // membership square: cell a * 256 + b records whether (a, b) is an edge
        let mut adj: Vec<bool> = Vec::new();
        let mut cell: usize = 0;
        while cell < 65536
            invariant
                cell <= 65536,
                adj@.len() == cell,
                forall|x: int| 0 <= x < cell ==> !(#[trigger] adj@[x]),
            decreases 65536 - cell,
        {
            adj.push(false);
            cell = cell + 1;
        }
        let mut m: usize = 0;
        while m < lines.len()
            invariant
                m <= lines@.len(),
                adj@.len() == 65536,
                forall|a: int, b: int|
                    0 <= a < 256 && 0 <= b < 256 ==> (#[trigger] adj_at(adj@, a, b) <==> edge_upto(
                        lines@,
                        m as int,
                        a,
                        b,
                    )),
            decreases lines@.len() - m,
        {
            let ea = lines[m].a;
            let eb = lines[m].b;
            let ghost adj0 = adj@;
            adj[(ea as usize) * 256 + (eb as usize)] = true;
            proof {
                assert(adj@ == adj0.update(ea as int * 256 + eb as int, true));
                assert forall|a: int, b: int| 0 <= a < 256 && 0 <= b < 256 implies (#[trigger]
                adj_at(adj@, a, b) <==> edge_upto(lines@, m + 1, a, b)) by {
                    if a == ea as int && b == eb as int {
                        assert(adj_at(adj@, a, b));
                        assert(lines@[m as int].a as int == a && lines@[m as int].b as int == b);
                        assert(edge_upto(lines@, m + 1, a, b));
                    } else {
                        assert(a * 256 + b != ea as int * 256 + eb as int);
                        assert(adj_at(adj@, a, b) == adj_at(adj0, a, b));
                        if edge_upto(lines@, m + 1, a, b) {
                            let w = choose|w: int|
                                0 <= w < m + 1 && (#[trigger] lines@[w]).a as int == a
                                    && lines@[w].b as int == b;
                            assert(w < m);
                            assert(edge_upto(lines@, m as int, a, b));
                        }
                    }
                }
            }
            m = m + 1;
        }
        proof {
            assert forall|a: int, b: int| 0 <= a < 256 && 0 <= b < 256 implies (#[trigger] adj_at(
                adj@,
                a,
                b,
            ) <==> edge_in(lines@, a, b)) by {
                assert(adj_at(adj@, a, b) <==> edge_upto(lines@, lines@.len() as int, a, b));
            }
        }
        let mut res: Vec<Triangle> = Vec::new();
        let mut k: usize = 0;
        while k < lines.len()
            invariant
                k <= lines@.len(),
                forall|a: int, b: int, c: int| #[trigger]
                    tri_in(res@, a, b, c) <==> (b < c && edge_upto(lines@, k as int, a, b)
                        && edge_in(lines@, a, c) && edge_in(lines@, b, c)),
                forall|p: int, q: int| 0 <= p < q < res@.len() ==> res@[p] != res@[q],
            decreases lines@.len() - k,
        {
            let ea = lines[k].a;
            let eb = lines[k].b;
            proof {
                assert(!edge_upto(lines@, k as int, ea as int, eb as int)) by {
                    if edge_upto(lines@, k as int, ea as int, eb as int) {
                        let w = choose|w: int|
                            0 <= w < k && (#[trigger] lines@[w]).a as int == ea as int
                                && lines@[w].b as int == eb as int;
                        assert(!(lines@[w].a == lines@[k as int].a && lines@[w].b
                            == lines@[k as int].b));
                    }
                }
            }
            let mut v: usize = (eb as usize) + 1;
            while v < 256
                invariant
                    (eb as usize) < v,
                    v <= 256,
                    forall|a: int, b: int, c: int| #[trigger]
                        tri_in(res@, a, b, c) <==> (b < c && (edge_upto(lines@, k as int, a, b) || (
                        a == ea as int && b == eb as int && c < v)) && edge_in(lines@, a, c)
                            && edge_in(lines@, b, c)),
                    forall|p: int, q: int| 0 <= p < q < res@.len() ==> res@[p] != res@[q],
                decreases 256 - v,
            {
                let hit = adj[(ea as usize) * 256 + v] && adj[(eb as usize) * 256 + v];
                if hit {
                    proof {
                        assert(adj_at(adj@, ea as int, v as int) && adj_at(adj@, eb as int, v as int));
                        assert(edge_in(lines@, ea as int, v as int));
                        assert(edge_in(lines@, eb as int, v as int));
                        assert(!tri_in(res@, ea as int, eb as int, v as int));
                    }
                    let ghost r0 = res@;
                    res.push(Triangle { a: ea, b: eb, c: v as u8 });
                    proof {
                        let t = Triangle { a: ea, b: eb, c: v as u8 };
                        assert(res@ == r0.push(t));
                        assert forall|a: int, b: int, c: int| #[trigger]
                            tri_in(res@, a, b, c) <==> (tri_in(r0, a, b, c) || (a == ea as int && b
                                == eb as int && c == v as int)) by {
                            if tri_in(res@, a, b, c) {
                                let w = choose|w: int|
                                    0 <= w < res@.len() && (#[trigger] res@[w]).a as int == a
                                        && res@[w].b as int == b && res@[w].c as int == c;
                                if w < r0.len() {
                                    assert(r0[w].a as int == a && r0[w].b as int == b
                                        && r0[w].c as int == c);
                                    assert(tri_in(r0, a, b, c));
                                } else {
                                    assert(res@[w] == t);
                                }
                            }
                            if tri_in(r0, a, b, c) {
                                let w = choose|w: int|
                                    0 <= w < r0.len() && (#[trigger] r0[w]).a as int == a
                                        && r0[w].b as int == b && r0[w].c as int == c;
                                assert(res@[w].a as int == a && res@[w].b as int == b
                                    && res@[w].c as int == c);
                                assert(tri_in(res@, a, b, c));
                            }
                            if a == ea as int && b == eb as int && c == v as int {
                                assert(res@[r0.len() as int] == t);
                                assert(tri_in(res@, a, b, c));
                            }
                        }
                        assert forall|p: int, q: int| 0 <= p < q < res@.len() implies res@[p]
                            != res@[q] by {
                            if q == r0.len() {
                                if res@[p] == t {
                                    assert(r0[p].a as int == ea as int && r0[p].b as int
                                        == eb as int && r0[p].c as int == v as int);
                                    assert(tri_in(r0, ea as int, eb as int, v as int));
                                }
                            }
                        }
                    }
                }
                v = v + 1;
                proof {
                    assert forall|a: int, b: int, c: int| #[trigger]
                        tri_in(res@, a, b, c) <==> (b < c && (edge_upto(lines@, k as int, a, b) || (
                        a == ea as int && b == eb as int && c < v)) && edge_in(lines@, a, c)
                            && edge_in(lines@, b, c)) by {
                        if !hit {
                            if a == ea as int && b == eb as int && c == v - 1 {
                                assert(!(adj_at(adj@, ea as int, v - 1) && adj_at(
                                    adj@,
                                    eb as int,
                                    v - 1,
                                )));
                            }
                        }
                    }
                }
            }
            k = k + 1;
            proof {
                assert forall|a: int, b: int, c: int| #[trigger]
                    tri_in(res@, a, b, c) <==> (b < c && edge_upto(lines@, k as int, a, b)
                        && edge_in(lines@, a, c) && edge_in(lines@, b, c)) by {
                    if tri_in(res@, a, b, c) {
                        let w = choose|w: int|
                            0 <= w < res@.len() && (#[trigger] res@[w]).a as int == a
                                && res@[w].b as int == b && res@[w].c as int == c;
                        assert(c < 256);
                        if a == ea as int && b == eb as int {
                            assert(lines@[k - 1].a as int == a && lines@[k - 1].b as int == b);
                            assert(edge_upto(lines@, k as int, a, b));
                        } else {
                            if edge_upto(lines@, k - 1, a, b) {
                                let u = choose|u: int|
                                    0 <= u < k - 1 && (#[trigger] lines@[u]).a as int == a
                                        && lines@[u].b as int == b;
                                assert(edge_upto(lines@, k as int, a, b));
                            }
                        }
                    }
                    if b < c && edge_upto(lines@, k as int, a, b) && edge_in(lines@, a, c)
                        && edge_in(lines@, b, c) {
                        let u = choose|u: int|
                            0 <= u < k && (#[trigger] lines@[u]).a as int == a && lines@[u].b as int
                                == b;
                        let w = choose|w: int|
                            0 <= w < lines@.len() && (#[trigger] lines@[w]).a as int == b
                                && lines@[w].b as int == c;
                        assert(c < 256);
                        if u == k - 1 {
                            assert(a == ea as int && b == eb as int);
                        } else {
                            assert(edge_upto(lines@, k - 1, a, b));
                        }
                    }
                }
            }
        }
        proof {
            assert forall|a: int, b: int, c: int| #[trigger]
                tri_in(res@, a, b, c) <==> (a < b && b < c && line_present(self@, d as int, a, b)
                    && line_present(self@, d as int, a, c) && line_present(self@, d as int, b, c))
                by {
                if tri_in(res@, a, b, c) {
                    assert(edge_upto(lines@, lines@.len() as int, a, b));
                    assert(edge_in(lines@, a, b));
                    let u = choose|u: int|
                        0 <= u < lines@.len() && (#[trigger] lines@[u]).a as int == a
                            && lines@[u].b as int == b;
                    assert(a < b);
                }
                if a < b && b < c && line_present(self@, d as int, a, b) && line_present(
                    self@,
                    d as int,
                    a,
                    c,
                ) && line_present(self@, d as int, b, c) {
                    assert(edge_in(lines@, a, b));
                    let u = choose|u: int|
                        0 <= u < lines@.len() && (#[trigger] lines@[u]).a as int == a
                            && lines@[u].b as int == b;
                    assert(edge_upto(lines@, lines@.len() as int, a, b));
                }
            }
            assert forall|k2: int| 0 <= k2 < res@.len() implies ((#[trigger] res@[k2]).a
                < res@[k2].b && res@[k2].b < res@[k2].c) by {
                assert(tri_in(res@, res@[k2].a as int, res@[k2].b as int, res@[k2].c as int));
            }
        }
        res
    }
}

/// Comparison in table order.
fn entry_le_at(e1: &DistanceEntry, e2: &DistanceEntry) -> (r: bool)
    ensures
        r == entry_le(*e1, *e2),
{
    if e1.d != e2.d {
        e1.d < e2.d
    } else if e1.a != e2.a {
        e1.a < e2.a
    } else {
        e1.b <= e2.b
    }
}

/// Binary search for the position where `e` belongs in the sorted table:
/// everything before it precedes `e`, nothing from it on does.
#[verifier::loop_isolation(false)]
fn insert_pos(v: &Vec<DistanceEntry>, e: &DistanceEntry) -> (pos: usize)
    requires
        entries_sorted(v@),
    ensures
        pos <= v@.len(),
        forall|k: int| 0 <= k < pos ==> entry_le(#[trigger] v@[k], *e),
        forall|k: int| pos <= k < v@.len() ==> !entry_le(#[trigger] v@[k], *e),
{
    let mut lo: usize = 0;
    let mut hi: usize = v.len();
    while lo < hi
        invariant
            lo <= hi <= v@.len(),
            forall|k: int| 0 <= k < lo ==> entry_le(#[trigger] v@[k], *e),
            forall|k: int| hi <= k < v@.len() ==> !entry_le(#[trigger] v@[k], *e),
        decreases hi - lo,
    {
        let mid = lo + (hi - lo) / 2;
        if entry_le_at(&v[mid], e) {
            lo = mid + 1;
        } else {
            hi = mid;
        }
    }
    lo
}

/// Inserting a fresh valid entry at its sorted position keeps the table
/// sorted, duplicate-free and valid, and adds exactly that pair.
proof fn lemma_insert_entry(s0: Seq<DistanceEntry>, pos: int, e: DistanceEntry, points: Seq<Point>)
    requires
        entries_sorted(s0),
        pairs_distinct(s0),
        entries_valid(s0, points),
        entry_valid(e, points),
        !pair_in(s0, e.a as int, e.b as int),
        0 <= pos <= s0.len(),
        forall|k: int| 0 <= k < pos ==> entry_le(#[trigger] s0[k], e),
        forall|k: int| pos <= k < s0.len() ==> !entry_le(#[trigger] s0[k], e),
    ensures
        entries_sorted(s0.insert(pos, e)),
        pairs_distinct(s0.insert(pos, e)),
        entries_valid(s0.insert(pos, e), points),
        forall|a: int, b: int| #[trigger]
            pair_in(s0.insert(pos, e), a, b) <==> (pair_in(s0, a, b) || (a == e.a as int && b
                == e.b as int)),
{
    s0.insert_ensures(pos, e);
    let s1 = s0.insert(pos, e);
    assert forall|q: int| pos < q < s1.len() implies s1[q] == s0[q - 1] by {
        assert(s0.insert(pos, e)[(q - 1) + 1] == s0[q - 1]);
    }
    assert forall|p: int, q: int| 0 <= p <= q < s1.len() implies entry_le(
        #[trigger] s1[p],
        #[trigger] s1[q],
    ) by {
        if p < pos {
            if q < pos {
                assert(entry_le(s0[p], s0[q]));
            } else if q == pos {
                assert(entry_le(s0[p], e));
            } else {
                assert(entry_le(s0[p], s0[q - 1]));
            }
        } else if p == pos {
            if q > pos {
                assert(!entry_le(s0[q - 1], e));
            }
        } else {
            assert(entry_le(s0[p - 1], s0[q - 1]));
        }
    }
    assert forall|p: int, q: int| 0 <= p < q < s1.len() implies !((#[trigger] s1[p]).a == (
    #[trigger] s1[q]).a && s1[p].b == s1[q].b) by {
        if p == pos {
            assert(s1[q] == s0[q - 1]);
            if s1[q].a == e.a && s1[q].b == e.b {
                assert(0 <= q - 1 < s0.len() && s0[q - 1].a as int == e.a as int && s0[q
                    - 1].b as int == e.b as int);
                assert(pair_in(s0, e.a as int, e.b as int));
            }
        } else if q == pos {
            if s1[p].a == e.a && s1[p].b == e.b {
                assert(0 <= p < s0.len() && s0[p].a as int == e.a as int && s0[p].b as int
                    == e.b as int);
                assert(pair_in(s0, e.a as int, e.b as int));
            }
        }
    }
    assert forall|k: int| 0 <= k < s1.len() implies entry_valid(#[trigger] s1[k], points) by {
        if k > pos {
            assert(s1[k] == s0[k - 1]);
        }
    }
    assert forall|a: int, b: int| #[trigger]
        pair_in(s1, a, b) <==> (pair_in(s0, a, b) || (a == e.a as int && b == e.b as int)) by {
        if pair_in(s1, a, b) {
            let k = choose|k: int|
                0 <= k < s1.len() && (#[trigger] s1[k]).a as int == a && s1[k].b as int == b;
            if k < pos {
                assert(s0[k].a as int == a && s0[k].b as int == b);
                assert(pair_in(s0, a, b));
            } else if k > pos {
                assert(s0[k - 1].a as int == a && s0[k - 1].b as int == b);
                assert(pair_in(s0, a, b));
            }
        }
        if pair_in(s0, a, b) {
            let k = choose|k: int|
                0 <= k < s0.len() && (#[trigger] s0[k]).a as int == a && s0[k].b as int == b;
            if k < pos {
                assert(s1[k].a as int == a && s1[k].b as int == b);
            } else {
                assert(s1[k + 1] == s0[k]);
                assert(s1[k + 1].a as int == a && s1[k + 1].b as int == b);
            }
            assert(pair_in(s1, a, b));
        }
        if (a == e.a as int && b == e.b as int) {
            assert(s1[pos].a as int == a && s1[pos].b as int == b);
            assert(pair_in(s1, a, b));
        }
    }
}

} // verus!
