use proximity::{ConstructionError, Distances, Edge, Model, Point, Triangle};
use proximity::{generate_vertices, select_within};

// Four points at the origin and at unit distance along each axis, at a
// fixed-point scale of 1000 steps per unit. The three pairs involving the
// origin are at squared distance 1_000_000; the three pairs among the
// axis points are at squared distance 2_000_000.
fn axis_points() -> Vec<Point> {
    vec![
        Point { x: 0, y: 0, z: 0 },
        Point { x: 1000, y: 0, z: 0 },
        Point { x: 0, y: 1000, z: 0 },
        Point { x: 0, y: 0, z: 1000 },
    ]
}

fn has_edge(lines: &Vec<Edge>, a: u8, b: u8) -> bool {
    lines.iter().any(|e| e.a == a && e.b == b)
}

fn has_triangle(triangles: &Vec<Triangle>, a: u8, b: u8, c: u8) -> bool {
    triangles.iter().any(|t| t.a == a && t.b == b && t.c == c)
}

#[test]
fn concrete_scenario_low_threshold() {
    let mut m = Model::with_vertices(axis_points()).unwrap();
    // threshold 1.01 units: squared fixed-point 1010 * 1010
    m.update_distance_threshold(1_020_100);
    assert_eq!(m.lines().len(), 3);
    assert!(has_edge(m.lines(), 0, 1));
    assert!(has_edge(m.lines(), 0, 2));
    assert!(has_edge(m.lines(), 0, 3));
    assert!(!has_edge(m.lines(), 1, 2));
    assert!(m.triangles().is_empty());
}

#[test]
fn concrete_scenario_high_threshold() {
    let mut m = Model::with_vertices(axis_points()).unwrap();
    // threshold 1.5 units: squared fixed-point 1500 * 1500
    m.update_distance_threshold(2_250_000);
    assert_eq!(m.lines().len(), 6);
    for (a, b) in [(0, 1), (0, 2), (0, 3), (1, 2), (1, 3), (2, 3)] {
        assert!(has_edge(m.lines(), a, b));
    }
    assert_eq!(m.triangles().len(), 4);
    for (a, b, c) in [(0, 1, 2), (0, 1, 3), (0, 2, 3), (1, 2, 3)] {
        assert!(has_triangle(m.triangles(), a, b, c));
    }
}

#[test]
fn threshold_zero_yields_nothing() {
    let mut m = Model::with_vertices(axis_points()).unwrap();
    m.update_distance_threshold(2_250_000);
    m.update_distance_threshold(0);
    assert!(m.lines().is_empty());
    assert!(m.triangles().is_empty());
}

#[test]
fn negative_threshold_yields_nothing() {
    let mut m = Model::with_vertices(axis_points()).unwrap();
    m.update_distance_threshold(-5);
    assert!(m.lines().is_empty());
    assert!(m.triangles().is_empty());
}

#[test]
fn threshold_monotonic_on_axis_points() {
    let mut low = Model::with_vertices(axis_points()).unwrap();
    low.update_distance_threshold(1_020_100);
    let mut high = Model::with_vertices(axis_points()).unwrap();
    high.update_distance_threshold(2_250_000);
    for e in low.lines() {
        assert!(has_edge(high.lines(), e.a, e.b));
    }
    for t in low.triangles() {
        assert!(has_triangle(high.triangles(), t.a, t.b, t.c));
    }
}

#[test]
fn triangles_close_over_edges() {
    let mut m = Model::with_vertices(axis_points()).unwrap();
    m.update_distance_threshold(2_250_000);
    for t in m.triangles() {
        assert!(has_edge(m.lines(), t.a, t.b));
        assert!(has_edge(m.lines(), t.a, t.c));
        assert!(has_edge(m.lines(), t.b, t.c));
    }
}

#[test]
fn every_clique_becomes_a_triangle_once() {
    let mut m = Model::new(60, 250_000_000_000).unwrap();
    m.update_distance_threshold(150_000_000_000);
    let lines = m.lines().clone();
    let triangles = m.triangles().clone();
    let n = m.vertices().len() as u8;
    let mut expected: usize = 0;
    for a in 0..n {
        for b in (a + 1)..n {
            for c in (b + 1)..n {
                let clique = has_edge(&lines, a, b) && has_edge(&lines, a, c)
                    && has_edge(&lines, b, c);
                if clique {
                    expected += 1;
                }
                assert_eq!(clique, has_triangle(&triangles, a, b, c));
            }
        }
    }
    assert_eq!(triangles.len(), expected);
}

#[test]
fn canonical_ordering_and_no_duplicates() {
    let mut m = Model::new(80, 1_000_000_000_000).unwrap();
    m.update_distance_threshold(400_000_000_000);
    let lines = m.lines();
    for e in lines {
        assert!(e.a < e.b);
    }
    for p in 0..lines.len() {
        for q in (p + 1)..lines.len() {
            assert!(!(lines[p].a == lines[q].a && lines[p].b == lines[q].b));
        }
    }
    let triangles = m.triangles();
    for t in triangles {
        assert!(t.a < t.b && t.b < t.c);
    }
    for p in 0..triangles.len() {
        for q in (p + 1)..triangles.len() {
            assert!(triangles[p] != triangles[q]);
        }
    }
}

#[test]
fn lines_come_in_ascending_distance_order() {
    let pts = axis_points();
    let d = Distances::new(&pts);
    let lines = d.lines(3_000_000);
    assert_eq!(lines.len(), 6);
    // the three unit pairs precede the three longer ones, ties broken by
    // the index pair
    assert_eq!(lines[0], Edge { a: 0, b: 1 });
    assert_eq!(lines[1], Edge { a: 0, b: 2 });
    assert_eq!(lines[2], Edge { a: 0, b: 3 });
    assert_eq!(lines[3], Edge { a: 1, b: 2 });
    assert_eq!(lines[4], Edge { a: 1, b: 3 });
    assert_eq!(lines[5], Edge { a: 2, b: 3 });
}

#[test]
fn distances_agree_with_model() {
    // the table-level and model-level derivations see the same complex
    let pts = axis_points();
    let d = Distances::new(&pts);
    let mut m = Model::with_vertices(axis_points()).unwrap();
    m.update_distance_threshold(2_250_000);
    assert_eq!(&d.lines(2_250_000), m.lines());
    assert_eq!(&d.triangles(2_250_000), m.triangles());
}

#[test]
fn generated_points_stay_inside_the_sphere() {
    let v = generate_vertices(50, 250_000_000_000).unwrap();
    assert_eq!(v.len(), 50);
    for p in &v {
        assert!(-500_000 <= p.x && p.x <= 500_000);
        assert!(-500_000 <= p.y && p.y <= 500_000);
        assert!(-500_000 <= p.z && p.z <= 500_000);
        assert!(p.x * p.x + p.y * p.y + p.z * p.z < 250_000_000_000);
    }
}

#[test]
fn covering_radius_always_succeeds() {
    // the sphere covers the whole sampling cube, so no draw is rejected
    let v = generate_vertices(255, 1_000_000_000_000).unwrap();
    assert_eq!(v.len(), 255);
}

#[test]
fn vertex_limit_boundary() {
    let too_many = Model::new(256, 1_000_000_000_000);
    assert_eq!(too_many.unwrap_err(), ConstructionError::VertexLimitExceeded);
    let just_enough = Model::new(255, 1_000_000_000_000).unwrap();
    assert_eq!(just_enough.vertices().len(), 255);
    assert_eq!(just_enough.distance_threshold(), 0);
    assert!(just_enough.lines().is_empty());
    assert!(just_enough.triangles().is_empty());
}

#[test]
fn radius_must_be_positive() {
    assert_eq!(Model::new(10, 0).unwrap_err(), ConstructionError::InvalidRadius);
    assert_eq!(Model::new(10, -4).unwrap_err(), ConstructionError::InvalidRadius);
}

#[test]
fn hopeless_radius_exhausts_the_sampler() {
    // only the exact origin lies strictly inside a squared radius of 1,
    // so the attempt budget runs out
    let r = Model::new(1, 1);
    assert_eq!(r.unwrap_err(), ConstructionError::GenerationExhausted);
}

#[test]
fn coincident_points_form_an_edge() {
    let pts = vec![Point { x: 7, y: 7, z: 7 }, Point { x: 7, y: 7, z: 7 }];
    let mut m = Model::with_vertices(pts).unwrap();
    m.update_distance_threshold(1);
    assert_eq!(m.lines().len(), 1);
    assert!(has_edge(m.lines(), 0, 1));
}

#[test]
fn select_within_keeps_the_first_accepted() {
    let far = Point { x: 600_000, y: 600_000, z: 600_000 };
    let near1 = Point { x: 100, y: 0, z: 0 };
    let near2 = Point { x: 0, y: 200, z: 0 };
    let near3 = Point { x: 0, y: 0, z: 300 };
    let cands = vec![far, near1, far, near2, near3];
    let picked = select_within(&cands, 2, 250_000_000_000).unwrap();
    assert_eq!(picked, vec![near1, near2]);
    assert!(select_within(&cands, 4, 250_000_000_000).is_none());
}

#[test]
fn index_data_concatenates_edges_then_triangles() {
    let mut m = Model::with_vertices(axis_points()).unwrap();
    m.update_distance_threshold(2_250_000);
    let data = m.index_data();
    let edge_count = m.lines().len();
    let triangle_count = m.triangles().len();
    assert_eq!(data.len(), 2 * edge_count + 3 * triangle_count);
    for (k, e) in m.lines().iter().enumerate() {
        assert_eq!(data[2 * k], e.a);
        assert_eq!(data[2 * k + 1], e.b);
    }
    let offset = 2 * edge_count;
    for (k, t) in m.triangles().iter().enumerate() {
        assert_eq!(data[offset + 3 * k], t.a);
        assert_eq!(data[offset + 3 * k + 1], t.b);
        assert_eq!(data[offset + 3 * k + 2], t.c);
    }
}

#[test]
fn recompute_replaces_prior_state_wholesale() {
    let mut m = Model::with_vertices(axis_points()).unwrap();
    m.update_distance_threshold(2_250_000);
    assert_eq!(m.lines().len(), 6);
    m.update_distance_threshold(1_020_100);
    assert_eq!(m.lines().len(), 3);
    assert!(m.triangles().is_empty());
    assert_eq!(m.distance_threshold(), 1_020_100);
    // a threshold above the largest pairwise squared distance saturates
    m.update_distance_threshold(3_000_000);
    assert_eq!(m.lines().len(), 6);
    assert_eq!(m.triangles().len(), 4);
}
