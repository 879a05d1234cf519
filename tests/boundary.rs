use glam::UVec2;
use seldom_map_nav::classify::classify_vertices;
use seldom_map_nav::mesh::{collect_navability, Navability};
use seldom_map_nav::stitch::{offset_boundary, OffsetBoundary, OffsetPoint};
use seldom_map_nav::vertex::{Cardinal, CardinalAxis, Ordinal, OrdinalAxis, VertexNormal};

const ORDINALS: [Ordinal; 4] = [
    Ordinal::Northeast,
    Ordinal::Northwest,
    Ordinal::Southeast,
    Ordinal::Southwest,
];

fn grid(rows: &[&[bool]]) -> (UVec2, Vec<Navability>) {
    let size = UVec2::new(rows[0].len() as u32, rows.len() as u32);
    let nav = collect_navability(size, |p: UVec2| {
        if rows[p.y as usize][p.x as usize] {
            Navability::Navable
        } else {
            Navability::Solid
        }
    });
    (size, nav)
}

fn boundary(rows: &[&[bool]]) -> OffsetBoundary {
    let (size, nav) = grid(rows);
    offset_boundary(size, &nav)
}

fn point(x: u32, y: u32, ordinal: Ordinal, inner: bool) -> OffsetPoint {
    OffsetPoint { x, y, ordinal, inner }
}

/// Each point of the boundary lies on exactly two edges.
fn assert_closed_loops(b: &OffsetBoundary) {
    let mut degree = vec![0usize; b.points.len()];
    for &(s, e) in &b.edges {
        assert!(s < e && e < b.points.len());
        degree[s] += 1;
        degree[e] += 1;
    }
    assert!(degree.iter().all(|&d| d == 2), "degrees {degree:?}");
}

#[test]
fn ordinal_neg_is_point_reflection() {
    assert_eq!(Ordinal::Northeast.neg(), Ordinal::Southwest);
    assert_eq!(Ordinal::Northwest.neg(), Ordinal::Southeast);
    assert_eq!(Ordinal::Southeast.neg(), Ordinal::Northwest);
    assert_eq!(Ordinal::Southwest.neg(), Ordinal::Northeast);
    for o in ORDINALS {
        assert_eq!(o.neg().neg(), o);
    }
}

#[test]
fn ordinal_parts_axis_and_reflect() {
    assert_eq!(Ordinal::Northwest.parts(), (true, false));
    assert_eq!(Ordinal::Southeast.parts(), (false, true));
    assert_eq!(Ordinal::Northeast.axis(), OrdinalAxis::Inc);
    assert_eq!(Ordinal::Southeast.axis(), OrdinalAxis::Dec);
    assert_eq!(Ordinal::Northeast.reflect(CardinalAxis::Vert), Ordinal::Northwest);
    assert_eq!(Ordinal::Northeast.reflect(CardinalAxis::Horz), Ordinal::Southeast);
    assert_eq!(Ordinal::Southwest.reflect(CardinalAxis::Vert), Ordinal::Southeast);
    assert_eq!(OrdinalAxis::Inc.neg(), OrdinalAxis::Dec);
    assert_eq!(OrdinalAxis::Dec.ordinals(), [Ordinal::Northwest, Ordinal::Southeast]);
    assert_eq!(Cardinal::East.axis(), CardinalAxis::Horz);
}

#[test]
fn shared_cardinal_of_adjacent_and_opposite() {
    assert_eq!(Ordinal::Northeast.shared_cardinal(Ordinal::Northwest), Some(Cardinal::North));
    assert_eq!(Ordinal::Southwest.shared_cardinal(Ordinal::Northwest), Some(Cardinal::West));
    assert_eq!(Ordinal::Southeast.shared_cardinal(Ordinal::Northeast), Some(Cardinal::East));
    assert_eq!(Ordinal::Northeast.shared_cardinal(Ordinal::Southwest), None);
    assert_eq!(Ordinal::Northwest.shared_cardinal(Ordinal::Northwest), None);
    assert!(Ordinal::Southeast.contains_cardinal(Cardinal::South));
    assert!(!Ordinal::Southeast.contains_cardinal(Cardinal::West));
}

#[test]
fn add_reaches_every_state_in_any_order() {
    let orders: [[Ordinal; 4]; 3] = [
        ORDINALS,
        [Ordinal::Southwest, Ordinal::Northeast, Ordinal::Northwest, Ordinal::Southeast],
        [Ordinal::Northwest, Ordinal::Southeast, Ordinal::Southwest, Ordinal::Northeast],
    ];
    for order in orders {
        let mut v = VertexNormal::Open;
        for o in order {
            v.add_assn(o);
        }
        assert_eq!(v, VertexNormal::Four);
    }
    let a = VertexNormal::Open.add(Ordinal::Northeast).add(Ordinal::Northwest);
    let b = VertexNormal::Open.add(Ordinal::Northwest).add(Ordinal::Northeast);
    assert_eq!(a, VertexNormal::TwoAdj(Cardinal::North));
    assert_eq!(a, b);
    let d = VertexNormal::Open.add(Ordinal::Southwest).add(Ordinal::Northeast);
    assert_eq!(d, VertexNormal::TwoDiag(OrdinalAxis::Inc));
    let t1 = d.add(Ordinal::Northwest);
    let t2 = a.add(Ordinal::Southwest);
    assert_eq!(t1, VertexNormal::Three(Ordinal::Northwest));
    assert_eq!(t1, t2);
    assert_eq!(VertexNormal::TwoAdj(Cardinal::North).add(Ordinal::Southeast), VertexNormal::Three(Ordinal::Northeast));
}

#[test]
fn normals_emitted_per_state() {
    assert!(VertexNormal::Open.normals().is_empty());
    assert!(VertexNormal::Four.normals().is_empty());
    assert!(VertexNormal::TwoAdj(Cardinal::West).normals().is_empty());
    assert_eq!(VertexNormal::One(Ordinal::Southwest).normals(), vec![(Ordinal::Southwest, false)]);
    assert_eq!(VertexNormal::Three(Ordinal::Northeast).normals(), vec![(Ordinal::Northeast, true)]);
    assert_eq!(
        VertexNormal::TwoDiag(OrdinalAxis::Inc).normals(),
        vec![(Ordinal::Northwest, true), (Ordinal::Southeast, true)]
    );
}

#[test]
fn classify_single_tile_map() {
    let (size, nav) = grid(&[&[true]]);
    let v = classify_vertices(size, &nav);
    assert_eq!(
        v,
        vec![
            VertexNormal::Three(Ordinal::Northeast),
            VertexNormal::Three(Ordinal::Northwest),
            VertexNormal::Three(Ordinal::Southeast),
            VertexNormal::Three(Ordinal::Southwest),
        ]
    );
    let (size, nav) = grid(&[&[false]]);
    assert!(classify_vertices(size, &nav).iter().all(|v| *v == VertexNormal::Four));
}

#[test]
fn classify_empty_map() {
    let size = UVec2::new(0, 0);
    let v = classify_vertices(size, &Vec::new());
    assert_eq!(v, vec![VertexNormal::Four]);
    let b = offset_boundary(size, &Vec::new());
    assert!(b.points.is_empty() && b.edges.is_empty());
}

#[test]
fn classify_interior_vertex_of_solid_tile() {
    let (size, nav) = grid(&[&[true, true, true], &[true, false, true], &[true, true, true]]);
    let v = classify_vertices(size, &nav);
    assert_eq!(v[1 * 4 + 1], VertexNormal::One(Ordinal::Southwest));
    assert_eq!(v[1 * 4 + 2], VertexNormal::One(Ordinal::Southeast));
    assert_eq!(v[2 * 4 + 1], VertexNormal::One(Ordinal::Northwest));
    assert_eq!(v[2 * 4 + 2], VertexNormal::One(Ordinal::Northeast));
    assert_eq!(v[0 * 4 + 1], VertexNormal::TwoAdj(Cardinal::North));
    assert_eq!(v[0], VertexNormal::Three(Ordinal::Northeast));
}

#[test]
fn open_map_boundary_is_the_rectangle() {
    let b = boundary(&[&[true, true, true], &[true, true, true]]);
    assert_eq!(
        b.points,
        vec![
            point(0, 0, Ordinal::Northeast, true),
            point(3, 0, Ordinal::Northwest, true),
            point(0, 2, Ordinal::Southeast, true),
            point(3, 2, Ordinal::Southwest, true),
        ]
    );
    assert_eq!(b.edges, vec![(0, 1), (0, 2), (1, 3), (2, 3)]);
    assert_closed_loops(&b);
}

#[test]
fn isolated_solid_tile_gives_a_quadrilateral() {
    let b = boundary(&[&[true, true, true], &[true, false, true], &[true, true, true]]);
    assert_eq!(b.points.len(), 8);
    assert_eq!(b.edges.len(), 8);
    let tile: Vec<usize> = (0..b.points.len()).filter(|&i| !b.points[i].inner).collect();
    assert_eq!(tile.len(), 4);
    assert_eq!(b.points[tile[0]], point(1, 1, Ordinal::Southwest, false));
    assert_eq!(b.points[tile[1]], point(2, 1, Ordinal::Southeast, false));
    assert_eq!(b.points[tile[2]], point(1, 2, Ordinal::Northwest, false));
    assert_eq!(b.points[tile[3]], point(2, 2, Ordinal::Northeast, false));
    let loop_edges: Vec<(usize, usize)> =
        b.edges.iter().copied().filter(|(s, e)| tile.contains(s) && tile.contains(e)).collect();
    assert_eq!(loop_edges.len(), 4);
    assert!(loop_edges.contains(&(tile[0], tile[1])));
    assert!(loop_edges.contains(&(tile[0], tile[2])));
    assert!(loop_edges.contains(&(tile[1], tile[3])));
    assert!(loop_edges.contains(&(tile[2], tile[3])));
    assert_closed_loops(&b);
}

#[test]
fn diagonal_solid_tiles_meet_at_a_vertex() {
    let b = boundary(&[&[true, true, true, true], &[true, false, true, true], &[true, true, false, true], &[true, true, true, true]]);
    let shared: Vec<&OffsetPoint> = b.points.iter().filter(|p| p.x == 2 && p.y == 2).collect();
    assert_eq!(shared.len(), 2);
    assert!(shared.iter().all(|p| p.inner));
    assert_closed_loops(&b);
}

#[test]
fn boundary_map_stitches_every_run() {
    let b = boundary(&[
        &[true, true, true, true, false],
        &[true, false, false, true, true],
        &[true, true, true, false, true],
        &[true, true, false, false, true],
    ]);
    assert_closed_loops(&b);
    assert!(b.points.iter().all(|p| p.x <= 5 && p.y <= 4));
    assert_eq!(b.edges.len(), b.points.len());
}

#[test]
fn boundary_is_deterministic() {
    let rows: &[&[bool]] = &[&[true, false, true], &[false, true, true]];
    let a = boundary(rows);
    let b = boundary(rows);
    assert_eq!(a.points, b.points);
    assert_eq!(a.edges, b.edges);
}

#[test]
fn collect_navability_reads_row_major() {
    let (size, nav) = grid(&[&[true, false, true], &[false, true, true]]);
    assert_eq!(size, UVec2::new(3, 2));
    assert_eq!(
        nav,
        vec![
            Navability::Navable,
            Navability::Solid,
            Navability::Navable,
            Navability::Solid,
            Navability::Navable,
            Navability::Navable,
        ]
    );
}
