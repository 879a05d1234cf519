use glam::{UVec2, Vec2};
use navmesh::{NavMesh, NavPathMode, NavQuery, NavTriangle, NavVec3};
use seldom_map_nav::mesh::{
    collect_navability, navable_triangles, sort_clearances, Clearance, Navability, Navmeshes,
};
use seldom_map_nav::stitch::offset_boundary;
use seldom_map_nav::vertex::Ordinal;

fn clearance(c: f32) -> Clearance {
    Clearance::from_bits(c.to_bits())
}

fn unit_square() -> NavMesh {
    NavMesh::new(
        vec![
            NavVec3::new(0., 0., 0.),
            NavVec3::new(1., 0., 0.),
            NavVec3::new(1., 1., 0.),
            NavVec3::new(0., 1., 0.),
        ],
        vec![NavTriangle::from((0, 1, 2)), NavTriangle::from((0, 2, 3))],
    )
    .unwrap()
}

fn stored(clearances: &[f32]) -> (Navmeshes, Vec<navmesh::NavMeshID>) {
    let mut meshes = Navmeshes::new();
    let mut ids = Vec::new();
    for &c in clearances {
        let mesh = unit_square();
        ids.push(mesh.id());
        meshes.insert(clearance(c), mesh);
    }
    (meshes, ids)
}

fn ordinal_vec(o: Ordinal) -> Vec2 {
    let (north, east) = o.parts();
    Vec2::new(if east { 1. } else { -1. }, if north { 1. } else { -1. })
}

/// Builds a navmesh the way the library's pieces fit together: offset
/// points, constrained triangulation, and the triangles on navigable tiles.
fn build_mesh(rows: &[&[bool]], tile_size: Vec2, clearance: f32) -> (NavMesh, Vec<Vec2>, Vec<(usize, usize, usize)>) {
    let size = UVec2::new(rows[0].len() as u32, rows.len() as u32);
    let nav = collect_navability(size, |p: UVec2| {
        if rows[p.y as usize][p.x as usize] {
            Navability::Navable
        } else {
            Navability::Solid
        }
    });
    let boundary = offset_boundary(size, &nav);
    let vertices: Vec<Vec2> = boundary
        .points
        .iter()
        .map(|p| UVec2::new(p.x, p.y).as_vec2() * tile_size + ordinal_vec(p.ordinal) * clearance)
        .collect();
    let pts: Vec<(f64, f64)> = vertices.iter().map(|v| (v.x as f64, v.y as f64)).collect();
    let triangles = cdt::triangulate_with_edges(&pts, &boundary.edges).unwrap();
    let tiles: Vec<UVec2> = triangles
        .iter()
        .map(|&(a, b, c)| ((vertices[a] + vertices[b] + vertices[c]) / 3. / tile_size).as_uvec2())
        .collect();
    let kept = navable_triangles(size, &nav, &triangles, &tiles);
    let mesh = NavMesh::new(
        vertices.iter().map(|v| NavVec3::new(v.x, v.y, 0.)).collect(),
        kept.iter().map(|&(a, b, c)| NavTriangle::from((a as u32, b as u32, c as u32))).collect(),
    )
    .unwrap();
    (mesh, vertices, kept)
}

fn area(vertices: &[Vec2], t: (usize, usize, usize)) -> f32 {
    let (a, b, c) = (vertices[t.0], vertices[t.1], vertices[t.2]);
    ((b - a).perp_dot(c - a) / 2.).abs()
}

#[test]
fn clearances_sorted_ascending() {
    let sorted = sort_clearances(vec![clearance(0.4), clearance(0.), clearance(0.2)]);
    assert_eq!(sorted, vec![clearance(0.), clearance(0.2), clearance(0.4)]);
    let sorted = sort_clearances(vec![clearance(3.), clearance(-1.), clearance(f32::INFINITY), clearance(0.5)]);
    assert_eq!(sorted, vec![clearance(-1.), clearance(0.5), clearance(3.), clearance(f32::INFINITY)]);
    assert!(sort_clearances(Vec::new()).is_empty());
}

#[test]
fn navmeshes_stored_in_clearance_order() {
    let (meshes, ids) = stored(&[0.4, 0., 0.2]);
    assert_eq!(meshes.mesh_count(), 3);
    assert_eq!(meshes.clearance_at(0), Some(clearance(0.)));
    assert_eq!(meshes.clearance_at(1), Some(clearance(0.2)));
    assert_eq!(meshes.clearance_at(2), Some(clearance(0.4)));
    assert_eq!(meshes.clearance_at(3), None);
    assert_eq!(meshes.mesh_at(0).unwrap().id(), ids[1]);
    assert_eq!(meshes.mesh_at(1).unwrap().id(), ids[2]);
    assert_eq!(meshes.mesh_at(2).unwrap().id(), ids[0]);
    assert!(meshes.mesh_at(3).is_none());
}

#[test]
fn navmesh_lookup_by_least_clearance_not_below() {
    let (meshes, ids) = stored(&[0., 0.2, 0.4]);
    assert_eq!(meshes.mesh(clearance(0.3)).unwrap().id(), ids[2]);
    assert_eq!(meshes.mesh(clearance(0.2)).unwrap().id(), ids[1]);
    assert_eq!(meshes.mesh(clearance(0.)).unwrap().id(), ids[0]);
    assert!(meshes.mesh(clearance(0.5)).is_none());
    assert_eq!(meshes.mesh(clearance(-0.)).unwrap().id(), ids[0]);
    assert!(Navmeshes::new().mesh(clearance(0.)).is_none());
    assert_eq!(Navmeshes::new().mesh_count(), 0);
}

#[test]
fn clearance_order_key() {
    assert_eq!(clearance(0.).order_key(), 0);
    assert_eq!(clearance(-0.).order_key(), 0);
    assert!(clearance(0.2).order_key() < clearance(0.3).order_key());
    assert!(clearance(-0.3).order_key() < clearance(-0.2).order_key());
    assert_eq!(clearance(1.5).to_bits(), 1.5f32.to_bits());
}

#[test]
fn triangles_kept_only_on_navable_tiles() {
    let size = UVec2::new(2, 2);
    let nav = vec![Navability::Navable, Navability::Solid, Navability::Navable, Navability::Navable];
    let tris = vec![(0, 1, 2), (1, 2, 3), (2, 3, 4), (3, 4, 5), (4, 5, 6)];
    let tiles = vec![
        UVec2::new(0, 0),
        UVec2::new(1, 0),
        UVec2::new(1, 1),
        UVec2::new(2, 0),
        UVec2::new(0, 2),
    ];
    assert_eq!(navable_triangles(size, &nav, &tris, &tiles), vec![(0, 1, 2), (2, 3, 4)]);
}

#[test]
fn open_map_mesh_covers_the_rectangle() {
    let rows: &[&[bool]] = &[&[true, true, true], &[true, true, true]];
    let tile_size = Vec2::new(2., 0.5);
    let (_, vertices, kept) = build_mesh(rows, tile_size, 0.);
    let total: f32 = kept.iter().map(|&t| area(&vertices, t)).sum();
    assert!((total - 3. * 2. * 2. * 0.5).abs() < 1e-4, "area {total}");
}

#[test]
fn solid_tiles_hold_no_triangle_centroid() {
    let rows: &[&[bool]] = &[&[true, true, true, true], &[true, false, true, true], &[true, true, false, true]];
    let (_, vertices, kept) = build_mesh(rows, Vec2::ONE, 0.1);
    assert!(!kept.is_empty());
    for &(a, b, c) in &kept {
        let tile = ((vertices[a] + vertices[b] + vertices[c]) / 3.).as_uvec2();
        assert!(rows[tile.y as usize][tile.x as usize]);
    }
}

#[test]
fn boundary_map_has_a_path() {
    let rows: &[&[bool]] = &[
        &[true, true, true, true, false],
        &[true, false, false, true, true],
        &[true, true, true, false, true],
        &[true, true, false, false, true],
    ];
    let clearance = 0.2;
    let (mesh, _, _) = build_mesh(rows, Vec2::ONE, clearance);
    let path = mesh
        .find_path(
            NavVec3::new(1.5, 3.5, 0.),
            NavVec3::new(4.5, 3.5, 0.),
            NavQuery::Accuracy,
            NavPathMode::Accuracy,
        )
        .unwrap();
    assert!(!path.is_empty());
    for p in &path {
        assert!(p.x >= 0. && p.x <= 5. && p.y >= 0. && p.y <= 4.);
        for (y, row) in rows.iter().enumerate() {
            for (x, &navable) in row.iter().enumerate() {
                if !navable {
                    let inside = p.x > x as f32 - clearance + 1e-3
                        && p.x < x as f32 + 1. + clearance - 1e-3
                        && p.y > y as f32 - clearance + 1e-3
                        && p.y < y as f32 + 1. + clearance - 1e-3;
                    assert!(!inside, "waypoint {p:?} near solid tile ({x}, {y})");
                }
            }
        }
    }
}

#[test]
fn generation_is_deterministic() {
    let rows: &[&[bool]] = &[&[true, true, false], &[true, true, true], &[false, true, true]];
    let (_, v1, k1) = build_mesh(rows, Vec2::ONE, 0.25);
    let (_, v2, k2) = build_mesh(rows, Vec2::ONE, 0.25);
    assert_eq!(v1, v2);
    assert_eq!(k1, k2);
}
