//! Classification of every grid vertex by the blocked quadrants around it.
use vstd::prelude::*;
use vstd::arithmetic::div_mod::{
    lemma_fundamental_div_mod_converse_div, lemma_fundamental_div_mod_converse_mod,
};
use crate::vertex::{Ordinal, VertexNormal};
use glam::UVec2;

verus! {

/// Whether a tile can be walked on.
#[derive(Clone, Copy, Debug, PartialEq, Eq, Structural)]
pub enum Navability {
    /// This tile can be navigated
    Navable,
    /// This tile cannot be navigated and navigators should avoid colliding with it
    Solid,
}

/// Whether the tile `(tx, ty)` blocks movement: it lies outside the
/// `w` by `h` map, or the row-major grid `nav` marks it solid.
pub open spec fn tile_blocked(w: int, h: int, nav: Seq<Navability>, tx: int, ty: int) -> bool {
    tx < 0 || ty < 0 || tx >= w || ty >= h || nav[ty * w + tx] == Navability::Solid
}

/// The classification of grid vertex `(x, y)`: a normal points away from
/// each blocked tile among the four that meet at the vertex.
pub open spec fn classification(w: int, h: int, nav: Seq<Navability>, x: int, y: int) -> VertexNormal {
    VertexNormal::from_flags(
        tile_blocked(w, h, nav, x - 1, y - 1),
        tile_blocked(w, h, nav, x, y - 1),
        tile_blocked(w, h, nav, x - 1, y),
        tile_blocked(w, h, nav, x, y),
    )
}

/// A grid that the library can index: `nav` holds one entry per tile, row by
/// row, and two offset points for every vertex can be numbered.
pub open spec fn grid_fits(map_size: UVec2, nav: Seq<Navability>) -> bool {
    &&& nav.len() == map_size.x as int * map_size.y as int
    &&& 2 * ((map_size.x as int + 1) * (map_size.y as int + 1)) <= usize::MAX
}

/// The position of vertex `(x, y)` in the row-major vertex array of a map `w` tiles wide.
pub proof fn lemma_vertex_index(w: int, h: int, x: int, y: int)
    requires
        0 <= x <= w,
        0 <= y <= h,
    ensures
        0 <= y * (w + 1) + x < (w + 1) * (h + 1),
        (y * (w + 1) + x) % (w + 1) == x,
        (y * (w + 1) + x) / (w + 1) == y,
{
    lemma_fundamental_div_mod_converse_mod(y * (w + 1) + x, w + 1, y, x);
    lemma_fundamental_div_mod_converse_div(y * (w + 1) + x, w + 1, y, x);
    assert(0 <= y * (w + 1) + x < (w + 1) * (h + 1)) by (nonlinear_arith)
        requires
            0 <= x <= w,
            0 <= y <= h,
    ;
}

/// The coordinates of position `i` of the vertex array of a map `w` tiles wide.
pub proof fn lemma_vertex_coords(w: int, h: int, i: int)
    requires
        0 <= w,
        0 <= h,
        0 <= i < (w + 1) * (h + 1),
    ensures
        0 <= i % (w + 1) <= w,
        0 <= i / (w + 1) <= h,
        i == (i / (w + 1)) * (w + 1) + i % (w + 1),
{
    vstd::arithmetic::div_mod::lemma_fundamental_div_mod(i, w + 1);
    vstd::arithmetic::div_mod::lemma_mod_bound(i, w + 1);
    vstd::arithmetic::div_mod::lemma_div_pos_is_pos(i, w + 1);
    vstd::arithmetic::div_mod::lemma_div_is_ordered(i, (w + 1) * (h + 1) - 1, w + 1);
    vstd::arithmetic::div_mod::lemma_div_multiples_vanish_fancy(h, w, w + 1);
    assert((w + 1) * (h + 1) - 1 == h * (w + 1) + w) by (nonlinear_arith);
}

fn add_normal(normals: &mut Vec<VertexNormal>, i: usize, o: Ordinal)
    requires
        i < old(normals).len(),
        !old(normals)[i as int].has_normal(o),
    ensures
        final(normals).len() == old(normals).len(),
        forall|j: int| 0 <= j < old(normals).len() && j != i ==> final(normals)[j] == old(normals)[j],
        forall|p: Ordinal|
            #[trigger] final(normals)[i as int].has_normal(p) == (old(normals)[i as int].has_normal(p)
                || p == o),
{
    let v = normals[i].add(o);
    proof {
        assert forall|p: Ordinal| v.has_normal(p) == (normals[i as int].has_normal(p) || p == o) by {
            assert(v.normal_set().contains(p) == v.has_normal(p));
            assert(normals[i as int].normal_set().contains(p) == normals[i as int].has_normal(p));
        }
    }
    normals.set(i, v);
}

/// Normals seeded by the map's top and bottom rows, for columns before `xi`.
pub open spec fn seed_rows(h: int, xi: int, x: int, y: int, o: Ordinal) -> bool {
    x < xi && ((y == 0 && o.is_north()) || (y == h && !o.is_north()))
}

/// Normals seeded by the map's left and right columns, for tile rows before `yi`.
pub open spec fn seed_cols(w: int, yi: int, x: int, y: int, o: Ordinal) -> bool {
    (x == 0 && o.is_east() && ((!o.is_north() && y < yi) || (o.is_north() && 1 <= y <= yi))) || (x
        == w && !o.is_east() && ((!o.is_north() && y < yi) || (o.is_north() && 1 <= y <= yi)))
}

/// Normals given by solid tiles that come before tile `(xi, yi)` in row-major order.
pub open spec fn from_tiles(
    w: int,
    h: int,
    nav: Seq<Navability>,
    xi: int,
    yi: int,
    x: int,
    y: int,
    o: Ordinal,
) -> bool {
    let tx = if o.is_east() { x - 1 } else { x };
    let ty = if o.is_north() { y - 1 } else { y };
    &&& 0 <= tx < w
    &&& 0 <= ty < h
    &&& nav[ty * w + tx] == Navability::Solid
    &&& (ty < yi || (ty == yi && tx < xi))
}

/// Classifies every vertex of the map, in row-major order. Vertex `(x, y)`
/// stands at position `y * (width + 1) + x`.
pub fn classify_vertices(map_size: UVec2, navability: &Vec<Navability>) -> (r: Vec<VertexNormal>)
    requires
        grid_fits(map_size, navability@),
    ensures
        r.len() == (map_size.x as int + 1) * (map_size.y as int + 1),
        forall|i: int|
            0 <= i < r.len() ==> #[trigger] r[i] == classification(
                map_size.x as int,
                map_size.y as int,
                navability@,
                i % (map_size.x as int + 1),
                i / (map_size.x as int + 1),
            ),
{
    let w = map_size.x;
    let h = map_size.y;
    let ghost wi = w as int;
    let ghost hi = h as int;
    let ghost nav = navability@;
    proof {
        assert(wi + 1 <= (wi + 1) * (hi + 1) && hi + 1 <= (wi + 1) * (hi + 1)) by (nonlinear_arith)
            requires
                0 <= wi,
                0 <= hi,
        ;
    }
    let w1: usize = w as usize + 1;
    let n: usize = w1 * (h as usize + 1);
    let mut normals: Vec<VertexNormal> = Vec::new();
    while normals.len() < n
        invariant
            n == (wi + 1) * (hi + 1),
            normals.len() <= n,
            forall|i: int| 0 <= i < normals.len() ==> normals[i] == VertexNormal::Open,
        decreases n - normals.len(),
    {
        normals.push(VertexNormal::Open);
    }
    let mut xi: usize = 0;
    while xi < w1
        invariant
            w == wi,
            h == hi,
            w1 == wi + 1,
            n == (wi + 1) * (hi + 1),
            normals.len() == n,
            xi <= w1,
            forall|i: int, o: Ordinal|
                0 <= i < n ==> #[trigger] normals[i].has_normal(o) == seed_rows(
                    hi,
                    xi as int,
                    i % (wi + 1),
                    i / (wi + 1),
                    o,
                ),
        decreases w1 - xi,
    {
        proof {
            lemma_vertex_index(wi, hi, xi as int, 0);
            lemma_vertex_index(wi, hi, xi as int, hi);
        }
        let top: usize = xi;
        let bottom: usize = h as usize * w1 + xi;
        add_normal(&mut normals, top, Ordinal::Northeast);
        add_normal(&mut normals, top, Ordinal::Northwest);
        add_normal(&mut normals, bottom, Ordinal::Southeast);
        add_normal(&mut normals, bottom, Ordinal::Southwest);
        proof {
            assert forall|i: int, o: Ordinal| 0 <= i < n implies #[trigger] normals[i].has_normal(o)
                == seed_rows(hi, xi + 1, i % (wi + 1), i / (wi + 1), o) by {
                lemma_vertex_coords(wi, hi, i);
            }
        }
        xi = xi + 1;
    }
    let mut yi: usize = 0;
    while yi < h as usize
        invariant
            w == wi,
            h == hi,
            w1 == wi + 1,
            n == (wi + 1) * (hi + 1),
            normals.len() == n,
            yi <= hi,
            forall|i: int, o: Ordinal|
                0 <= i < n ==> #[trigger] normals[i].has_normal(o) == (seed_rows(
                    hi,
                    wi + 1,
                    i % (wi + 1),
                    i / (wi + 1),
                    o,
                ) || seed_cols(wi, yi as int, i % (wi + 1), i / (wi + 1), o)),
        decreases hi - yi,
    {
        proof {
            lemma_vertex_index(wi, hi, 0, yi as int);
            lemma_vertex_index(wi, hi, 0, yi + 1);
            lemma_vertex_index(wi, hi, wi, yi as int);
            lemma_vertex_index(wi, hi, wi, yi + 1);
        }
        let left: usize = yi * w1;
        let left_up: usize = (yi + 1) * w1;
        let right: usize = yi * w1 + w as usize;
        let right_up: usize = (yi + 1) * w1 + w as usize;
        add_normal(&mut normals, left, Ordinal::Southeast);
        add_normal(&mut normals, left_up, Ordinal::Northeast);
        add_normal(&mut normals, right, Ordinal::Southwest);
        add_normal(&mut normals, right_up, Ordinal::Northwest);
        proof {
            assert forall|i: int, o: Ordinal| 0 <= i < n implies #[trigger] normals[i].has_normal(o)
                == (seed_rows(hi, wi + 1, i % (wi + 1), i / (wi + 1), o) || seed_cols(
                wi,
                yi + 1,
                i % (wi + 1),
                i / (wi + 1),
                o,
            )) by {
                lemma_vertex_coords(wi, hi, i);
            }
        }
        yi = yi + 1;
    }
    let mut ty: usize = 0;
    while ty < h as usize
        invariant
            w == wi,
            h == hi,
            nav == navability@,
            grid_fits(map_size, nav),
            map_size.x == w && map_size.y == h,
            w1 == wi + 1,
            n == (wi + 1) * (hi + 1),
            normals.len() == n,
            ty <= hi,
            forall|i: int, o: Ordinal|
                0 <= i < n ==> #[trigger] normals[i].has_normal(o) == (seed_rows(
                    hi,
                    wi + 1,
                    i % (wi + 1),
                    i / (wi + 1),
                    o,
                ) || seed_cols(wi, hi, i % (wi + 1), i / (wi + 1), o) || from_tiles(
                    wi,
                    hi,
                    nav,
                    0,
                    ty as int,
                    i % (wi + 1),
                    i / (wi + 1),
                    o,
                )),
        decreases hi - ty,
    {
        let mut tx: usize = 0;
        while tx < w as usize
            invariant
                w == wi,
                h == hi,
                nav == navability@,
                grid_fits(map_size, nav),
                map_size.x == w && map_size.y == h,
                w1 == wi + 1,
                n == (wi + 1) * (hi + 1),
                normals.len() == n,
                ty < hi,
                tx <= wi,
                forall|i: int, o: Ordinal|
                    0 <= i < n ==> #[trigger] normals[i].has_normal(o) == (seed_rows(
                        hi,
                        wi + 1,
                        i % (wi + 1),
                        i / (wi + 1),
                        o,
                    ) || seed_cols(wi, hi, i % (wi + 1), i / (wi + 1), o) || from_tiles(
                        wi,
                        hi,
                        nav,
                        tx as int,
                        ty as int,
                        i % (wi + 1),
                        i / (wi + 1),
                        o,
                    )),
            decreases wi - tx,
        {
            proof {
                lemma_tile_index(wi, hi, tx as int, ty as int);
                assert(nav.len() == wi * hi);
                assert((ty as int) * wi + tx < navability.len());
                assert(0 <= (ty as int) * wi <= (ty as int) * wi + tx);
            }
            if navability[ty * (w as usize) + tx] == Navability::Solid {
                proof {
                    lemma_vertex_index(wi, hi, tx as int, ty as int);
                    lemma_vertex_index(wi, hi, tx + 1, ty as int);
                    lemma_vertex_index(wi, hi, tx as int, ty + 1);
                    lemma_vertex_index(wi, hi, tx + 1, ty + 1);
                }
                add_normal(&mut normals, ty * w1 + tx, Ordinal::Southwest);
                add_normal(&mut normals, ty * w1 + tx + 1, Ordinal::Southeast);
                add_normal(&mut normals, (ty + 1) * w1 + tx, Ordinal::Northwest);
                add_normal(&mut normals, (ty + 1) * w1 + tx + 1, Ordinal::Northeast);
            }
            proof {
                assert forall|i: int, o: Ordinal| 0 <= i < n implies #[trigger] normals[i].has_normal(
                    o,
                ) == (seed_rows(hi, wi + 1, i % (wi + 1), i / (wi + 1), o) || seed_cols(
                    wi,
                    hi,
                    i % (wi + 1),
                    i / (wi + 1),
                    o,
                ) || from_tiles(wi, hi, nav, tx + 1, ty as int, i % (wi + 1), i / (wi + 1), o)) by {
                    lemma_vertex_coords(wi, hi, i);
                }
            }
            tx = tx + 1;
        }
        proof {
            assert forall|i: int, o: Ordinal| 0 <= i < n implies #[trigger] normals[i].has_normal(o)
                == (seed_rows(hi, wi + 1, i % (wi + 1), i / (wi + 1), o) || seed_cols(
                wi,
                hi,
                i % (wi + 1),
                i / (wi + 1),
                o,
            ) || from_tiles(wi, hi, nav, 0, ty + 1, i % (wi + 1), i / (wi + 1), o)) by {
                lemma_vertex_coords(wi, hi, i);
            }
        }
        ty = ty + 1;
    }
    proof {
        assert forall|i: int| 0 <= i < normals.len() implies #[trigger] normals[i] == classification(
            wi,
            hi,
            nav,
            i % (wi + 1),
            i / (wi + 1),
        ) by {
            lemma_vertex_coords(wi, hi, i);
            let x = i % (wi + 1);
            let y = i / (wi + 1);
            assert(normals[i].has_normal(Ordinal::Northeast) == tile_blocked(wi, hi, nav, x - 1, y - 1));
            assert(normals[i].has_normal(Ordinal::Northwest) == tile_blocked(wi, hi, nav, x, y - 1));
            assert(normals[i].has_normal(Ordinal::Southeast) == tile_blocked(wi, hi, nav, x - 1, y));
            assert(normals[i].has_normal(Ordinal::Southwest) == tile_blocked(wi, hi, nav, x, y));
            crate::vertex::lemma_from_flags(normals[i]);
        }
    }
    normals
}

/// The position of tile `(tx, ty)` in the row-major tile array.
pub proof fn lemma_tile_index(w: int, h: int, tx: int, ty: int)
    requires
        0 <= tx < w,
        0 <= ty < h,
    ensures
        0 <= ty * w + tx < w * h,
{
    assert(0 <= ty * w + tx < w * h) by (nonlinear_arith)
        requires
            0 <= tx < w,
            0 <= ty < h,
    ;
}

} // verus!
