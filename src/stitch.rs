//! The clearance-offset boundary of the navigable region: its points, one or
//! two per grid vertex, and the edges that join them along grid lines.
use vstd::prelude::*;
use crate::classify::{
    Navability, classification, classify_vertices, grid_fits, lemma_vertex_index, tile_blocked,
};
use glam::UVec2;
use crate::vertex::{Ordinal, VertexNormal};

verus! {

/// An offset point: the grid vertex it belongs to, the quadrant it faces, and
/// whether it lies on the inner side of the boundary. Its position is the
/// vertex position plus the quadrant's unit diagonal times the clearance.
#[derive(Clone, Copy, Debug, PartialEq, Eq, Structural)]
pub struct OffsetPoint {
    pub x: u32,
    pub y: u32,
    pub ordinal: Ordinal,
    pub inner: bool,
}

impl OffsetPoint {
    /// Whether the point opens a run along its vertical line (else it closes one).
    pub open spec fn vert_start(self) -> bool {
        if self.inner { self.ordinal.is_north() } else { !self.ordinal.is_north() }
    }

    /// Whether the point opens a run along its horizontal line (else it closes one).
    pub open spec fn horz_start(self) -> bool {
        if self.inner { self.ordinal.is_east() } else { !self.ordinal.is_east() }
    }
}

/// Whether the vertical offset line on side `east` of grid line `x` runs
/// through tile row `r`: the tile on the far side is blocked and the tile on
/// that side is open.
pub open spec fn on_vert(w: int, h: int, nav: Seq<Navability>, east: bool, x: int, r: int) -> bool {
    if east {
        tile_blocked(w, h, nav, x - 1, r) && !tile_blocked(w, h, nav, x, r)
    } else {
        tile_blocked(w, h, nav, x, r) && !tile_blocked(w, h, nav, x - 1, r)
    }
}

/// Whether the horizontal offset line on side `north` of grid line `y` runs
/// through tile column `c`.
pub open spec fn on_horz(w: int, h: int, nav: Seq<Navability>, north: bool, y: int, c: int) -> bool {
    if north {
        tile_blocked(w, h, nav, c, y - 1) && !tile_blocked(w, h, nav, c, y)
    } else {
        tile_blocked(w, h, nav, c, y) && !tile_blocked(w, h, nav, c, y - 1)
    }
}

/// Whether one of the first `k` points of `em` faces east (or west, for `!east`).
pub open spec fn has_east(em: Seq<(Ordinal, bool)>, k: int, east: bool) -> bool {
    (k > 0 && em[0].0.is_east() == east) || (k > 1 && em[1].0.is_east() == east)
}

/// Whether one of the first `k` points of `em` faces north (or south, for `!north`).
pub open spec fn has_north(em: Seq<(Ordinal, bool)>, k: int, north: bool) -> bool {
    (k > 0 && em[0].0.is_north() == north) || (k > 1 && em[1].0.is_north() == north)
}

/// At a vertex, the offset points are exactly the places where an offset line
/// starts or stops, and a point opens a run exactly when the line goes on past it.
pub proof fn lemma_vertex_runs(w: int, h: int, nav: Seq<Navability>, x: int, y: int)
    ensures
        ({
            let em = classification(w, h, nav, x, y).emitted();
            &&& em.len() <= 2
            &&& em.len() == 2 ==> em[0].0.is_east() != em[1].0.is_east() && em[0].0.is_north()
                != em[1].0.is_north()
            &&& forall|e: bool|
                #![trigger has_east(em, em.len() as int, e)]
                has_east(em, em.len() as int, e) == (on_vert(w, h, nav, e, x, y - 1) != on_vert(
                    w,
                    h,
                    nav,
                    e,
                    x,
                    y,
                ))
            &&& forall|n: bool|
                #![trigger has_north(em, em.len() as int, n)]
                has_north(em, em.len() as int, n) == (on_horz(w, h, nav, n, y, x - 1) != on_horz(
                    w,
                    h,
                    nav,
                    n,
                    y,
                    x,
                ))
            &&& forall|k: int|
                #![trigger em[k]]
                0 <= k < em.len() ==> {
                    let p = OffsetPoint { x: 0, y: 0, ordinal: em[k].0, inner: em[k].1 };
                    &&& p.vert_start() == on_vert(w, h, nav, em[k].0.is_east(), x, y)
                    &&& p.horz_start() == on_horz(w, h, nav, em[k].0.is_north(), y, x)
                }
        }),
{
    let bne = tile_blocked(w, h, nav, x, y);
    let bnw = tile_blocked(w, h, nav, x - 1, y);
    let bse = tile_blocked(w, h, nav, x, y - 1);
    let bsw = tile_blocked(w, h, nav, x - 1, y - 1);
    lemma_flag_runs(bne, bnw, bse, bsw);
}

proof fn lemma_flag_runs(bne: bool, bnw: bool, bse: bool, bsw: bool)
    ensures
        ({
            let em = VertexNormal::from_flags(bsw, bse, bnw, bne).emitted();
            &&& em.len() <= 2
            &&& em.len() == 2 ==> em[0].0.is_east() != em[1].0.is_east() && em[0].0.is_north()
                != em[1].0.is_north()
            &&& has_east(em, em.len() as int, true) == ((bsw && !bse) != (bnw && !bne))
            &&& has_east(em, em.len() as int, false) == ((bse && !bsw) != (bne && !bnw))
            &&& has_north(em, em.len() as int, true) == ((bsw && !bnw) != (bse && !bne))
            &&& has_north(em, em.len() as int, false) == ((bnw && !bsw) != (bne && !bse))
            &&& forall|k: int|
                #![trigger em[k]]
                0 <= k < em.len() ==> {
                    let p = OffsetPoint { x: 0, y: 0, ordinal: em[k].0, inner: em[k].1 };
                    &&& p.vert_start() == (if em[k].0.is_east() {
                        bnw && !bne
                    } else {
                        bne && !bnw
                    })
                    &&& p.horz_start() == (if em[k].0.is_north() {
                        bse && !bne
                    } else {
                        bne && !bse
                    })
                }
        }),
{
}

/// The offset points of vertex `(x, y)`, in the order the vertex emits them.
pub open spec fn vertex_points(w: int, h: int, nav: Seq<Navability>, x: int, y: int) -> Seq<
    OffsetPoint,
> {
    classification(w, h, nav, x, y).emitted().map_values(
        |e: (Ordinal, bool)| OffsetPoint { x: x as u32, y: y as u32, ordinal: e.0, inner: e.1 },
    )
}

/// The offset points of the first `i` vertices in row-major order.
pub open spec fn points_before(w: int, h: int, nav: Seq<Navability>, i: int) -> Seq<OffsetPoint>
    decreases i,
{
    if i <= 0 {
        seq![]
    } else {
        points_before(w, h, nav, i - 1) + vertex_points(w, h, nav, (i - 1) % (w + 1), (i - 1) / (w
            + 1))
    }
}

/// The offset points of the whole map, vertex by vertex in row-major order.
pub open spec fn offset_points(w: int, h: int, nav: Seq<Navability>) -> Seq<OffsetPoint> {
    points_before(w, h, nav, (w + 1) * (h + 1))
}

/// The index of the last point of `pts` on the vertical line of side `east`
/// of grid line `x`; -1 if there is none.
pub open spec fn last_on_vert(pts: Seq<OffsetPoint>, x: int, east: bool) -> int
    decreases pts.len(),
{
    if pts.len() == 0 {
        -1
    } else if pts.last().x == x && pts.last().ordinal.is_east() == east {
        pts.len() - 1
    } else {
        last_on_vert(pts.drop_last(), x, east)
    }
}

/// The index of the last point of `pts` on the horizontal line of side
/// `north` of grid line `y`; -1 if there is none.
pub open spec fn last_on_horz(pts: Seq<OffsetPoint>, y: int, north: bool) -> int
    decreases pts.len(),
{
    if pts.len() == 0 {
        -1
    } else if pts.last().y == y && pts.last().ordinal.is_north() == north {
        pts.len() - 1
    } else {
        last_on_horz(pts.drop_last(), y, north)
    }
}

/// The boundary edges: each point that closes a run along a line is joined to
/// the last point before it on that line, the vertical edge first.
pub open spec fn stitched_edges(pts: Seq<OffsetPoint>) -> Seq<(usize, usize)>
    decreases pts.len(),
{
    if pts.len() == 0 {
        seq![]
    } else {
        let j = pts.len() - 1;
        let p = pts[j];
        let prev = pts.drop_last();
        let vert = if p.vert_start() {
            seq![]
        } else {
            seq![(last_on_vert(prev, p.x as int, p.ordinal.is_east()) as usize, j as usize)]
        };
        let horz = if p.horz_start() {
            seq![]
        } else {
            seq![(last_on_horz(prev, p.y as int, p.ordinal.is_north()) as usize, j as usize)]
        };
        stitched_edges(prev) + vert + horz
    }
}

proof fn lemma_push_point(pts: Seq<OffsetPoint>, p: OffsetPoint)
    ensures
        forall|x: int, e: bool|
            #[trigger] last_on_vert(pts.push(p), x, e) == if p.x == x && p.ordinal.is_east() == e {
                pts.len() as int
            } else {
                last_on_vert(pts, x, e)
            },
        forall|y: int, n: bool|
            #[trigger] last_on_horz(pts.push(p), y, n) == if p.y == y && p.ordinal.is_north() == n {
                pts.len() as int
            } else {
                last_on_horz(pts, y, n)
            },
        stitched_edges(pts.push(p)) == stitched_edges(pts) + (if p.vert_start() {
            seq![]
        } else {
            seq![(last_on_vert(pts, p.x as int, p.ordinal.is_east()) as usize, pts.len() as usize)]
        }) + (if p.horz_start() {
            seq![]
        } else {
            seq![(last_on_horz(pts, p.y as int, p.ordinal.is_north()) as usize, pts.len() as usize)]
        }),
{
    assert(pts.push(p).drop_last() =~= pts);
}

/// Every edge joins an earlier point to a later one, both among the first `n`.
pub open spec fn edges_within(edges: Seq<(usize, usize)>, n: int) -> bool {
    forall|k: int| 0 <= k < edges.len() ==> #[trigger] edges[k].0 < edges[k].1 && edges[k].1 < n
}

/// The position of side `east` of grid line `x` among the vertical lines.
pub open spec fn vert_key(x: int, east: bool) -> int {
    2 * x + if east { 1int } else { 0 }
}

/// The position of side `north` among the two horizontal lines of a row.
pub open spec fn horz_key(north: bool) -> int {
    if north { 1int } else { 0 }
}

/// The offset boundary of the navigable region of a map.
pub struct OffsetBoundary {
    /// The offset points, vertex by vertex in row-major order.
    pub points: Vec<OffsetPoint>,
    /// Pairs of indices into `points`, each an edge that the boundary must keep.
    pub edges: Vec<(usize, usize)>,
}

fn push_point(
    points: &mut Vec<OffsetPoint>,
    edges: &mut Vec<(usize, usize)>,
    vert: &mut Vec<Option<usize>>,
    horz: &mut Vec<Option<usize>>,
    p: OffsetPoint,
    vk: usize,
    hk: usize,
)
    requires
        vk < old(vert).len(),
        hk < old(horz).len(),
        !p.vert_start() ==> old(vert)[vk as int] == Some(
            last_on_vert(old(points)@, p.x as int, p.ordinal.is_east()) as usize,
        ),
        !p.horz_start() ==> old(horz)[hk as int] == Some(
            last_on_horz(old(points)@, p.y as int, p.ordinal.is_north()) as usize,
        ),
        forall|k: int| 0 <= k < old(vert).len() ==> (#[trigger] old(vert)[k] matches Some(s) ==> s < old(points).len()),
        forall|k: int| 0 <= k < old(horz).len() ==> (#[trigger] old(horz)[k] matches Some(s) ==> s < old(points).len()),
        old(edges)@ == stitched_edges(old(points)@),
        edges_within(old(edges)@, old(points).len() as int),
    ensures
        final(points)@ == old(points)@.push(p),
        final(edges)@ == stitched_edges(final(points)@),
        edges_within(final(edges)@, final(points).len() as int),
        final(vert)@ == old(vert)@.update(
            vk as int,
            if p.vert_start() { Some(old(points).len()) } else { None },
        ),
        final(horz)@ == old(horz)@.update(
            hk as int,
            if p.horz_start() { Some(old(points).len()) } else { None },
        ),
        forall|k: int| 0 <= k < final(vert).len() ==> (#[trigger] final(vert)[k] matches Some(s) ==> s < final(points).len()),
        forall|k: int| 0 <= k < final(horz).len() ==> (#[trigger] final(horz)[k] matches Some(s) ==> s < final(points).len()),
{
    proof {
        lemma_push_point(points@, p);
    }
    let ghost edges0 = edges@;
    let index = points.len();
    points.push(p);
    let (north, east) = p.ordinal.parts();
    let (vert_start, horz_start) = if p.inner {
        (north, east)
    } else {
        (!north, !east)
    };
    let ghost before_vert = edges@;
    if vert_start {
        vert.set(vk, Some(index));
    } else {
        let start = vert[vk].unwrap();
        assert(old(vert)[vk as int] matches Some(s) ==> s < index);
        assert(start < index);
        edges.push((start, index));
        vert.set(vk, None);
    }
    let ghost before_horz = edges@;
    assert(forall|k: int|
        edges0.len() <= k < before_horz.len() ==> #[trigger] before_horz[k].0 < before_horz[k].1
            && before_horz[k].1 == index);
    if horz_start {
        horz.set(hk, Some(index));
    } else {
        let start = horz[hk].unwrap();
        assert(old(horz)[hk as int] matches Some(s) ==> s < index);
        assert(start < index);
        edges.push((start, index));
        horz.set(hk, None);
    }
    proof {
        assert forall|k: int| 0 <= k < edges@.len() implies #[trigger] edges@[k].0 < edges@[k].1
            && edges@[k].1 < points.len() by {
            if k < before_horz.len() {
                assert(edges@[k] == before_horz[k]);
            }
            if k < edges0.len() {
                assert(edges@[k] == edges0[k]);
                assert(edges0[k].0 < edges0[k].1 && edges0[k].1 < index);
            }
        }
    }
}

/// The stitching state before vertex `(x, y)`: each vertical line holds its
/// open run's start, as does each horizontal line of row `y`.
pub open spec fn pending_ok(
    w: int,
    h: int,
    nav: Seq<Navability>,
    pts: Seq<OffsetPoint>,
    vert: Seq<Option<usize>>,
    horz: Seq<Option<usize>>,
    x: int,
    y: int,
) -> bool {
    &&& vert.len() == 2 * (w + 1)
    &&& horz.len() == 2
    &&& forall|cx: int, e: bool|
        0 <= cx <= w ==> #[trigger] vert[vert_key(cx, e)] == if on_vert(
            w,
            h,
            nav,
            e,
            cx,
            if cx < x { y } else { y - 1 },
        ) {
            Some(last_on_vert(pts, cx, e) as usize)
        } else {
            None
        }
    &&& forall|n: bool|
        #[trigger] horz[horz_key(n)] == if on_horz(w, h, nav, n, y, x - 1) {
            Some(last_on_horz(pts, y, n) as usize)
        } else {
            None
        }
    &&& forall|k: int| 0 <= k < vert.len() ==> (#[trigger] vert[k] matches Some(s) ==> s < pts.len())
    &&& forall|k: int| 0 <= k < horz.len() ==> (#[trigger] horz[k] matches Some(s) ==> s < pts.len())
}

/// Adds the offset points of vertex `(x, y)` and the edges that they close.
#[verifier::rlimit(50)]
fn process_vertex(
    points: &mut Vec<OffsetPoint>,
    edges: &mut Vec<(usize, usize)>,
    vert: &mut Vec<Option<usize>>,
    horz: &mut Vec<Option<usize>>,
    x: usize,
    y: usize,
    v: VertexNormal,
    Ghost(wi): Ghost<int>,
    Ghost(hi): Ghost<int>,
    Ghost(nav): Ghost<Seq<Navability>>,
)
    requires
        0 <= x <= wi,
        0 <= y <= hi,
        wi <= u32::MAX,
        hi <= u32::MAX,
        2 * (wi + 1) <= usize::MAX,
        v == classification(wi, hi, nav, x as int, y as int),
        old(edges)@ == stitched_edges(old(points)@),
        edges_within(old(edges)@, old(points).len() as int),
        pending_ok(wi, hi, nav, old(points)@, old(vert)@, old(horz)@, x as int, y as int),
    ensures
        final(points)@ == old(points)@ + vertex_points(wi, hi, nav, x as int, y as int),
        final(edges)@ == stitched_edges(final(points)@),
        edges_within(final(edges)@, final(points).len() as int),
        pending_ok(wi, hi, nav, final(points)@, final(vert)@, final(horz)@, x + 1, y as int),
{
    proof {
        lemma_vertex_runs(wi, hi, nav, x as int, y as int);
    }
    let em = v.normals();
    let ghost pts0 = points@;
    let ghost vert0 = vert@;
    let ghost horz0 = horz@;
    let ghost ems = em@;
    assert(ems == classification(wi, hi, nav, x as int, y as int).emitted());
    if em.len() > 0 {
        let p = OffsetPoint { x: x as u32, y: y as u32, ordinal: em[0].0, inner: em[0].1 };
        let (north, east) = p.ordinal.parts();
        let vk: usize = 2 * x + if east { 1 } else { 0 };
        let hk: usize = if north { 1 } else { 0 };
        assert(vk == vert_key(x as int, east));
        assert(hk == horz_key(north));
        proof {
            assert(ems[0] == (p.ordinal, p.inner));
            assert(has_east(ems, ems.len() as int, east));
            assert(has_north(ems, ems.len() as int, north));
            assert(vert@[vert_key(x as int, east)] == if on_vert(wi, hi, nav, east, x as int, y - 1) {
                Some(last_on_vert(pts0, x as int, east) as usize)
            } else {
                None
            });
            assert(horz@[horz_key(north)] == if on_horz(wi, hi, nav, north, y as int, x - 1) {
                Some(last_on_horz(pts0, y as int, north) as usize)
            } else {
                None
            });
        }
        push_point(points, edges, vert, horz, p, vk, hk);
    }
    let ghost pts1 = points@;
    let ghost vert1 = vert@;
    let ghost horz1 = horz@;
    if em.len() > 1 {
        let p = OffsetPoint { x: x as u32, y: y as u32, ordinal: em[1].0, inner: em[1].1 };
        let (north, east) = p.ordinal.parts();
        let vk: usize = 2 * x + if east { 1 } else { 0 };
        let hk: usize = if north { 1 } else { 0 };
        assert(vk == vert_key(x as int, east));
        assert(hk == horz_key(north));
        proof {
            lemma_push_point(pts0, pts1.last());
            assert(ems[1] == (p.ordinal, p.inner));
            assert(has_east(ems, ems.len() as int, east));
            assert(has_north(ems, ems.len() as int, north));
            assert(vert0[vert_key(x as int, east)] == if on_vert(wi, hi, nav, east, x as int, y - 1) {
                Some(last_on_vert(pts0, x as int, east) as usize)
            } else {
                None
            });
            assert(horz0[horz_key(north)] == if on_horz(wi, hi, nav, north, y as int, x - 1) {
                Some(last_on_horz(pts0, y as int, north) as usize)
            } else {
                None
            });
        }
        push_point(points, edges, vert, horz, p, vk, hk);
    }
    proof {
        let xx = x as int;
        let yy = y as int;
        let p0 = OffsetPoint { x: x as u32, y: y as u32, ordinal: ems[0].0, inner: ems[0].1 };
        let p1 = OffsetPoint { x: x as u32, y: y as u32, ordinal: ems[1].0, inner: ems[1].1 };
        let pf = points@;
        if ems.len() > 0 {
            lemma_push_point(pts0, p0);
        }
        if ems.len() > 1 {
            lemma_push_point(pts1, p1);
        }
        assert(vertex_points(wi, hi, nav, xx, yy) =~= if ems.len() == 0 {
            seq![]
        } else if ems.len() == 1 {
            seq![p0]
        } else {
            seq![p0, p1]
        });
        assert(pf =~= pts0 + vertex_points(wi, hi, nav, xx, yy));
        assert forall|cx: int, e: bool| 0 <= cx <= wi implies #[trigger] vert@[vert_key(cx, e)]
            == if on_vert(wi, hi, nav, e, cx, if cx < xx + 1 { yy } else { yy - 1 }) {
            Some(last_on_vert(pf, cx, e) as usize)
        } else {
            None
        } by {
            assert(vert0[vert_key(cx, e)] == if on_vert(
                wi,
                hi,
                nav,
                e,
                cx,
                if cx < xx { yy } else { yy - 1 },
            ) {
                Some(last_on_vert(pts0, cx, e) as usize)
            } else {
                None
            });
            assert(has_east(ems, ems.len() as int, e) == (on_vert(wi, hi, nav, e, xx, yy - 1)
                != on_vert(wi, hi, nav, e, xx, yy)));
            if ems.len() > 0 {
                assert(p0.vert_start() == on_vert(wi, hi, nav, ems[0].0.is_east(), xx, yy));
            }
            if ems.len() > 1 {
                assert(p1.vert_start() == on_vert(wi, hi, nav, ems[1].0.is_east(), xx, yy));
            }
        }
        assert forall|n: bool| #[trigger] horz@[horz_key(n)] == if on_horz(wi, hi, nav, n, yy, xx) {
            Some(last_on_horz(pf, yy, n) as usize)
        } else {
            None
        } by {
            assert(horz0[horz_key(n)] == if on_horz(wi, hi, nav, n, yy, xx - 1) {
                Some(last_on_horz(pts0, yy, n) as usize)
            } else {
                None
            });
            assert(has_north(ems, ems.len() as int, n) == (on_horz(wi, hi, nav, n, yy, xx - 1)
                != on_horz(wi, hi, nav, n, yy, xx)));
            if ems.len() > 0 {
                assert(p0.horz_start() == on_horz(wi, hi, nav, ems[0].0.is_north(), yy, xx));
            }
            if ems.len() > 1 {
                assert(p1.horz_start() == on_horz(wi, hi, nav, ems[1].0.is_north(), yy, xx));
            }
        }
    }
}

/// Whether the last point of `pts` on the vertical line of side `east` of
/// grid line `x` opens a run, which is then still open.
pub open spec fn opened_vert(pts: Seq<OffsetPoint>, x: int, east: bool) -> bool {
    let l = last_on_vert(pts, x, east);
    0 <= l && pts[l].vert_start()
}

/// Whether the last point of `pts` on the horizontal line of side `north` of
/// grid line `y` opens a run, which is then still open.
pub open spec fn opened_horz(pts: Seq<OffsetPoint>, y: int, north: bool) -> bool {
    let l = last_on_horz(pts, y, north);
    0 <= l && pts[l].horz_start()
}

/// The runs left open before vertex `(x, y)` are those whose offset line
/// goes on past the vertices visited so far.
pub open spec fn runs_ok(
    w: int,
    h: int,
    nav: Seq<Navability>,
    pts: Seq<OffsetPoint>,
    x: int,
    y: int,
) -> bool {
    &&& forall|k: int| 0 <= k < pts.len() ==> #[trigger] pts[k].y <= y
    &&& forall|cx: int, e: bool|
        0 <= cx <= w ==> #[trigger] opened_vert(pts, cx, e) == on_vert(
            w,
            h,
            nav,
            e,
            cx,
            if cx < x { y } else { y - 1 },
        )
    &&& forall|yy: int, n: bool| 0 <= yy < y ==> !#[trigger] opened_horz(pts, yy, n)
    &&& forall|n: bool| #[trigger] opened_horz(pts, y, n) == on_horz(w, h, nav, n, y, x - 1)
}

proof fn lemma_last_on_horz_in_row(pts: Seq<OffsetPoint>, y: int, n: bool)
    ensures
        -1 <= last_on_horz(pts, y, n) < pts.len(),
        last_on_horz(pts, y, n) >= 0 ==> pts[last_on_horz(pts, y, n)].y == y,
    decreases pts.len(),
{
    if pts.len() > 0 {
        lemma_last_on_horz_in_row(pts.drop_last(), y, n);
    }
}

proof fn lemma_last_on_vert_bound(pts: Seq<OffsetPoint>, x: int, e: bool)
    ensures
        -1 <= last_on_vert(pts, x, e) < pts.len(),
    decreases pts.len(),
{
    if pts.len() > 0 {
        lemma_last_on_vert_bound(pts.drop_last(), x, e);
    }
}

proof fn lemma_runs_push(
    w: int,
    h: int,
    nav: Seq<Navability>,
    pts: Seq<OffsetPoint>,
    p: OffsetPoint,
    x: int,
    y: int,
)
    requires
        p.x == x,
        p.y == y,
        0 <= y,
        forall|k: int| 0 <= k < pts.len() ==> #[trigger] pts[k].y <= y,
    ensures
        forall|k: int| 0 <= k < pts.push(p).len() ==> #[trigger] pts.push(p)[k].y <= y,
        forall|cx: int, e: bool|
            #[trigger] opened_vert(pts.push(p), cx, e) == if cx == x && e == p.ordinal.is_east() {
                p.vert_start()
            } else {
                opened_vert(pts, cx, e)
            },
        forall|yy: int, n: bool|
            #[trigger] opened_horz(pts.push(p), yy, n) == if yy == y && n == p.ordinal.is_north() {
                p.horz_start()
            } else {
                opened_horz(pts, yy, n)
            },
{
    lemma_push_point(pts, p);
    assert forall|k: int| 0 <= k < pts.push(p).len() implies #[trigger] pts.push(p)[k].y <= y by {
        if k < pts.len() {
            assert(pts.push(p)[k] == pts[k]);
        }
    }
    assert forall|cx: int, e: bool| #[trigger] opened_vert(pts.push(p), cx, e) == if cx == x && e
        == p.ordinal.is_east() {
        p.vert_start()
    } else {
        opened_vert(pts, cx, e)
    } by {
        lemma_last_on_vert_bound(pts, cx, e);
        let l = last_on_vert(pts, cx, e);
        if l >= 0 {
            assert(pts.push(p)[l] == pts[l]);
        }
    }
    assert forall|yy: int, n: bool| #[trigger] opened_horz(pts.push(p), yy, n) == if yy == y && n
        == p.ordinal.is_north() {
        p.horz_start()
    } else {
        opened_horz(pts, yy, n)
    } by {
        lemma_last_on_horz_in_row(pts, yy, n);
        let l = last_on_horz(pts, yy, n);
        if l >= 0 {
            assert(pts.push(p)[l] == pts[l]);
        }
    }
}

/// Visiting vertex `(x, y)` keeps the open runs in step with the offset lines.
#[verifier::rlimit(50)]
proof fn lemma_runs_step(
    w: int,
    h: int,
    nav: Seq<Navability>,
    pts: Seq<OffsetPoint>,
    x: int,
    y: int,
)
    requires
        0 <= x <= w <= u32::MAX,
        0 <= y <= h <= u32::MAX,
        runs_ok(w, h, nav, pts, x, y),
    ensures
        runs_ok(w, h, nav, pts + vertex_points(w, h, nav, x, y), x + 1, y),
{
    lemma_vertex_runs(w, h, nav, x, y);
    let em = classification(w, h, nav, x, y).emitted();
    let vp = vertex_points(w, h, nav, x, y);
    let p0 = OffsetPoint { x: x as u32, y: y as u32, ordinal: em[0].0, inner: em[0].1 };
    let p1 = OffsetPoint { x: x as u32, y: y as u32, ordinal: em[1].0, inner: em[1].1 };
    let pts1 = if em.len() > 0 { pts.push(p0) } else { pts };
    let pts2 = if em.len() > 1 { pts1.push(p1) } else { pts1 };
    if em.len() > 0 {
        lemma_runs_push(w, h, nav, pts, p0, x, y);
    }
    if em.len() > 1 {
        lemma_runs_push(w, h, nav, pts1, p1, x, y);
    }
    assert(pts + vp =~= pts2);
    assert forall|cx: int, e: bool| 0 <= cx <= w implies #[trigger] opened_vert(pts2, cx, e)
        == on_vert(w, h, nav, e, cx, if cx < x + 1 { y } else { y - 1 }) by {
        assert(opened_vert(pts, cx, e) == on_vert(
            w,
            h,
            nav,
            e,
            cx,
            if cx < x { y } else { y - 1 },
        ));
        assert(has_east(em, em.len() as int, e) == (on_vert(w, h, nav, e, x, y - 1) != on_vert(
            w,
            h,
            nav,
            e,
            x,
            y,
        )));
        if em.len() > 0 {
            assert(p0.vert_start() == on_vert(w, h, nav, em[0].0.is_east(), x, y));
        }
        if em.len() > 1 {
            assert(p1.vert_start() == on_vert(w, h, nav, em[1].0.is_east(), x, y));
        }
    }
    assert forall|n: bool| #[trigger] opened_horz(pts2, y, n) == on_horz(w, h, nav, n, y, x) by {
        assert(opened_horz(pts, y, n) == on_horz(w, h, nav, n, y, x - 1));
        assert(has_north(em, em.len() as int, n) == (on_horz(w, h, nav, n, y, x - 1) != on_horz(
            w,
            h,
            nav,
            n,
            y,
            x,
        )));
        if em.len() > 0 {
            assert(p0.horz_start() == on_horz(w, h, nav, em[0].0.is_north(), y, x));
        }
        if em.len() > 1 {
            assert(p1.horz_start() == on_horz(w, h, nav, em[1].0.is_north(), y, x));
        }
    }
    assert forall|yy: int, n: bool| 0 <= yy < y implies !#[trigger] opened_horz(pts2, yy, n) by {
        assert(!opened_horz(pts, yy, n));
    }
}

/// Leaving row `y` after its last vertex closes every run of the row.
proof fn lemma_runs_next_row(w: int, h: int, nav: Seq<Navability>, pts: Seq<OffsetPoint>, y: int)
    requires
        0 <= w,
        0 <= y <= h,
        runs_ok(w, h, nav, pts, w + 1, y),
    ensures
        runs_ok(w, h, nav, pts, 0, y + 1),
{
    assert forall|n: bool| #[trigger] opened_horz(pts, y + 1, n) == on_horz(w, h, nav, n, y + 1, -1) by {
        lemma_last_on_horz_in_row(pts, y + 1, n);
    }
    assert forall|yy: int, n: bool| 0 <= yy < y + 1 implies !#[trigger] opened_horz(pts, yy, n) by {
        if yy == y {
            assert(!on_horz(w, h, nav, n, y, w));
        }
    }
}

/// Builds the offset boundary of a map: the offset points of every vertex,
/// and the edges that join each closing point to the opening point of its run.
/// Every closing point finds its run open, and every run that opens is closed.
pub fn offset_boundary(map_size: UVec2, navability: &Vec<Navability>) -> (r: OffsetBoundary)
    requires
        grid_fits(map_size, navability@),
    ensures
        r.points@ == offset_points(map_size.x as int, map_size.y as int, navability@),
        r.edges@ == stitched_edges(r.points@),
        edges_within(r.edges@, r.points.len() as int),
        forall|x: int, east: bool|
            0 <= x <= map_size.x ==> !#[trigger] opened_vert(r.points@, x, east),
        forall|y: int, north: bool|
            0 <= y <= map_size.y ==> !#[trigger] opened_horz(r.points@, y, north),
{
    let ghost wi = map_size.x as int;
    let ghost hi = map_size.y as int;
    let ghost nav = navability@;
    let normals = classify_vertices(map_size, navability);
    proof {
        assert(wi + 1 <= (wi + 1) * (hi + 1) && hi + 1 <= (wi + 1) * (hi + 1)) by (nonlinear_arith)
            requires
                0 <= wi,
                0 <= hi,
        ;
    }
    let w1: usize = map_size.x as usize + 1;
    let h1: usize = map_size.y as usize + 1;
    assert(2 * w1 <= usize::MAX);
    let mut points: Vec<OffsetPoint> = Vec::new();
    let mut edges: Vec<(usize, usize)> = Vec::new();
    let mut vert: Vec<Option<usize>> = Vec::new();
    while vert.len() < 2 * w1
        invariant
            w1 == wi + 1,
            2 * w1 <= usize::MAX,
            vert.len() <= 2 * w1,
            forall|k: int| 0 <= k < vert.len() ==> #[trigger] vert[k] == None::<usize>,
        decreases 2 * w1 - vert.len(),
    {
        vert.push(None);
    }
    assert(2 * w1 <= usize::MAX);
    let mut horz: Vec<Option<usize>> = vec![None, None];
    assert(pending_ok(wi, hi, nav, points@, vert@, horz@, 0, 0));
    assert(runs_ok(wi, hi, nav, points@, 0, 0));
    let mut y: usize = 0;
    while y < h1
        invariant
            w1 == wi + 1,
            h1 == hi + 1,
            2 * w1 <= usize::MAX,
            wi == map_size.x,
            hi == map_size.y,
            nav == navability@,
            grid_fits(map_size, nav),
            normals.len() == (wi + 1) * (hi + 1),
            forall|i: int|
                0 <= i < normals.len() ==> #[trigger] normals[i] == classification(
                    wi,
                    hi,
                    nav,
                    i % (wi + 1),
                    i / (wi + 1),
                ),
            y <= h1,
            points@ == points_before(wi, hi, nav, y * (wi + 1)),
            edges@ == stitched_edges(points@),
            edges_within(edges@, points.len() as int),
            pending_ok(wi, hi, nav, points@, vert@, horz@, 0, y as int),
            runs_ok(wi, hi, nav, points@, 0, y as int),
        decreases h1 - y,
    {
        let mut x: usize = 0;
        while x < w1
            invariant
                w1 == wi + 1,
                h1 == hi + 1,
                2 * w1 <= usize::MAX,
                wi == map_size.x,
                hi == map_size.y,
                nav == navability@,
                grid_fits(map_size, nav),
                normals.len() == (wi + 1) * (hi + 1),
                forall|i: int|
                    0 <= i < normals.len() ==> #[trigger] normals[i] == classification(
                        wi,
                        hi,
                        nav,
                        i % (wi + 1),
                        i / (wi + 1),
                    ),
                y < h1,
                x <= w1,
                points@ == points_before(wi, hi, nav, y * (wi + 1) + x),
                edges@ == stitched_edges(points@),
                edges_within(edges@, points.len() as int),
                pending_ok(wi, hi, nav, points@, vert@, horz@, x as int, y as int),
                runs_ok(wi, hi, nav, points@, x as int, y as int),
            decreases w1 - x,
        {
            proof {
                lemma_vertex_index(wi, hi, x as int, y as int);
            }
            let i: usize = y * w1 + x;
            proof {
                lemma_runs_step(wi, hi, nav, points@, x as int, y as int);
            }
            process_vertex(
                &mut points,
                &mut edges,
                &mut vert,
                &mut horz,
                x,
                y,
                normals[i],
                Ghost(wi),
                Ghost(hi),
                Ghost(nav),
            );
            assert(points_before(wi, hi, nav, y * (wi + 1) + x + 1) == points_before(
                wi,
                hi,
                nav,
                y * (wi + 1) + x,
            ) + vertex_points(wi, hi, nav, x as int, y as int));
            x = x + 1;
        }
        proof {
            let yy = y as int;
            lemma_runs_next_row(wi, hi, nav, points@, yy);
            assert((yy + 1) * (wi + 1) == yy * (wi + 1) + (wi + 1)) by (nonlinear_arith);
            assert forall|cx: int, e: bool| 0 <= cx <= wi implies #[trigger] vert@[vert_key(cx, e)]
                == if on_vert(wi, hi, nav, e, cx, if cx < 0 { yy + 1 } else { yy }) {
                Some(last_on_vert(points@, cx, e) as usize)
            } else {
                None
            } by {}
            assert forall|n: bool| #[trigger] horz@[horz_key(n)] == if on_horz(wi, hi, nav, n, yy + 1, -1) {
                Some(last_on_horz(points@, yy + 1, n) as usize)
            } else {
                None
            } by {
                assert(!on_horz(wi, hi, nav, n, yy, wi));
            }
        }
        y = y + 1;
    }
    proof {
        assert((hi + 1) * (wi + 1) == (wi + 1) * (hi + 1)) by (nonlinear_arith);
    }
    OffsetBoundary { points, edges }
}

/// Whether every tile of the grid is navigable.
pub open spec fn all_navable(nav: Seq<Navability>) -> bool {
    forall|i: int| 0 <= i < nav.len() ==> #[trigger] nav[i] == Navability::Navable
}

/// The inner offset point at corner `(x, y)` of the map, facing into it.
pub open spec fn corner_point(w: int, h: int, x: int, y: int) -> OffsetPoint {
    OffsetPoint {
        x: x as u32,
        y: y as u32,
        ordinal: Ordinal::from_parts(y == 0, x == 0),
        inner: true,
    }
}

/// The offset points of the corner vertices among the first `i` vertices of
/// an open map, in order.
pub open spec fn corners_before(w: int, h: int, i: int) -> Seq<OffsetPoint> {
    (if i > 0 { seq![corner_point(w, h, 0, 0)] } else { seq![] }) + (if i > w {
        seq![corner_point(w, h, w, 0)]
    } else {
        seq![]
    }) + (if i > h * (w + 1) {
        seq![corner_point(w, h, 0, h)]
    } else {
        seq![]
    }) + (if i > h * (w + 1) + w {
        seq![corner_point(w, h, w, h)]
    } else {
        seq![]
    })
}

proof fn lemma_open_vertex(w: int, h: int, nav: Seq<Navability>, x: int, y: int)
    requires
        1 <= w,
        1 <= h,
        nav.len() == w * h,
        all_navable(nav),
        0 <= x <= w,
        0 <= y <= h,
    ensures
        vertex_points(w, h, nav, x, y) == if (x == 0 || x == w) && (y == 0 || y == h) {
            seq![corner_point(w, h, x, y)]
        } else {
            seq![]
        },
{
    assert forall|tx: int, ty: int| 0 <= tx < w && 0 <= ty < h implies #[trigger] tile_blocked(
        w,
        h,
        nav,
        tx,
        ty,
    ) == false by {
        crate::classify::lemma_tile_index(w, h, tx, ty);
    }
    assert(tile_blocked(w, h, nav, x - 1, y - 1) == (x == 0 || y == 0));
    assert(tile_blocked(w, h, nav, x, y - 1) == (x == w || y == 0));
    assert(tile_blocked(w, h, nav, x - 1, y) == (x == 0 || y == h));
    assert(tile_blocked(w, h, nav, x, y) == (x == w || y == h));
    assert(vertex_points(w, h, nav, x, y) =~= if (x == 0 || x == w) && (y == 0 || y == h) {
        seq![corner_point(w, h, x, y)]
    } else {
        seq![]
    });
}

proof fn lemma_open_points_before(w: int, h: int, nav: Seq<Navability>, i: int)
    requires
        1 <= w <= u32::MAX,
        1 <= h <= u32::MAX,
        nav.len() == w * h,
        all_navable(nav),
        0 <= i <= (w + 1) * (h + 1),
    ensures
        points_before(w, h, nav, i) == corners_before(w, h, i),
    decreases i,
{
    if i == 0 {
        assert(corners_before(w, h, 0) =~= seq![]);
    } else {
        lemma_open_points_before(w, h, nav, i - 1);
        crate::classify::lemma_vertex_coords(w, h, i - 1);
        let x = (i - 1) % (w + 1);
        let y = (i - 1) / (w + 1);
        lemma_open_vertex(w, h, nav, x, y);
        crate::classify::lemma_vertex_index(w, h, w, 0);
        crate::classify::lemma_vertex_index(w, h, 0, h);
        crate::classify::lemma_vertex_index(w, h, w, h);
        assert(h * (w + 1) >= w + 1) by (nonlinear_arith)
            requires
                1 <= h,
                1 <= w,
        ;
        assert(y == 0 ==> i - 1 == x);
        assert(y == h ==> i - 1 == h * (w + 1) + x);
        assert(0 < y < h ==> w < i - 1 < h * (w + 1)) by (nonlinear_arith)
            requires
                i - 1 == y * (w + 1) + x,
                0 <= x <= w,
                1 <= w,
        ;
        assert(points_before(w, h, nav, i) =~= corners_before(w, h, i));
    }
}

/// On a map with no solid tile the offset boundary is the map's rectangle: one
/// inner point at each corner, facing into the map, joined along the four sides.
pub proof fn lemma_open_map_boundary(w: int, h: int, nav: Seq<Navability>)
    requires
        1 <= w <= u32::MAX,
        1 <= h <= u32::MAX,
        nav.len() == w * h,
        all_navable(nav),
    ensures
        offset_points(w, h, nav) == seq![
            corner_point(w, h, 0, 0),
            corner_point(w, h, w, 0),
            corner_point(w, h, 0, h),
            corner_point(w, h, w, h),
        ],
        stitched_edges(offset_points(w, h, nav)) == seq![
            (0usize, 1usize),
            (0usize, 2usize),
            (1usize, 3usize),
            (2usize, 3usize),
        ],
{
    lemma_open_points_before(w, h, nav, (w + 1) * (h + 1));
    assert((w + 1) * (h + 1) > h * (w + 1) + w) by (nonlinear_arith);
    let c0 = corner_point(w, h, 0, 0);
    let c1 = corner_point(w, h, w, 0);
    let c2 = corner_point(w, h, 0, h);
    let c3 = corner_point(w, h, w, h);
    let pts = seq![c0, c1, c2, c3];
    assert(offset_points(w, h, nav) =~= pts);
    let p1 = seq![c0];
    let p2 = seq![c0, c1];
    let p3 = seq![c0, c1, c2];
    assert(pts.drop_last() =~= p3);
    assert(p3.drop_last() =~= p2);
    assert(p2.drop_last() =~= p1);
    assert(p1.drop_last() =~= Seq::<OffsetPoint>::empty());
    assert(stitched_edges(Seq::<OffsetPoint>::empty()) =~= seq![]);
    assert(last_on_vert(Seq::<OffsetPoint>::empty(), w, false) == -1);
    assert(stitched_edges(p1) =~= seq![]);
    assert(last_on_horz(p1, 0, true) == 0);
    assert(stitched_edges(p2) =~= seq![(0usize, 1usize)]);
    assert(last_on_vert(p1, 0, true) == 0);
    assert(last_on_vert(p2, 0, true) == 0);
    assert(stitched_edges(p3) =~= seq![(0usize, 1usize), (0usize, 2usize)]);
    assert(last_on_vert(p1, w, false) == -1);
    assert(last_on_vert(p2, w, false) == 1);
    assert(last_on_vert(p3, w, false) == 1);
    assert(last_on_horz(p3, h, false) == 2);
    assert(stitched_edges(pts) =~= seq![
        (0usize, 1usize),
        (0usize, 2usize),
        (1usize, 3usize),
        (2usize, 3usize),
    ]);
}

/// Around a solid tile whose eight neighbours are open, each of the tile's
/// four corners emits one outer offset point, facing away from the tile
/// along the corner's diagonal.
pub proof fn lemma_isolated_tile_corners(w: int, h: int, nav: Seq<Navability>, tx: int, ty: int)
    requires
        tile_blocked(w, h, nav, tx, ty),
        forall|dx: int, dy: int|
            -1 <= dx <= 1 && -1 <= dy <= 1 && (dx != 0 || dy != 0) ==> !#[trigger] tile_blocked(
                w,
                h,
                nav,
                tx + dx,
                ty + dy,
            ),
    ensures
        vertex_points(w, h, nav, tx, ty) == seq![
            OffsetPoint { x: tx as u32, y: ty as u32, ordinal: Ordinal::Southwest, inner: false },
        ],
        vertex_points(w, h, nav, tx + 1, ty) == seq![
            OffsetPoint { x: (tx + 1) as u32, y: ty as u32, ordinal: Ordinal::Southeast, inner: false },
        ],
        vertex_points(w, h, nav, tx, ty + 1) == seq![
            OffsetPoint { x: tx as u32, y: (ty + 1) as u32, ordinal: Ordinal::Northwest, inner: false },
        ],
        vertex_points(w, h, nav, tx + 1, ty + 1) == seq![
            OffsetPoint {
                x: (tx + 1) as u32,
                y: (ty + 1) as u32,
                ordinal: Ordinal::Northeast,
                inner: false,
            },
        ],
{
    assert(!tile_blocked(w, h, nav, tx + -1, ty + -1));
    assert(!tile_blocked(w, h, nav, tx + 0, ty + -1));
    assert(!tile_blocked(w, h, nav, tx + 1, ty + -1));
    assert(!tile_blocked(w, h, nav, tx + -1, ty + 0));
    assert(!tile_blocked(w, h, nav, tx + 1, ty + 0));
    assert(!tile_blocked(w, h, nav, tx + -1, ty + 1));
    assert(!tile_blocked(w, h, nav, tx + 0, ty + 1));
    assert(!tile_blocked(w, h, nav, tx + 1, ty + 1));
    assert(vertex_points(w, h, nav, tx, ty) =~= seq![
        OffsetPoint { x: tx as u32, y: ty as u32, ordinal: Ordinal::Southwest, inner: false },
    ]);
    assert(vertex_points(w, h, nav, tx + 1, ty) =~= seq![
        OffsetPoint { x: (tx + 1) as u32, y: ty as u32, ordinal: Ordinal::Southeast, inner: false },
    ]);
    assert(vertex_points(w, h, nav, tx, ty + 1) =~= seq![
        OffsetPoint { x: tx as u32, y: (ty + 1) as u32, ordinal: Ordinal::Northwest, inner: false },
    ]);
    assert(vertex_points(w, h, nav, tx + 1, ty + 1) =~= seq![
        OffsetPoint {
            x: (tx + 1) as u32,
            y: (ty + 1) as u32,
            ordinal: Ordinal::Northeast,
            inner: false,
        },
    ]);
}

/// The boundary is determined by the map: any two results that meet the
/// contract of `offset_boundary` for the same map are equal, points and edges.
pub proof fn lemma_boundary_determined(
    map_size: UVec2,
    nav: Seq<Navability>,
    points1: Seq<OffsetPoint>,
    edges1: Seq<(usize, usize)>,
    points2: Seq<OffsetPoint>,
    edges2: Seq<(usize, usize)>,
)
    requires
        points1 == offset_points(map_size.x as int, map_size.y as int, nav),
        edges1 == stitched_edges(points1),
        points2 == offset_points(map_size.x as int, map_size.y as int, nav),
        edges2 == stitched_edges(points2),
    ensures
        points1 == points2,
        edges1 == edges2,
{
}

proof fn lemma_points_prefix(w: int, h: int, nav: Seq<Navability>, i: int, j: int)
    requires
        0 <= i <= j,
    ensures
        points_before(w, h, nav, i).len() <= points_before(w, h, nav, j).len(),
        points_before(w, h, nav, j).subrange(0, points_before(w, h, nav, i).len() as int)
            == points_before(w, h, nav, i),
    decreases j - i,
{
    if i < j {
        lemma_points_prefix(w, h, nav, i, j - 1);
        let pi = points_before(w, h, nav, i);
        let pj1 = points_before(w, h, nav, j - 1);
        let pj = points_before(w, h, nav, j);
        assert(pj == pj1 + vertex_points(w, h, nav, (j - 1) % (w + 1), (j - 1) / (w + 1)));
        assert(pj.subrange(0, pi.len() as int) =~= pj1.subrange(0, pi.len() as int));
    }
}

proof fn lemma_edges_grow(pts: Seq<OffsetPoint>, k: int, e: (usize, usize))
    requires
        0 <= k <= pts.len(),
        stitched_edges(pts.subrange(0, k)).contains(e),
    ensures
        stitched_edges(pts).contains(e),
    decreases pts.len() - k,
{
    if k == pts.len() {
        assert(pts.subrange(0, k) =~= pts);
    } else {
        let prev = pts.drop_last();
        assert(prev.subrange(0, k) =~= pts.subrange(0, k));
        lemma_edges_grow(prev, k, e);
        let se = stitched_edges(pts);
        let sp = stitched_edges(prev);
        let i = choose|i: int| 0 <= i < sp.len() && sp[i] == e;
        assert(se.subrange(0, sp.len() as int) =~= sp);
        assert(se[i] == e);
    }
}

proof fn lemma_last_on_append(s: Seq<OffsetPoint>, t: Seq<OffsetPoint>, cx: int, e: bool)
    requires
        forall|k: int| 0 <= k < t.len() ==> (#[trigger] t[k]).x != cx,
    ensures
        last_on_vert(s + t, cx, e) == last_on_vert(s, cx, e),
    decreases t.len(),
{
    if t.len() == 0 {
        assert(s + t =~= s);
    } else {
        assert((s + t).drop_last() =~= s + t.drop_last());
        lemma_last_on_append(s, t.drop_last(), cx, e);
    }
}

/// Between vertex `v` and the vertex below it in the next row, no vertex lies
/// on the same column.
proof fn lemma_other_column(w: int, h: int, tx: int, ty: int, k: int)
    requires
        0 <= tx <= w,
        0 <= ty < h,
        ty * (w + 1) + tx < k < ty * (w + 1) + tx + (w + 1),
    ensures
        0 <= k < (w + 1) * (h + 1),
        k % (w + 1) != tx,
{
    assert(ty * (w + 1) + tx + (w + 1) <= (w + 1) * (h + 1)) by (nonlinear_arith)
        requires
            0 <= tx <= w,
            0 <= ty < h,
    ;
    crate::classify::lemma_vertex_coords(w, h, k);
    let q = k / (w + 1);
    if k % (w + 1) == tx {
        assert(k - (ty * (w + 1) + tx) == (q - ty) * (w + 1)) by (nonlinear_arith)
            requires
                k == q * (w + 1) + tx,
        ;
        assert(false) by (nonlinear_arith)
            requires
                0 < (q - ty) * (w + 1) < w + 1,
                0 <= w,
        ;
    }
}

proof fn lemma_column_gap(w: int, h: int, nav: Seq<Navability>, tx: int, ty: int, i: int, p: OffsetPoint)
    requires
        0 <= tx <= w <= u32::MAX,
        0 <= ty < h <= u32::MAX,
        vertex_points(w, h, nav, tx, ty) == seq![p],
        p.x == tx,
        ty * (w + 1) + tx < i <= ty * (w + 1) + tx + (w + 1),
    ensures
        last_on_vert(points_before(w, h, nav, i), tx, p.ordinal.is_east()) == points_before(
            w,
            h,
            nav,
            ty * (w + 1) + tx,
        ).len(),
    decreases i,
{
    let v = ty * (w + 1) + tx;
    crate::classify::lemma_vertex_index(w, h, tx, ty);
    if i == v + 1 {
        lemma_push_point(points_before(w, h, nav, v), p);
        assert(points_before(w, h, nav, v) + seq![p] =~= points_before(w, h, nav, v).push(p));
    } else {
        lemma_column_gap(w, h, nav, tx, ty, i - 1, p);
        lemma_other_column(w, h, tx, ty, i - 1);
        crate::classify::lemma_vertex_coords(w, h, i - 1);
        let vp = vertex_points(w, h, nav, (i - 1) % (w + 1), (i - 1) / (w + 1));
        assert forall|k: int| 0 <= k < vp.len() implies (#[trigger] vp[k]).x != tx by {
            assert(vp[k].x == ((i - 1) % (w + 1)) as u32);
        }
        lemma_last_on_append(points_before(w, h, nav, i - 1), vp, tx, p.ordinal.is_east());
    }
}

/// Around a solid tile whose eight neighbours are open, the boundary holds a
/// closed quadrilateral: the outer points at the tile's four corners (the
/// southern two at `a` and `a + 1`, the northern two at `c` and `c + 1`),
/// joined by the four edges along the tile's sides.
pub proof fn lemma_isolated_tile_loop(w: int, h: int, nav: Seq<Navability>, tx: int, ty: int)
    requires
        w <= u32::MAX,
        h <= u32::MAX,
        tile_blocked(w, h, nav, tx, ty),
        forall|dx: int, dy: int|
            -1 <= dx <= 1 && -1 <= dy <= 1 && (dx != 0 || dy != 0) ==> !#[trigger] tile_blocked(
                w,
                h,
                nav,
                tx + dx,
                ty + dy,
            ),
    ensures
        ({
            let pts = offset_points(w, h, nav);
            let a = points_before(w, h, nav, ty * (w + 1) + tx).len() as int;
            let c = points_before(w, h, nav, (ty + 1) * (w + 1) + tx).len() as int;
            &&& 0 <= a && a + 1 < c && c + 1 < pts.len()
            &&& pts[a] == OffsetPoint {
                x: tx as u32,
                y: ty as u32,
                ordinal: Ordinal::Southwest,
                inner: false,
            }
            &&& pts[a + 1] == OffsetPoint {
                x: (tx + 1) as u32,
                y: ty as u32,
                ordinal: Ordinal::Southeast,
                inner: false,
            }
            &&& pts[c] == OffsetPoint {
                x: tx as u32,
                y: (ty + 1) as u32,
                ordinal: Ordinal::Northwest,
                inner: false,
            }
            &&& pts[c + 1] == OffsetPoint {
                x: (tx + 1) as u32,
                y: (ty + 1) as u32,
                ordinal: Ordinal::Northeast,
                inner: false,
            }
            &&& stitched_edges(pts).contains((a as usize, (a + 1) as usize))
            &&& stitched_edges(pts).contains((a as usize, c as usize))
            &&& stitched_edges(pts).contains(((a + 1) as usize, (c + 1) as usize))
            &&& stitched_edges(pts).contains((c as usize, (c + 1) as usize))
        }),
{
    lemma_isolated_tile_corners(w, h, nav, tx, ty);
    assert(!tile_blocked(w, h, nav, tx + -1, ty + -1));
    assert(!tile_blocked(w, h, nav, tx + 1, ty + 1));
    let n = (w + 1) * (h + 1);
    let sw = OffsetPoint { x: tx as u32, y: ty as u32, ordinal: Ordinal::Southwest, inner: false };
    let se = OffsetPoint { x: (tx + 1) as u32, y: ty as u32, ordinal: Ordinal::Southeast, inner: false };
    let nw = OffsetPoint { x: tx as u32, y: (ty + 1) as u32, ordinal: Ordinal::Northwest, inner: false };
    let ne = OffsetPoint {
        x: (tx + 1) as u32,
        y: (ty + 1) as u32,
        ordinal: Ordinal::Northeast,
        inner: false,
    };
    let v_sw = ty * (w + 1) + tx;
    let v_se = v_sw + 1;
    let v_nw = (ty + 1) * (w + 1) + tx;
    let v_ne = v_nw + 1;
    assert((ty + 1) * (w + 1) + tx == ty * (w + 1) + tx + (w + 1)) by (nonlinear_arith);
    crate::classify::lemma_vertex_index(w, h, tx, ty);
    crate::classify::lemma_vertex_index(w, h, tx + 1, ty);
    crate::classify::lemma_vertex_index(w, h, tx, ty + 1);
    crate::classify::lemma_vertex_index(w, h, tx + 1, ty + 1);
    let p_sw = points_before(w, h, nav, v_sw);
    let p_se = points_before(w, h, nav, v_se);
    let p_nw = points_before(w, h, nav, v_nw);
    let p_ne = points_before(w, h, nav, v_ne);
    let p_end = points_before(w, h, nav, v_ne + 1);
    assert(p_se =~= p_sw.push(sw));
    assert(p_ne =~= p_nw.push(nw));
    assert(points_before(w, h, nav, v_se + 1) =~= p_se.push(se));
    assert(p_end =~= p_ne.push(ne));
    lemma_points_prefix(w, h, nav, v_se + 1, v_nw);
    lemma_points_prefix(w, h, nav, v_ne + 1, n);
    lemma_points_prefix(w, h, nav, v_se + 1, n);
    lemma_points_prefix(w, h, nav, v_nw + 1, n);
    let pts = offset_points(w, h, nav);
    let a = p_sw.len() as int;
    let c = p_nw.len() as int;
    assert(pts.subrange(0, p_end.len() as int) == p_end);
    assert(pts[a] == p_end[a]);
    assert(pts[a + 1] == p_end[a + 1]);
    assert(pts[c] == p_end[c]);
    assert(pts[c + 1] == p_end[c + 1]);
    lemma_push_point(p_sw, sw);
    lemma_push_point(p_se, se);
    lemma_push_point(p_nw, nw);
    lemma_push_point(p_ne, ne);
    lemma_column_gap(w, h, nav, tx, ty, v_nw, sw);
    lemma_column_gap(w, h, nav, tx + 1, ty, v_ne, se);
    let e_se = stitched_edges(p_se.push(se));
    assert(e_se[e_se.len() - 1] == (a as usize, (a + 1) as usize));
    lemma_edges_grow(pts, p_se.len() + 1int, (a as usize, (a + 1) as usize));
    let e_nw = stitched_edges(p_nw.push(nw));
    assert(e_nw[e_nw.len() - 1] == (a as usize, c as usize));
    lemma_edges_grow(pts, p_nw.len() + 1int, (a as usize, c as usize));
    let e_ne = stitched_edges(p_ne.push(ne));
    assert(e_ne[e_ne.len() - 2] == ((a + 1) as usize, (c + 1) as usize));
    assert(e_ne[e_ne.len() - 1] == (c as usize, (c + 1) as usize));
    lemma_edges_grow(pts, p_ne.len() + 1int, ((a + 1) as usize, (c + 1) as usize));
    lemma_edges_grow(pts, p_ne.len() + 1int, (c as usize, (c + 1) as usize));
}

} // verus!
