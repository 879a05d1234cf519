//! Navmesh structures: the tile grid, the choice of triangles that lie on
//! navigable tiles, and the collection of meshes kept by clearance.
use vstd::prelude::*;
use glam::UVec2;
use navmesh::NavMesh;
pub use crate::classify::Navability;

verus! {

/// navmesh's mesh, carried through the library as an opaque value.
#[verifier::external_type_specification]
#[verifier::external_body]
pub struct ExNavMesh(navmesh::NavMesh);

/// Whether `tile` lies on the `map_size` map and the row-major grid `nav`
/// marks it navigable.
pub open spec fn tile_navable(map_size: UVec2, nav: Seq<Navability>, tile: UVec2) -> bool {
    &&& tile.x < map_size.x
    &&& tile.y < map_size.y
    &&& nav[tile.y as int * map_size.x as int + tile.x as int] == Navability::Navable
}

/// The triangles of `tris` whose centroid tile (the same position of `tiles`)
/// is navigable, in their order.
pub open spec fn kept_triangles(
    map_size: UVec2,
    nav: Seq<Navability>,
    tris: Seq<(usize, usize, usize)>,
    tiles: Seq<UVec2>,
) -> Seq<(usize, usize, usize)>
    decreases tris.len(),
{
    if tris.len() == 0 {
        seq![]
    } else {
        let k = tris.len() - 1;
        kept_triangles(map_size, nav, tris.drop_last(), tiles) + if tile_navable(
            map_size,
            nav,
            tiles[k],
        ) {
            seq![tris[k]]
        } else {
            seq![]
        }
    }
}

/// Reads the navigability of every tile of the map, row by row.
pub fn collect_navability<F: Fn(UVec2) -> Navability>(map_size: UVec2, navability: F) -> (r: Vec<
    Navability,
>)
    requires
        map_size.x as int * map_size.y as int <= usize::MAX,
        forall|p: UVec2| p.x < map_size.x && p.y < map_size.y ==> #[trigger] navability.requires((p,)),
    ensures
        r.len() == map_size.x as int * map_size.y as int,
        forall|ty: int, tx: int|
            0 <= ty < map_size.y && 0 <= tx < map_size.x ==> navability.ensures(
                (UVec2 { x: tx as u32, y: ty as u32 },),
                #[trigger] r[ty * map_size.x as int + tx],
            ),
{
    let w = map_size.x;
    let h = map_size.y;
    let mut r: Vec<Navability> = Vec::new();
    let mut y: u32 = 0;
    while y < h
        invariant
            w == map_size.x,
            h == map_size.y,
            map_size.x as int * map_size.y as int <= usize::MAX,
            forall|p: UVec2| p.x < w && p.y < h ==> #[trigger] navability.requires((p,)),
            y <= h,
            r.len() == y as int * w as int,
            forall|ty: int, tx: int|
                0 <= ty < y && 0 <= tx < w ==> navability.ensures(
                    (UVec2 { x: tx as u32, y: ty as u32 },),
                    #[trigger] r[ty * w as int + tx],
                ),
        decreases h - y,
    {
        let mut x: u32 = 0;
        while x < w
            invariant
                w == map_size.x,
                h == map_size.y,
                map_size.x as int * map_size.y as int <= usize::MAX,
                forall|p: UVec2| p.x < w && p.y < h ==> #[trigger] navability.requires((p,)),
                y < h,
                x <= w,
                r.len() == y as int * w as int + x,
                forall|ty: int, tx: int|
                    (0 <= ty < y && 0 <= tx < w) || (ty == y && 0 <= tx < x) ==> navability.ensures(
                        (UVec2 { x: tx as u32, y: ty as u32 },),
                        #[trigger] r[ty * w as int + tx],
                    ),
            decreases w - x,
        {
            let p = UVec2::new(x, y);
            let t = navability(p);
            proof {
                crate::classify::lemma_tile_index(w as int, h as int, x as int, y as int);
            }
            r.push(t);
            proof {
                assert forall|ty: int, tx: int|
                    (0 <= ty < y && 0 <= tx < w) || (ty == y && 0 <= tx < x + 1) implies navability.ensures(
                    (UVec2 { x: tx as u32, y: ty as u32 },),
                    #[trigger] r[ty * w as int + tx],
                ) by {
                    if ty < y {
                        assert(ty * w as int + tx < y as int * w as int) by (nonlinear_arith)
                            requires
                                0 <= ty < y,
                                0 <= tx < w,
                        ;
                    }
                }
            }
            x = x + 1;
        }
        proof {
            assert((y as int + 1) * w as int == y as int * w as int + w as int) by (nonlinear_arith);
        }
        y = y + 1;
    }
    proof {
        assert(h as int * w as int == w as int * h as int) by (nonlinear_arith);
    }
    r
}

/// Whether `t` is one of `tris` whose tile (the same position of `tiles`) is navigable.
pub open spec fn from_navable_tile(
    map_size: UVec2,
    nav: Seq<Navability>,
    tris: Seq<(usize, usize, usize)>,
    tiles: Seq<UVec2>,
    t: (usize, usize, usize),
) -> bool {
    exists|j: int| 0 <= j < tris.len() && tris[j] == t && tile_navable(map_size, nav, tiles[j])
}

/// Every triangle that is kept has a navigable centroid tile: it is one of
/// the given triangles, and the tile given for that triangle is navigable.
pub proof fn lemma_kept_triangles_navable(
    map_size: UVec2,
    nav: Seq<Navability>,
    tris: Seq<(usize, usize, usize)>,
    tiles: Seq<UVec2>,
)
    requires
        tris.len() <= tiles.len(),
    ensures
        forall|k: int|
            0 <= k < kept_triangles(map_size, nav, tris, tiles).len() ==> from_navable_tile(
                map_size,
                nav,
                tris,
                tiles,
                #[trigger] kept_triangles(map_size, nav, tris, tiles)[k],
            ),
    decreases tris.len(),
{
    if tris.len() > 0 {
        let prev = tris.drop_last();
        lemma_kept_triangles_navable(map_size, nav, prev, tiles);
        let kept = kept_triangles(map_size, nav, tris, tiles);
        let kp = kept_triangles(map_size, nav, prev, tiles);
        assert forall|k: int| 0 <= k < kept.len() implies from_navable_tile(
            map_size,
            nav,
            tris,
            tiles,
            #[trigger] kept[k],
        ) by {
            if k < kp.len() {
                assert(kept[k] == kp[k]);
                assert(from_navable_tile(map_size, nav, prev, tiles, kp[k]));
                let j = choose|j: int|
                    0 <= j < prev.len() && prev[j] == kp[k] && tile_navable(map_size, nav, tiles[j]);
                assert(tris[j] == prev[j]);
            } else {
                assert(tris[tris.len() - 1] == kept[k]);
            }
        }
    }
}

/// On a map with no solid tile, every triangle whose centroid tile lies on
/// the map is kept.
pub proof fn lemma_open_map_keeps_all(
    map_size: UVec2,
    nav: Seq<Navability>,
    tris: Seq<(usize, usize, usize)>,
    tiles: Seq<UVec2>,
)
    requires
        nav.len() == map_size.x as int * map_size.y as int,
        forall|i: int| 0 <= i < nav.len() ==> #[trigger] nav[i] == Navability::Navable,
        tris.len() <= tiles.len(),
        forall|k: int|
            0 <= k < tris.len() ==> (#[trigger] tiles[k]).x < map_size.x && tiles[k].y < map_size.y,
    ensures
        kept_triangles(map_size, nav, tris, tiles) == tris,
    decreases tris.len(),
{
    if tris.len() == 0 {
        assert(kept_triangles(map_size, nav, tris, tiles) =~= tris);
    } else {
        let k = tris.len() - 1;
        lemma_open_map_keeps_all(map_size, nav, tris.drop_last(), tiles);
        crate::classify::lemma_tile_index(
            map_size.x as int,
            map_size.y as int,
            tiles[k].x as int,
            tiles[k].y as int,
        );
        assert(tile_navable(map_size, nav, tiles[k]));
        assert(kept_triangles(map_size, nav, tris, tiles) =~= tris);
    }
}

/// Keeps the triangles whose centroid tile is navigable. `centroid_tiles`
/// gives, for each triangle, the tile that holds its centroid; a tile off the
/// map drops its triangle.
pub fn navable_triangles(
    map_size: UVec2,
    navability: &Vec<Navability>,
    triangles: &Vec<(usize, usize, usize)>,
    centroid_tiles: &Vec<UVec2>,
) -> (r: Vec<(usize, usize, usize)>)
    requires
        navability.len() == map_size.x as int * map_size.y as int,
        triangles.len() == centroid_tiles.len(),
    ensures
        r@ == kept_triangles(map_size, navability@, triangles@, centroid_tiles@),
{
    let mut r: Vec<(usize, usize, usize)> = Vec::new();
    let mut k: usize = 0;
    while k < triangles.len()
        invariant
            navability.len() == map_size.x as int * map_size.y as int,
            triangles.len() == centroid_tiles.len(),
            k <= triangles.len(),
            r@ == kept_triangles(map_size, navability@, triangles@.subrange(0, k as int), centroid_tiles@),
        decreases triangles.len() - k,
    {
        let tile = centroid_tiles[k];
        let mut keep = false;
        if tile.x < map_size.x && tile.y < map_size.y {
            proof {
                crate::classify::lemma_tile_index(
                    map_size.x as int,
                    map_size.y as int,
                    tile.x as int,
                    tile.y as int,
                );
            }
            keep = navability[tile.y as usize * map_size.x as usize + tile.x as usize]
                == Navability::Navable;
        }
        if keep {
            r.push(triangles[k]);
        }
        proof {
            assert(triangles@.subrange(0, k + 1).drop_last() =~= triangles@.subrange(0, k as int));
        }
        k = k + 1;
    }
    proof {
        assert(triangles@.subrange(0, k as int) =~= triangles@);
    }
    r
}

/// A clearance radius, held as the bit pattern of a 32-bit float. Clearances
/// are ordered by `rank`, which orders finite values and infinities as
/// numbers do; negative and positive zero are equal.
#[derive(Clone, Copy, Debug, PartialEq, Eq, Structural)]
pub struct Clearance {
    pub bits: u32,
}

impl Clearance {
    /// The position of this clearance in the order of values: sign and magnitude.
    pub open spec fn rank(self) -> int {
        if self.bits >= 0x8000_0000 {
            -(self.bits - 0x8000_0000)
        } else {
            self.bits as int
        }
    }

    pub fn from_bits(bits: u32) -> (r: Self)
        ensures
            r.bits == bits,
    {
        Clearance { bits }
    }

    pub fn to_bits(self) -> (r: u32)
        ensures
            r == self.bits,
    {
        self.bits
    }

    /// The rank of this clearance (see `rank`).
    pub fn order_key(self) -> (r: i64)
        ensures
            r == self.rank(),
    {
        if self.bits >= 0x8000_0000 {
            -((self.bits - 0x8000_0000) as i64)
        } else {
            self.bits as i64
        }
    }
}

/// Whether `s` is in ascending order of clearance.
pub open spec fn clearances_sorted(s: Seq<Clearance>) -> bool {
    forall|i: int, j: int| 0 <= i <= j < s.len() ==> s[i].rank() <= s[j].rank()
}

/// The position at which `c` goes into the ascending `s`: after every
/// clearance that is not greater.
fn upper_position(s: &Vec<Clearance>, c: Clearance) -> (r: usize)
    requires
        clearances_sorted(s@),
    ensures
        r <= s.len(),
        forall|i: int| 0 <= i < r ==> s[i].rank() <= c.rank(),
        forall|i: int| r <= i < s.len() ==> s[i].rank() > c.rank(),
{
    let key = c.order_key();
    let mut lo: usize = 0;
    let mut hi: usize = s.len();
    while lo < hi
        invariant
            clearances_sorted(s@),
            key == c.rank(),
            lo <= hi <= s.len(),
            forall|i: int| 0 <= i < lo ==> s[i].rank() <= c.rank(),
            forall|i: int| hi <= i < s.len() ==> s[i].rank() > c.rank(),
        decreases hi - lo,
    {
        let mid = lo + (hi - lo) / 2;
        if s[mid].order_key() <= key {
            lo = mid + 1;
        } else {
            hi = mid;
        }
    }
    lo
}

/// Sorts clearances in ascending order. Clearances of equal rank keep their
/// order.
pub fn sort_clearances(clearances: Vec<Clearance>) -> (r: Vec<Clearance>)
    ensures
        r@.to_multiset() == clearances@.to_multiset(),
        clearances_sorted(r@),
{
    broadcast use vstd::seq_lib::to_multiset_insert;

    let mut r: Vec<Clearance> = Vec::new();
    let mut k: usize = 0;
    assert(r@ =~= clearances@.subrange(0, 0));
    while k < clearances.len()
        invariant
            k <= clearances.len(),
            r@.to_multiset() == clearances@.subrange(0, k as int).to_multiset(),
            clearances_sorted(r@),
        decreases clearances.len() - k,
    {
        let c = clearances[k];
        let pos = upper_position(&r, c);
        let ghost before = r@;
        r.insert(pos, c);
        proof {
            vstd::seq_lib::to_multiset_insert(before, pos as int, c);
            assert(r@.to_multiset() == before.to_multiset().insert(c));
            assert(clearances@.subrange(0, k + 1) =~= clearances@.subrange(0, k as int).push(c));
            vstd::seq_lib::to_multiset_build(clearances@.subrange(0, k as int), c);
            assert forall|i: int, j: int| 0 <= i <= j < r@.len() implies r@[i].rank() <= r@[j].rank() by {
                if i < pos && j > pos {
                    assert(r@[i] == before[i] && r@[j] == before[j - 1]);
                } else if i < pos && j == pos {
                    assert(r@[i] == before[i]);
                } else if i == pos && j > pos {
                    assert(r@[j] == before[j - 1]);
                } else if i > pos {
                    assert(r@[i] == before[i - 1] && r@[j] == before[j - 1]);
                } else if j < pos {
                    assert(r@[i] == before[i] && r@[j] == before[j]);
                }
            }
        }
        k = k + 1;
    }
    proof {
        assert(clearances@.subrange(0, k as int) =~= clearances@);
    }
    r
}

struct NavmeshEntry {
    navmesh: NavMesh,
    clearance: Clearance,
}

/// Put this component on your tilemap. Stores your map's navmeshes, in
/// ascending order of clearance.
pub struct Navmeshes {
    entries: Vec<NavmeshEntry>,
}

impl View for Navmeshes {
    type V = Seq<(Clearance, NavMesh)>;

    /// The stored meshes with their clearances, from least to most clearance.
    closed spec fn view(&self) -> Seq<(Clearance, NavMesh)> {
        self.entries@.map_values(|e: NavmeshEntry| (e.clearance, e.navmesh))
    }
}

/// The clearances of the stored meshes, in their order.
pub open spec fn clearances_of(s: Seq<(Clearance, NavMesh)>) -> Seq<Clearance> {
    s.map_values(|e: (Clearance, NavMesh)| e.0)
}

/// The index of the first entry of `s`, from `i` on, whose clearance is not
/// less than `c`; `s.len()` if there is none.
pub open spec fn first_at_least(s: Seq<(Clearance, NavMesh)>, c: Clearance, i: int) -> int
    decreases s.len() - i,
{
    if i >= s.len() || i < 0 {
        s.len() as int
    } else if s[i].0.rank() >= c.rank() {
        i
    } else {
        first_at_least(s, c, i + 1)
    }
}

impl Navmeshes {
    #[verifier::type_invariant]
    spec fn sorted(self) -> bool {
        forall|i: int, j: int|
            0 <= i <= j < self.entries.len() ==> self.entries[i].clearance.rank()
                <= self.entries[j].clearance.rank()
    }

    /// An empty collection.
    pub fn new() -> (r: Self)
        ensures
            r@ == Seq::<(Clearance, NavMesh)>::empty(),
            clearances_sorted(clearances_of(r@)),
    {
        let r = Navmeshes { entries: Vec::new() };
        assert(r@ =~= Seq::<(Clearance, NavMesh)>::empty());
        r
    }

    /// Adds a mesh after every stored mesh of no greater clearance, and before
    /// every stored mesh of greater clearance.
    pub fn insert(&mut self, clearance: Clearance, navmesh: NavMesh)
        ensures
            exists|pos: int|
                0 <= pos <= old(self)@.len() && final(self)@ == old(self)@.insert(
                    pos,
                    (clearance, navmesh),
                ) && (forall|i: int| 0 <= i < pos ==> (#[trigger] old(self)@[i]).0.rank() <= clearance.rank())
                    && (forall|i: int|
                    pos <= i < old(self)@.len() ==> (#[trigger] old(self)@[i]).0.rank() > clearance.rank()),
            clearances_sorted(clearances_of(final(self)@)),
    {
        proof {
            use_type_invariant(&*self);
        }
        let ghost before = self@;
        let mut entries: Vec<NavmeshEntry> = Vec::new();
        std::mem::swap(&mut entries, &mut self.entries);
        let ghost old_entries = entries@;
        let key = clearance.order_key();
        let mut lo: usize = 0;
        let mut hi: usize = entries.len();
        while lo < hi
            invariant
                entries@ == old_entries,
                before == old_entries.map_values(|e: NavmeshEntry| (e.clearance, e.navmesh)),
                forall|i: int, j: int|
                    0 <= i <= j < entries.len() ==> entries[i].clearance.rank()
                        <= entries[j].clearance.rank(),
                key == clearance.rank(),
                lo <= hi <= entries.len(),
                forall|i: int| 0 <= i < lo ==> entries[i].clearance.rank() <= clearance.rank(),
                forall|i: int| hi <= i < entries.len() ==> entries[i].clearance.rank() > clearance.rank(),
            decreases hi - lo,
        {
            let mid = lo + (hi - lo) / 2;
            if entries[mid].clearance.order_key() <= key {
                lo = mid + 1;
            } else {
                hi = mid;
            }
        }
        entries.insert(lo, NavmeshEntry { navmesh, clearance });
        proof {
            let after = entries@;
            assert forall|i: int, j: int| 0 <= i <= j < after.len() implies after[i].clearance.rank()
                <= after[j].clearance.rank() by {
                if i < lo && j > lo {
                    assert(after[i] == old_entries[i] && after[j] == old_entries[j - 1]);
                } else if i < lo && j == lo {
                    assert(after[i] == old_entries[i]);
                } else if i == lo && j > lo {
                    assert(after[j] == old_entries[j - 1]);
                } else if i > lo {
                    assert(after[i] == old_entries[i - 1] && after[j] == old_entries[j - 1]);
                } else if j < lo {
                    assert(after[i] == old_entries[i] && after[j] == old_entries[j]);
                }
            }
        }
        self.entries = entries;
        proof {
            assert(self@ =~= before.insert(lo as int, (clearance, navmesh)));
            assert(forall|i: int| 0 <= i < lo ==> (#[trigger] before[i]).0.rank() <= clearance.rank());
            assert(forall|i: int|
                lo <= i < before.len() ==> (#[trigger] before[i]).0.rank() > clearance.rank());
            assert(clearances_sorted(clearances_of(self@)));
        }
    }

    /// Gets the navmesh with the least amount of clearance greater than or
    /// equal to the given clearance
    pub fn mesh(&self, clearance: Clearance) -> (r: Option<&NavMesh>)
        ensures
            ({
                let i = first_at_least(self@, clearance, 0);
                r == if i < self@.len() { Some(&self@[i].1) } else { None::<&NavMesh> }
            }),
            clearances_sorted(clearances_of(self@)),
    {
        proof {
            use_type_invariant(self);
        }
        let key = clearance.order_key();
        let mut lo: usize = 0;
        let mut hi: usize = self.entries.len();
        while lo < hi
            invariant
                forall|i: int, j: int|
                    0 <= i <= j < self.entries.len() ==> self.entries[i].clearance.rank()
                        <= self.entries[j].clearance.rank(),
                key == clearance.rank(),
                lo <= hi <= self.entries.len(),
                forall|i: int| 0 <= i < lo ==> self.entries[i].clearance.rank() < clearance.rank(),
                forall|i: int|
                    hi <= i < self.entries.len() ==> self.entries[i].clearance.rank() >= clearance.rank(),
            decreases hi - lo,
        {
            let mid = lo + (hi - lo) / 2;
            if key > self.entries[mid].clearance.order_key() {
                lo = mid + 1;
            } else {
                hi = mid;
            }
        }
        proof {
            lemma_first_at_least(self@, clearance, 0, lo as int);
            assert(clearances_sorted(clearances_of(self@)));
        }
        if lo < self.entries.len() {
            Some(&self.entries[lo].navmesh)
        } else {
            None
        }
    }

    /// Gets a navmesh at the given index. Navmeshes are sorted from least to most clearance.
    pub fn mesh_at(&self, mesh: usize) -> (r: Option<&NavMesh>)
        ensures
            r == if mesh < self@.len() { Some(&self@[mesh as int].1) } else { None::<&NavMesh> },
    {
        if mesh < self.entries.len() {
            Some(&self.entries[mesh].navmesh)
        } else {
            None
        }
    }

    /// Gets the clearance of the navmesh at the given index.
    pub fn clearance_at(&self, mesh: usize) -> (r: Option<Clearance>)
        ensures
            r == if mesh < self@.len() { Some(self@[mesh as int].0) } else { None::<Clearance> },
    {
        if mesh < self.entries.len() {
            Some(self.entries[mesh].clearance)
        } else {
            None
        }
    }

    /// Gets the number of navmeshes
    pub fn mesh_count(&self) -> (r: usize)
        ensures
            r == self@.len(),
    {
        self.entries.len()
    }
}

/// The first index from `i` on whose clearance is not less than `c` is `lo`,
/// when every entry before `lo` is less and `lo` is the end or not less.
proof fn lemma_first_at_least(s: Seq<(Clearance, NavMesh)>, c: Clearance, i: int, lo: int)
    requires
        0 <= i <= lo <= s.len(),
        forall|k: int| i <= k < lo ==> s[k].0.rank() < c.rank(),
        lo < s.len() ==> s[lo].0.rank() >= c.rank(),
    ensures
        first_at_least(s, c, i) == lo,
    decreases lo - i,
{
    if i < lo {
        lemma_first_at_least(s, c, i + 1, lo);
    }
}

/// The lookup law: over clearances in ascending order, the first entry whose
/// clearance is not less than `c` has the least clearance among all entries
/// not less than `c`; when there is none, every entry is less than `c`.
pub proof fn lemma_first_at_least_is_least(s: Seq<(Clearance, NavMesh)>, c: Clearance)
    requires
        clearances_sorted(clearances_of(s)),
    ensures
        ({
            let i = first_at_least(s, c, 0);
            &&& 0 <= i <= s.len()
            &&& i < s.len() ==> s[i].0.rank() >= c.rank()
            &&& forall|j: int|
                0 <= j < s.len() && #[trigger] s[j].0.rank() >= c.rank() ==> i <= j && s[i].0.rank()
                    <= s[j].0.rank()
            &&& i == s.len() ==> forall|j: int| 0 <= j < s.len() ==> #[trigger] s[j].0.rank() < c.rank()
        }),
{
    lemma_first_at_least_from(s, c, 0);
    let i = first_at_least(s, c, 0);
    assert forall|j: int| 0 <= j < s.len() && #[trigger] s[j].0.rank() >= c.rank() implies i <= j
        && s[i].0.rank() <= s[j].0.rank() by {
        assert(clearances_of(s)[i] == s[i].0);
        assert(clearances_of(s)[j] == s[j].0);
    }
}

proof fn lemma_first_at_least_from(s: Seq<(Clearance, NavMesh)>, c: Clearance, k: int)
    requires
        0 <= k <= s.len(),
    ensures
        k <= first_at_least(s, c, k) <= s.len(),
        first_at_least(s, c, k) < s.len() ==> s[first_at_least(s, c, k)].0.rank() >= c.rank(),
        forall|j: int| k <= j < first_at_least(s, c, k) ==> #[trigger] s[j].0.rank() < c.rank(),
    decreases s.len() - k,
{
    if k < s.len() && s[k].0.rank() < c.rank() {
        lemma_first_at_least_from(s, c, k + 1);
    }
}

} // verus!
