//! Screen tiles of 32 x 32 pixels and the grid that holds them.
use vstd::prelude::*;
use slotmap::{DefaultKey, SlotMap};

verus! {

#[derive(Debug, Clone, Copy, PartialEq, Eq, Hash, Structural)]
pub struct TileCoord {
    pub x: i32,
    pub y: i32,
}

pub const TILE_SIZE: u32 = 32;

#[derive(Debug, Clone)]
pub struct Tile {
    pub coord: TileCoord,
    pub shape_ids: Vec<usize>,
    pub dirty: bool,
}

impl View for Tile {
    type V = (TileCoord, Seq<usize>, bool);

    open spec fn view(&self) -> (TileCoord, Seq<usize>, bool) {
        (self.coord, self.shape_ids@, self.dirty)
    }
}

/// The tiles of a grid, held in a `slotmap::SlotMap` keyed by `slotmap::DefaultKey`.
#[verifier::external_body]
#[derive(Debug)]
pub struct TileSlots {
    map: SlotMap<DefaultKey, Tile>,
}

/// The slots of a tile slot map, in slot order, with `None` for a vacant slot.
pub uninterp spec fn tile_slots(m: TileSlots) -> Seq<
    Option<(TileCoord, Seq<usize>, bool)>,
>;

/// A tile as it is after `clear_dirty`: no shapes and not dirty.
pub open spec fn cleared(t: Option<(TileCoord, Seq<usize>, bool)>) -> Option<
    (TileCoord, Seq<usize>, bool),
> {
    match t {
        Some(v) => Some((v.0, Seq::empty(), false)),
        None => None,
    }
}

/// `SlotMap::with_key`: an empty slot map.
#[verifier::external_body]
fn tile_slots_empty() -> (m: TileSlots)
    ensures
        tile_slots(m) == Seq::<Option<(TileCoord, Seq<usize>, bool)>>::empty(),
{
    TileSlots { map: SlotMap::with_key() }
}

/// `SlotMap::insert`: stores the tile in the most recently vacated slot when there is one,
/// else in a new slot at the end (which panics once the map has `u32::MAX` slots, the
/// sentinel included). The key it returns is dropped.
#[verifier::external_body]
fn tile_slots_insert(m: &mut TileSlots, tile: Tile)
    requires
        tile_slots(*old(m)).len() + 1 < u32::MAX,
    ensures
        (forall|i: int|
            0 <= i < tile_slots(*old(m)).len() ==> #[trigger] tile_slots(*old(m))[i] is Some)
            ==> tile_slots(*final(m)) == tile_slots(*old(m)).push(Some(tile@)),
        tile_slots(*final(m)) == tile_slots(*old(m)).push(Some(tile@)) || exists|i: int|
            0 <= i < tile_slots(*old(m)).len() && #[trigger] tile_slots(*old(m))[i] is None
                && tile_slots(*final(m)) == tile_slots(*old(m)).update(i, Some(tile@)),
{
    m.map.insert(tile);
}

/// `SlotMap::values_mut`, each tile reset by `Tile::reset`: every occupied slot loses its
/// shapes and its dirty flag; vacant slots stay vacant.
#[verifier::external_body]
fn tile_slots_reset_all(m: &mut TileSlots)
    ensures
        tile_slots(*final(m)) == tile_slots(*old(m)).map_values(
            |t: Option<(TileCoord, Seq<usize>, bool)>| cleared(t),
        ),
{
    m.map.values_mut().for_each(|tile| tile.reset());
}

/// The tiles held in the occupied slots, in slot order.
pub open spec fn occupied_tiles(slots: Seq<Option<(TileCoord, Seq<usize>, bool)>>) -> Seq<
    (TileCoord, Seq<usize>, bool),
> {
    slots.filter(|t: Option<(TileCoord, Seq<usize>, bool)>| t is Some).map_values(
        |t: Option<(TileCoord, Seq<usize>, bool)>| t.unwrap(),
    )
}

impl Clone for TileSlots {
    /// `SlotMap::clone`: a slot map with the same slots, each occupied one holding a clone
    /// of its tile (the derived `Tile::clone`, which copies the coordinate, the shape ids and
    /// the flag).
    #[verifier::external_body]
    fn clone(&self) -> (c: Self)
        ensures
            tile_slots(c) == tile_slots(*self),
    {
        TileSlots { map: self.map.clone() }
    }
}

impl TileSlots {
    /// `SlotMap::len`: the number of tiles held.
    #[verifier::external_body]
    pub fn len(&self) -> (n: usize)
        ensures
            n == occupied_tiles(tile_slots(*self)).len(),
    {
        self.map.len()
    }

    /// `SlotMap::values`, each tile copied by `Tile::snapshot`: copies of the tiles held,
    /// in slot order.
    #[verifier::external_body]
    pub fn values(&self) -> (v: Vec<Tile>)
        ensures
            v@.map_values(|t: Tile| t@) == occupied_tiles(tile_slots(*self)),
    {
        self.map.values().map(|t| t.snapshot()).collect()
    }
}

impl Tile {
    /// A copy of the tile.
    pub fn snapshot(&self) -> (t: Tile)
        ensures
            t@ == self@,
    {
        let mut ids: Vec<usize> = Vec::new();
        let mut i: usize = 0;
        while i < self.shape_ids.len()
            invariant
                i <= self.shape_ids@.len(),
                ids@ == self.shape_ids@.subrange(0, i as int),
            decreases self.shape_ids@.len() - i,
        {
            ids.push(self.shape_ids[i]);
            i = i + 1;
        }
        assert(ids@ =~= self.shape_ids@);
        Tile { coord: self.coord, shape_ids: ids, dirty: self.dirty }
    }

    /// A dirty tile with no shapes.
    pub fn new(coord: TileCoord) -> (t: Self)
        ensures
            t@ == (coord, Seq::<usize>::empty(), true),
    {
        Self { coord, shape_ids: Vec::new(), dirty: true }
    }

    /// Removes all shapes and clears the dirty flag.
    pub(crate) fn reset(&mut self)
        ensures
            final(self)@ == (old(self).coord, Seq::<usize>::empty(), false),
    {
        self.shape_ids.clear();
        self.dirty = false;
    }
}

/// The distance between neighbouring single-precision floats near `w`: 1 below 2^24,
/// doubling with each further binary digit of `w`.
pub open spec fn f32_spacing(w: nat) -> nat
    decreases w,
{
    if w < 0x100_0000 {
        1
    } else {
        2 * f32_spacing(w / 2)
    }
}

/// `w` rounded to a multiple of `u`: to the nearest one, and on a tie to the one whose
/// quotient by `u` is even.
pub open spec fn round_half_even(w: nat, u: nat) -> nat {
    let q = w / u;
    let r = w % u;
    if 2 * r < u {
        q * u
    } else if 2 * r > u {
        (q + 1) * u
    } else if q % 2 == 0 {
        q * u
    } else {
        (q + 1) * u
    }
}

/// The value of `w as f32`: `w` rounded to the nearest single-precision float, ties to
/// even.
pub open spec fn f32_value(w: u32) -> nat {
    round_half_even(w as nat, f32_spacing(w as nat))
}

/// Number of tiles needed to cover `pixels` pixels, as `ceil(pixels as f32 / 32.0)`
/// computes it: the width rounded to single precision, then divided by `TILE_SIZE` and
/// rounded up (both exact for a power of two).
pub open spec fn tiles_across(pixels: u32) -> int {
    (f32_value(pixels) + TILE_SIZE - 1) / TILE_SIZE as int
}

/// `w as f32`, as a whole number.
fn f32_value_of(w: u32) -> (r: u64)
    ensures
        r == f32_value(w),
        r <= 2 * w + 1,
{
    let mut u: u64 = 1;
    let mut t: u64 = w as u64;
    while t >= 0x100_0000
        invariant
            u >= 1,
            t * u <= w,
            u == 1 || u <= w,
            u * f32_spacing(t as nat) == f32_spacing(w as nat),
        decreases t,
    {
        assert(u <= w) by (nonlinear_arith)
            requires
                t * u <= w,
                t >= 1,
        ;
        assert((t / 2) * (2 * u) <= t * u) by (nonlinear_arith)
            requires
                u >= 1,
        ;
        assert(2 * u <= (t / 2) * (2 * u)) by (nonlinear_arith)
            requires
                u >= 1,
                t >= 2,
        ;
        assert(u * f32_spacing(t as nat) == (2 * u) * f32_spacing((t / 2) as nat)) by (
        nonlinear_arith)
            requires
                f32_spacing(t as nat) == 2 * f32_spacing((t / 2) as nat),
        ;
        t = t / 2;
        u = u * 2;
    }
    assert(f32_spacing(t as nat) == 1);
    assert(u == f32_spacing(w as nat));
    let wv = w as u64;
    let q = wv / u;
    let r = wv % u;
    assert(q * u <= wv && wv < q * u + u && q * u + u <= 2 * wv + 1 && (q + 1) * u == q * u + u)
        by (nonlinear_arith)
        requires
            q == wv / u,
            u >= 1,
            u <= wv || u == 1,
    ;
    if 2 * r < u {
        q * u
    } else if 2 * r > u {
        (q + 1) * u
    } else if q % 2 == 0 {
        q * u
    } else {
        (q + 1) * u
    }
}

/// The `k`-th coordinate of a row-by-row walk over rows `nx` tiles wide, starting at `min`.
pub open spec fn coord_at(min: TileCoord, nx: int, k: int) -> TileCoord {
    TileCoord { x: (min.x + k % nx) as i32, y: (min.y + k / nx) as i32 }
}

/// The tile coordinates from `min` to `max` inclusive, row by row.
pub open spec fn coords_between(min: TileCoord, max: TileCoord) -> Seq<TileCoord> {
    let nx: int = if max.x >= min.x { max.x - min.x + 1 } else { 0 };
    let ny: int = if max.y >= min.y { max.y - min.y + 1 } else { 0 };
    Seq::new((nx * ny) as nat, |k: int| coord_at(min, nx, k))
}

/// The `k`-th tile of a fresh grid `tx` tiles wide.
pub open spec fn fresh_tile(tx: int, k: int) -> Option<(TileCoord, Seq<usize>, bool)> {
    Some((TileCoord { x: (k % tx) as i32, y: (k / tx) as i32 }, Seq::<usize>::empty(), true))
}

#[derive(Debug, Clone)]
pub struct TileMap {
    pub tiles: TileSlots,
    pub screen_width: u32,
    pub screen_height: u32,
}

impl TileMap {
    /// A grid of `tiles_across(w)` x `tiles_across(h)` dirty, empty tiles, stored row by row.
    pub fn new(screen_width: u32, screen_height: u32) -> (m: Self)
        requires
            tiles_across(screen_width) * tiles_across(screen_height) <= u32::MAX - 2,
        ensures
            m.screen_width == screen_width,
            m.screen_height == screen_height,
            tile_slots(m.tiles) == Seq::new(
                (tiles_across(screen_width) * tiles_across(screen_height)) as nat,
                |k: int| fresh_tile(tiles_across(screen_width), k),
            ),
    {
        let fw = f32_value_of(screen_width);
        let fh = f32_value_of(screen_height);
        let tiles_x: i32 = ((fw + (TILE_SIZE - 1) as u64) / TILE_SIZE as u64) as i32;
        let tiles_y: i32 = ((fh + (TILE_SIZE - 1) as u64) / TILE_SIZE as u64) as i32;
        let ghost tx = tiles_x as int;
        let ghost ty = tiles_y as int;
        let mut tiles = tile_slots_empty();
        let mut y: i32 = 0;
        while y < tiles_y
            invariant
                0 <= tx,
                0 <= ty,
                tx == tiles_across(screen_width),
                ty == tiles_across(screen_height),
                tiles_x == tx,
                tiles_y == ty,
                tx * ty <= u32::MAX - 2,
                0 <= y <= ty,
                tile_slots(tiles) == Seq::new((y * tx) as nat, |k: int| fresh_tile(tx, k)),
            decreases tiles_y - y,
        {
            let mut x: i32 = 0;
            while x < tiles_x
                invariant
                    0 <= tx,
                    0 <= ty,
                    tiles_x == tx,
                    tiles_y == ty,
                    tx * ty <= u32::MAX - 2,
                    0 <= y < ty,
                    0 <= x <= tx,
                    tile_slots(tiles) == Seq::new((y * tx + x) as nat, |k: int| fresh_tile(tx, k)),
                decreases tiles_x - x,
            {
                proof {
                    assert(y * tx + x < tx * ty) by (nonlinear_arith)
                        requires
                            0 <= x < tx,
                            0 <= y < ty,
                    ;
                    assert((y * tx + x) % tx == x as int && (y * tx + x) / tx == y as int) by {
                        vstd::arithmetic::div_mod::lemma_fundamental_div_mod_converse(
                            y * tx + x,
                            tx,
                            y as int,
                            x as int,
                        );
                    }
                }
                assert(forall|i: int|
                    0 <= i < tile_slots(tiles).len() ==> #[trigger] tile_slots(tiles)[i] is Some);
                tile_slots_insert(&mut tiles, Tile::new(TileCoord { x, y }));
                assert(tile_slots(tiles) =~= Seq::new((y * tx + x + 1) as nat, |k: int| fresh_tile(tx, k)));
                x = x + 1;
            }
            assert(y * tx + tx == (y + 1) * tx) by (nonlinear_arith);
            y = y + 1;
        }
        assert(ty * tx == tx * ty) by (nonlinear_arith);
        Self { tiles, screen_width, screen_height }
    }

    /// The tile coordinates from `min` to `max` inclusive, row by row (empty when `max` is
    /// left of or above `min`).
    pub fn tiles_for_bounds(&self, min: TileCoord, max: TileCoord) -> (coords: Vec<TileCoord>)
        requires
            coords_between(min, max).len() <= usize::MAX,
        ensures
            coords@ == coords_between(min, max),
    {
        let mut coords: Vec<TileCoord> = Vec::new();
        let ghost nx: int = if max.x >= min.x { max.x - min.x + 1 } else { 0 };
        let ghost ny: int = if max.y >= min.y { max.y - min.y + 1 } else { 0 };
        assert(0 <= nx * ny) by (nonlinear_arith)
            requires
                0 <= nx,
                0 <= ny,
        ;
        let mut y: i64 = min.y as i64;
        while y <= max.y as i64
            invariant
                0 <= nx,
                0 <= ny,
                nx * ny <= usize::MAX,
                coords_between(min, max) == Seq::new((nx * ny) as nat, |k: int| coord_at(min, nx, k)),
                min.y <= y <= max.y + 1 || (max.y < min.y && y == min.y),
                nx == if max.x >= min.x { max.x - min.x + 1 } else { 0 },
                ny == if max.y >= min.y { max.y - min.y + 1 } else { 0 },
                coords@ == Seq::new(((y - min.y) * nx) as nat, |k: int| coord_at(min, nx, k)),
            decreases max.y + 1 - y,
        {
            let mut x: i64 = min.x as i64;
            while x <= max.x as i64
                invariant
                    0 <= nx,
                    0 <= ny,
                    nx * ny <= usize::MAX,
                    min.y <= y <= max.y,
                    ny == max.y - min.y + 1,
                    min.x <= x <= max.x + 1 || (max.x < min.x && x == min.x),
                    nx == if max.x >= min.x { max.x - min.x + 1 } else { 0 },
                    coords@ == Seq::new(((y - min.y) * nx + (x - min.x)) as nat, |k: int| coord_at(min, nx, k)),
                decreases max.x + 1 - x,
            {
                proof {
                    let k = (y - min.y) * nx + (x - min.x);
                    assert(k < nx * ny) by (nonlinear_arith)
                        requires
                            0 <= x - min.x < nx,
                            0 <= y - min.y < ny,
                            k == (y - min.y) * nx + (x - min.x),
                    ;
                    assert(k % nx == x - min.x && k / nx == y - min.y) by {
                        vstd::arithmetic::div_mod::lemma_fundamental_div_mod_converse(
                            k,
                            nx,
                            y - min.y,
                            x - min.x,
                        );
                    }
                }
                coords.push(TileCoord { x: x as i32, y: y as i32 });
                assert(coords@ =~= Seq::new(((y - min.y) * nx + (x - min.x) + 1) as nat, |k: int| coord_at(min, nx, k)));
                x = x + 1;
            }
            assert((y - min.y) * nx + nx == (y + 1 - min.y) * nx) by (nonlinear_arith);
            y = y + 1;
        }
        assert(nx * ny == (y - min.y) * nx) by (nonlinear_arith)
            requires
                ny == if max.y >= min.y { max.y - min.y + 1 } else { 0 },
                min.y <= y <= max.y + 1 || (max.y < min.y && y == min.y),
                y > max.y,
        ;
        coords
    }

    /// Empties every tile and marks it clean.
    pub fn clear_dirty(&mut self)
        ensures
            final(self).screen_width == old(self).screen_width,
            final(self).screen_height == old(self).screen_height,
            tile_slots(final(self).tiles) == tile_slots(old(self).tiles).map_values(
                |t: Option<(TileCoord, Seq<usize>, bool)>| cleared(t),
            ),
    {
        tile_slots_reset_all(&mut self.tiles);
    }
}

/// Clearing twice is clearing once.
pub proof fn lemma_clear_dirty_idempotent(slots: Seq<Option<(TileCoord, Seq<usize>, bool)>>)
    ensures
        slots.map_values(|t: Option<(TileCoord, Seq<usize>, bool)>| cleared(t)).map_values(
            |t: Option<(TileCoord, Seq<usize>, bool)>| cleared(t),
        ) == slots.map_values(|t: Option<(TileCoord, Seq<usize>, bool)>| cleared(t)),
{
    assert(slots.map_values(|t: Option<(TileCoord, Seq<usize>, bool)>| cleared(t)).map_values(
        |t: Option<(TileCoord, Seq<usize>, bool)>| cleared(t),
    ) =~= slots.map_values(|t: Option<(TileCoord, Seq<usize>, bool)>| cleared(t)));
}

} // verus!
