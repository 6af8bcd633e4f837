use vstd::prelude::*;
use crate::block::{Block, BlockType};

verus! {

/// The number of blocks along each side of a chunk.
pub const CHUNK_SIZE: usize = 16;

/// Splits a block coordinate relative to a chunk into the chunk offset and
/// the position inside that chunk: `value == chunk * 16 + offset` with
/// `0 <= offset < 16`.
pub fn resolve_relative_coordinate(value: isize) -> (r: (i64, usize))
    ensures
        r.0 == value / 16,
        r.1 == value % 16,
        value == r.0 * 16 + r.1,
        0 <= r.1 < 16,
{
    let chunk = match value.checked_div_euclid(16) {
        Some(q) => q,
        None => 0,
    };
    let offset = match value.checked_rem_euclid(16) {
        Some(m) => m,
        None => 0,
    };
    (chunk as i64, offset as usize)
}

/// A block coordinate along one axis, as a chunk and an offset inside it.
#[derive(Copy, Clone, PartialEq, Eq, Structural, PartialOrd, Ord, Debug)]
pub struct BlockCoord {
    pub chunk: i64,
    pub offset: usize,
}

/// The absolute block coordinate of a chunk and offset, wrapped into `i64`.
pub open spec fn block_coord_value(coord: BlockCoord) -> i64 {
    (coord.chunk * 16 + coord.offset) as i64
}

impl BlockCoord {
    pub fn new(chunk: i64, offset: usize) -> (r: Self)
        ensures
            r == (BlockCoord { chunk, offset }),
    {
        Self { chunk, offset }
    }
}

impl From<i64> for BlockCoord {
    fn from(value: i64) -> (r: Self)
        ensures
            r.chunk == value / 16,
            r.offset == value % 16,
    {
        let chunk = match value.checked_div_euclid(16) {
            Some(q) => q,
            None => 0,
        };
        let offset = match value.checked_rem_euclid(16) {
            Some(m) => m,
            None => 0,
        };
        Self { chunk, offset: offset as usize }
    }
}

impl vstd::std_specs::convert::FromSpecImpl<i64> for BlockCoord {
    open spec fn obeys_from_spec() -> bool {
        true
    }

    open spec fn from_spec(value: i64) -> Self {
        BlockCoord { chunk: (value / 16) as i64, offset: (value % 16) as usize }
    }
}

impl From<BlockCoord> for i64 {
    /// `chunk * 16 + offset`; a value past the range of `i64` wraps.
    fn from(value: BlockCoord) -> (r: Self)
        ensures
            r == block_coord_value(value),
    {
        let chunk = value.chunk;
        let offset = value.offset;
        let scaled = chunk.wrapping_mul(16);
        let r = scaled.wrapping_add(offset as i64);
        proof {
            assert(r == (chunk * 16 + offset) as i64) by (bit_vector)
                requires
                    scaled == chunk.wrapping_mul(16),
                    r == scaled.wrapping_add(offset as i64),
            ;
        }
        r
    }
}

impl vstd::std_specs::convert::FromSpecImpl<BlockCoord> for i64 {
    open spec fn obeys_from_spec() -> bool {
        true
    }

    open spec fn from_spec(value: BlockCoord) -> Self {
        block_coord_value(value)
    }
}

/// Splitting a block coordinate into chunk and offset and joining them again
/// gives the coordinate back.
pub proof fn law_block_coord_round_trip(value: i64)
    ensures
        block_coord_value(BlockCoord { chunk: (value / 16) as i64, offset: (value % 16) as usize }) == value,
        0 <= value % 16 < 16,
{
    assert(value == (value / 16) * 16 + value % 16);
}

/// Joining a chunk and an in-range offset and splitting the result gives
/// them back, when the block coordinate fits in `i64`.
pub proof fn law_block_coord_split_join(coord: BlockCoord)
    requires
        coord.offset < 16,
        i64::MIN <= coord.chunk * 16 + coord.offset <= i64::MAX,
    ensures
        block_coord_value(coord) / 16 == coord.chunk,
        block_coord_value(coord) % 16 == coord.offset,
{
    let v = coord.chunk * 16 + coord.offset;
    assert(v / 16 == coord.chunk && v % 16 == coord.offset) by (nonlinear_arith)
        requires
            v == coord.chunk * 16 + coord.offset,
            0 <= coord.offset < 16,
    ;
}

/// The sky light of a block `depth` blocks below the terrain surface:
/// 15 at or above the surface, one less per block below it, and 0 from 15
/// blocks down.
pub open spec fn sky_light_for_depth(depth: int) -> u8 {
    if depth <= 0 {
        15
    } else if depth >= 15 {
        0
    } else {
        (15 - depth) as u8
    }
}

/// The sky light of the block at height `block_y` in a column whose terrain
/// surface is at `terrain_height`.
pub fn sky_light_at(terrain_height: i64, block_y: i64) -> (r: u8)
    requires
        i64::MIN <= terrain_height - block_y <= i64::MAX,
    ensures
        r == sky_light_for_depth(terrain_height - block_y),
{
    let blocks_to_surface = terrain_height - block_y;
    let clamped: i64 = if blocks_to_surface < 0 {
        0
    } else if blocks_to_surface > 15 {
        15
    } else {
        blocks_to_surface
    };
    15 - clamped as u8
}

/// The sky light of each block of a chunk, row by row from the bottom
/// (`r[y][x]`), for the chunk at vertical chunk position `chunk_y` under the
/// given terrain heights.
pub fn sky_light_map(height_map: &[i64; 16], chunk_y: i64) -> (r: Vec<Vec<u8>>)
    requires
        i64::MIN <= chunk_y * 16,
        chunk_y * 16 + 15 <= i64::MAX,
        forall|x: int|
            0 <= x < 16 ==> i64::MIN <= #[trigger] height_map@[x] - (chunk_y * 16 + 15) && height_map@[x] - chunk_y
                * 16 <= i64::MAX,
    ensures
        r@.len() == 16,
        forall|y: int| 0 <= y < 16 ==> (#[trigger] r@[y])@.len() == 16,
        forall|y: int, x: int|
            0 <= y < 16 && 0 <= x < 16 ==> #[trigger] r@[y]@[x] == sky_light_for_depth(
                height_map@[x] - (chunk_y * 16 + y),
            ),
{
    let base_y = chunk_y * 16;
    let mut rows: Vec<Vec<u8>> = Vec::new();
    let mut y: i64 = 0;
    while y < 16
        invariant
            0 <= y <= 16,
            base_y == chunk_y * 16,
            i64::MIN <= chunk_y * 16,
            chunk_y * 16 + 15 <= i64::MAX,
            forall|x: int|
                0 <= x < 16 ==> i64::MIN <= #[trigger] height_map@[x] - (chunk_y * 16 + 15) && height_map@[x]
                    - chunk_y * 16 <= i64::MAX,
            rows@.len() == y,
            forall|yy: int| 0 <= yy < y ==> (#[trigger] rows@[yy])@.len() == 16,
            forall|yy: int, x: int|
                0 <= yy < y && 0 <= x < 16 ==> #[trigger] rows@[yy]@[x] == sky_light_for_depth(
                    height_map@[x] - (chunk_y * 16 + yy),
                ),
        decreases 16 - y,
    {
        let mut row: Vec<u8> = Vec::new();
        let mut x: usize = 0;
        while x < 16
            invariant
                0 <= y < 16,
                0 <= x <= 16,
                base_y == chunk_y * 16,
                i64::MIN <= chunk_y * 16,
                chunk_y * 16 + 15 <= i64::MAX,
                forall|x: int|
                    0 <= x < 16 ==> i64::MIN <= #[trigger] height_map@[x] - (chunk_y * 16 + 15) && height_map@[x]
                        - chunk_y * 16 <= i64::MAX,
                row@.len() == x,
                forall|xx: int|
                    0 <= xx < x ==> #[trigger] row@[xx] == sky_light_for_depth(height_map@[xx] - (chunk_y * 16 + y)),
            decreases 16 - x,
        {
            let terrain_height = height_map[x];
            row.push(sky_light_at(terrain_height, base_y + y));
            x = x + 1;
        }
        rows.push(row);
        y = y + 1;
    }
    rows
}

/// Sky light never decreases going up a column, is full at and above the
/// surface, and is gone 15 blocks down.
pub proof fn law_sky_light_shape(terrain_height: int, lower: int, upper: int)
    requires
        lower <= upper,
    ensures
        sky_light_for_depth(terrain_height - lower) <= sky_light_for_depth(terrain_height - upper),
        upper >= terrain_height ==> sky_light_for_depth(terrain_height - upper) == 15,
        lower <= terrain_height - 15 ==> sky_light_for_depth(terrain_height - lower) == 0,
{
}

/// The element that a random number picks: the one at the number
/// (truncated to `usize`) modulo the length; `None` for an empty slice.
pub fn choose_random<T>(elements: &[T], random: u64) -> (r: Option<&T>)
    ensures
        elements@.len() == 0 ==> r is None,
        elements@.len() > 0 ==> (r matches Some(e) && *e == elements@[(random as usize) as int
            % elements@.len() as int]),
{
    if elements.len() == 0 {
        None
    } else {
        let index = random as usize % elements.len();
        Some(&elements[index])
    }
}

/// The kinds of terrain that the world generators lay down.
#[derive(Copy, Clone, Debug, PartialEq, Eq, Structural)]
pub enum TerrainKind {
    Air,
    Dirt,
    GrassyDirt,
    Stone,
    Slate,
}

/// The terrain of the test world at row `y` of a chunk at vertical chunk
/// position `chunk_y`: stone below chunk -1; in chunk -1, dirt topped by a
/// row of grassy dirt; air above.
pub open spec fn test_terrain(chunk_y: i64, y: int) -> TerrainKind {
    if chunk_y == -1 {
        if y == 15 {
            TerrainKind::GrassyDirt
        } else {
            TerrainKind::Dirt
        }
    } else if chunk_y < -1 {
        TerrainKind::Stone
    } else {
        TerrainKind::Air
    }
}

/// A flat world for testing.
#[derive(Debug)]
pub struct TestWorldGenerator {
    seed: u64,
}

impl TestWorldGenerator {
    pub closed spec fn seed_of(&self) -> u64 {
        self.seed
    }

    pub fn new(seed: u64) -> (r: Self)
        ensures
            r.seed_of() == seed,
    {
        Self { seed }
    }

    pub fn world_seed(&self) -> (r: u64)
        ensures
            r == self.seed_of(),
    {
        self.seed
    }

    /// The terrain of every block of the chunk at vertical chunk position
    /// `chunk_y`, row by row from the bottom (`r[y][x]`).
    pub fn generate_chunk(&self, chunk_y: i64) -> (r: Vec<Vec<TerrainKind>>)
        ensures
            r@.len() == 16,
            forall|y: int| 0 <= y < 16 ==> (#[trigger] r@[y])@.len() == 16,
            forall|y: int, x: int| 0 <= y < 16 && 0 <= x < 16 ==> #[trigger] r@[y]@[x] == test_terrain(chunk_y, y),
    {
        let mut rows: Vec<Vec<TerrainKind>> = Vec::new();
        let mut y: usize = 0;
        while y < 16
            invariant
                y <= 16,
                rows@.len() == y,
                forall|yy: int| 0 <= yy < y ==> (#[trigger] rows@[yy])@.len() == 16,
                forall|yy: int, x: int|
                    0 <= yy < y && 0 <= x < 16 ==> #[trigger] rows@[yy]@[x] == test_terrain(chunk_y, yy),
            decreases 16 - y,
        {
            let kind = if chunk_y == -1 {
                if y == 15 {
                    TerrainKind::GrassyDirt
                } else {
                    TerrainKind::Dirt
                }
            } else if chunk_y < -1 {
                TerrainKind::Stone
            } else {
                TerrainKind::Air
            };
            let mut row: Vec<TerrainKind> = Vec::new();
            let mut x: usize = 0;
            while x < 16
                invariant
                    x <= 16,
                    row@.len() == x,
                    forall|xx: int| 0 <= xx < x ==> #[trigger] row@[xx] == kind,
                decreases 16 - x,
            {
                row.push(kind);
                x = x + 1;
            }
            rows.push(row);
            y = y + 1;
        }
        rows
    }
}

/// A position in a chunk: the block there, its light levels, and whether
/// it must be drawn again.
#[derive(Clone, Debug)]
pub struct BlockSlot {
    block: Block,
    block_light: u8,
    sky_light: u8,
    needs_render: bool,
}

impl BlockSlot {
    pub closed spec fn block_of(&self) -> Block {
        self.block
    }

    pub closed spec fn block_light_of(&self) -> u8 {
        self.block_light
    }

    pub closed spec fn sky_light_of(&self) -> u8 {
        self.sky_light
    }

    pub closed spec fn needs_render_of(&self) -> bool {
        self.needs_render
    }

    /// A fresh slot holding `block`: unlit, and to be drawn.
    pub fn from_block(block: Block) -> (r: Self)
        ensures
            r.block_of() == block,
            r.block_light_of() == 0,
            r.sky_light_of() == 0,
            r.needs_render_of(),
    {
        Self { block, block_light: 0, sky_light: 0, needs_render: true }
    }

    pub fn block(&self) -> (r: &Block)
        ensures
            *r == self.block_of(),
    {
        &self.block
    }

    pub fn block_light(&self) -> (r: u8)
        ensures
            r == self.block_light_of(),
    {
        self.block_light
    }

    pub fn sky_light(&self) -> (r: u8)
        ensures
            r == self.sky_light_of(),
    {
        self.sky_light
    }

    pub fn needs_render(&self) -> (r: bool)
        ensures
            r == self.needs_render_of(),
    {
        self.needs_render
    }
}

/// Where chunk `location` sees a neighbour block at (`nx`, `ny`), given
/// relative to its own corner: the neighbour's chunk offset and its position
/// inside that chunk.
pub open spec fn neighbor_place(nx: int, ny: int) -> (i64, i64, usize, usize) {
    ((nx / 16) as i64, (ny / 16) as i64, (nx % 16) as usize, (ny % 16) as usize)
}

/// (`nx`, `ny`) is one of the eight blocks around (`x`, `y`).
pub open spec fn is_neighbor(x: int, y: int, nx: int, ny: int) -> bool {
    &&& x - 1 <= nx <= x + 1
    &&& y - 1 <= ny <= y + 1
    &&& (nx != x || ny != y)
}

/// `place` is where a block around (`x`, `y`) that lies outside the chunk
/// is found.
pub open spec fn outside_neighbor_place(x: int, y: int, place: (i64, i64, usize, usize)) -> bool {
    exists|nx: int, ny: int|
        is_neighbor(x, y, nx, ny) && !(0 <= nx < 16 && 0 <= ny < 16) && place == #[trigger] neighbor_place(nx, ny)
}

/// The block coordinates, relative to this chunk, of a place given as a
/// chunk offset and a position in that chunk.
pub open spec fn place_coords(place: (i64, i64, usize, usize)) -> (int, int) {
    (place.0 * 16 + place.2, place.1 * 16 + place.3)
}

/// Whether place `a` comes before place `b` row by row from the bottom,
/// left to right in a row.
pub open spec fn place_before(a: (i64, i64, usize, usize), b: (i64, i64, usize, usize)) -> bool {
    place_coords(a).1 < place_coords(b).1 || (place_coords(a).1 == place_coords(b).1 && place_coords(a).0
        < place_coords(b).0)
}

/// The blocks of one chunk: 16 rows of 16 slots, with the terrain heights of
/// its columns and whether all of it must be drawn again.
pub struct Chunk {
    location: (i64, i64),
    block_slots: Vec<BlockSlot>,
    render_all: bool,
    height_map: [i64; 16],
}

impl Chunk {
    pub closed spec fn wf(&self) -> bool {
        self.block_slots@.len() == 256
    }

    pub closed spec fn location_of(&self) -> (i64, i64) {
        self.location
    }

    /// All slots, row by row from the bottom.
    pub closed spec fn slots_view(&self) -> Seq<BlockSlot> {
        self.block_slots@
    }

    /// The slot at column `x`, row `y`.
    pub closed spec fn slot(&self, x: int, y: int) -> BlockSlot {
        self.block_slots@[y * 16 + x]
    }

    pub closed spec fn renders_all(&self) -> bool {
        self.render_all
    }

    pub closed spec fn heights(&self) -> Seq<i64> {
        self.height_map@
    }

    /// A chunk at `location` filled with `air`, unlit, to be drawn in full.
    pub fn new(location: (i64, i64), air: &'static BlockType) -> (r: Self)
        ensures
            r.wf(),
            r.location_of() == location,
            r.renders_all(),
            r.heights() == Seq::new(16, |i: int| 0i64),
            forall|x: int, y: int|
                0 <= x < 16 && 0 <= y < 16 ==> {
                    let s = #[trigger] r.slot(x, y);
                    &&& s.block_of().block_type == air
                    &&& s.block_of().block_light == 0
                    &&& s.block_of().sky_light == 0
                    &&& s.block_light_of() == 0
                    &&& s.sky_light_of() == 0
                    &&& s.needs_render_of()
                },
    {
        let mut block_slots: Vec<BlockSlot> = Vec::new();
        let mut i: usize = 0;
        while i < 256
            invariant
                i <= 256,
                block_slots@.len() == i,
                forall|k: int|
                    0 <= k < i ==> {
                        let s = #[trigger] block_slots@[k];
                        &&& s.block_of().block_type == air
                        &&& s.block_of().block_light == 0
                        &&& s.block_of().sky_light == 0
                        &&& s.block_light_of() == 0
                        &&& s.sky_light_of() == 0
                        &&& s.needs_render_of()
                    },
            decreases 256 - i,
        {
            block_slots.push(BlockSlot::from_block(Block::new(air, 0, 0)));
            i = i + 1;
        }
        let r = Self { location, block_slots, render_all: true, height_map: [0; 16] };
        assert(r.heights() =~= Seq::new(16, |i: int| 0i64));
        assert forall|x: int, y: int| 0 <= x < 16 && 0 <= y < 16 implies {
            let s = #[trigger] r.slot(x, y);
            &&& s.block_of().block_type == air
            &&& s.block_of().block_light == 0
            &&& s.block_of().sky_light == 0
            &&& s.block_light_of() == 0
            &&& s.sky_light_of() == 0
            &&& s.needs_render_of()
        } by {
            assert(0 <= y * 16 + x < 256);
        }
        r
    }

    pub fn location(&self) -> (r: (i64, i64))
        ensures
            r == self.location_of(),
    {
        self.location
    }

    pub fn height_map(&self) -> (r: &[i64; 16])
        ensures
            r@ == self.heights(),
    {
        &self.height_map
    }

    pub fn block_slot_at(&self, x: usize, y: usize) -> (r: &BlockSlot)
        requires
            self.wf(),
            x < 16,
            y < 16,
        ensures
            *r == self.slot(x as int, y as int),
    {
        &self.block_slots[y * 16 + x]
    }

    pub fn block_at(&self, x: usize, y: usize) -> (r: &Block)
        requires
            self.wf(),
            x < 16,
            y < 16,
        ensures
            *r == self.slot(x as int, y as int).block_of(),
    {
        self.block_slots[y * 16 + x].block()
    }

    pub fn sky_light_at(&self, x: usize, y: usize) -> (r: u8)
        requires
            self.wf(),
            x < 16,
            y < 16,
        ensures
            r == self.slot(x as int, y as int).sky_light_of(),
    {
        self.block_slots[y * 16 + x].sky_light()
    }

    pub fn block_light_at(&self, x: usize, y: usize) -> (r: u8)
        requires
            self.wf(),
            x < 16,
            y < 16,
        ensures
            r == self.slot(x as int, y as int).block_light_of(),
    {
        self.block_slots[y * 16 + x].block_light()
    }

    pub fn is_dirty_at(&self, x: usize, y: usize) -> (r: bool)
        requires
            self.wf(),
            x < 16,
            y < 16,
        ensures
            r == self.slot(x as int, y as int).needs_render_of(),
    {
        self.block_slots[y * 16 + x].needs_render()
    }

    pub fn set_all_need_render(&mut self)
        ensures
            final(self).renders_all(),
            final(self).location_of() == old(self).location_of(),
            final(self).heights() == old(self).heights(),
            final(self).slots_view() == old(self).slots_view(),
    {
        self.render_all = true;
    }

    /// The location of the chunk `chunk_offset_x` chunks right and
    /// `chunk_offset_y` chunks up from this one.
    pub fn relative_chunk_location(&self, chunk_offset_x: i64, chunk_offset_y: i64) -> (r: (i64, i64))
        requires
            i64::MIN <= self.location_of().0 + chunk_offset_x <= i64::MAX,
            i64::MIN <= self.location_of().1 + chunk_offset_y <= i64::MAX,
        ensures
            r.0 == self.location_of().0 + chunk_offset_x,
            r.1 == self.location_of().1 + chunk_offset_y,
    {
        (self.location.0 + chunk_offset_x, self.location.1 + chunk_offset_y)
    }
    /// Records the terrain heights of the chunk's columns and sets each
    /// block's sky light from its depth below its column's surface.
    pub fn set_height_map(&mut self, height_map: [i64; 16])
        requires
            old(self).wf(),
            i64::MIN <= old(self).location_of().1 * 16,
            old(self).location_of().1 * 16 + 15 <= i64::MAX,
            forall|x: int|
                0 <= x < 16 ==> i64::MIN <= #[trigger] height_map@[x] - (old(self).location_of().1 * 16 + 15)
                    && height_map@[x] - old(self).location_of().1 * 16 <= i64::MAX,
        ensures
            final(self).wf(),
            final(self).heights() == height_map@,
            final(self).location_of() == old(self).location_of(),
            final(self).renders_all() == old(self).renders_all(),
            forall|x: int, y: int|
                0 <= x < 16 && 0 <= y < 16 ==> {
                    let before = old(self).slot(x, y);
                    let after = #[trigger] final(self).slot(x, y);
                    &&& after.block_of() == before.block_of()
                    &&& after.block_light_of() == before.block_light_of()
                    &&& after.needs_render_of() == before.needs_render_of()
                    &&& after.sky_light_of() == sky_light_for_depth(
                        height_map@[x] - (old(self).location_of().1 * 16 + y),
                    )
                },
    {
        self.height_map = height_map;
        let base_y = self.location.1 * 16;
        let ghost start = self.block_slots@;
        let mut x: usize = 0;
        while x < 16
            invariant
                x <= 16,
                self.block_slots@.len() == 256,
                start.len() == 256,
                start == old(self).block_slots@,
                self.location == old(self).location,
                self.height_map@ == height_map@,
                self.render_all == old(self).render_all,
                base_y == self.location.1 * 16,
                i64::MIN <= self.location.1 * 16,
                self.location.1 * 16 + 15 <= i64::MAX,
                forall|xx: int|
                    0 <= xx < 16 ==> i64::MIN <= #[trigger] height_map@[xx] - (self.location.1 * 16 + 15)
                        && height_map@[xx] - self.location.1 * 16 <= i64::MAX,
                forall|xx: int, yy: int|
                    0 <= xx < 16 && 0 <= yy < 16 ==> {
                        let before = start[yy * 16 + xx];
                        let after = #[trigger] self.block_slots@[yy * 16 + xx];
                        &&& after.block == before.block
                        &&& after.block_light == before.block_light
                        &&& after.needs_render == before.needs_render
                        &&& after.sky_light == if xx < x {
                            sky_light_for_depth(height_map@[xx] - (self.location.1 * 16 + yy))
                        } else {
                            before.sky_light
                        }
                    },
            decreases 16 - x,
        {
            let terrain_height = height_map[x];
            let mut y: usize = 0;
            while y < 16
                invariant
                    x < 16,
                    y <= 16,
                    self.block_slots@.len() == 256,
                    start.len() == 256,
                    self.location == old(self).location,
                    self.height_map@ == height_map@,
                    self.render_all == old(self).render_all,
                    base_y == self.location.1 * 16,
                    terrain_height == height_map@[x as int],
                    i64::MIN <= self.location.1 * 16,
                    self.location.1 * 16 + 15 <= i64::MAX,
                    i64::MIN <= height_map@[x as int] - (self.location.1 * 16 + 15),
                    height_map@[x as int] - self.location.1 * 16 <= i64::MAX,
                    forall|xx: int, yy: int|
                        0 <= xx < 16 && 0 <= yy < 16 ==> {
                            let before = start[yy * 16 + xx];
                            let after = #[trigger] self.block_slots@[yy * 16 + xx];
                            &&& after.block == before.block
                            &&& after.block_light == before.block_light
                            &&& after.needs_render == before.needs_render
                            &&& after.sky_light == if xx < x || (xx == x && yy < y) {
                                sky_light_for_depth(height_map@[xx] - (self.location.1 * 16 + yy))
                            } else {
                                before.sky_light
                            }
                        },
                decreases 16 - y,
            {
                let light = sky_light_at(terrain_height, base_y + y as i64);
                let i = y * 16 + x;
                let ghost prev = self.block_slots@;
                self.block_slots[i].sky_light = light;
                proof {
                    assert forall|xx: int, yy: int| 0 <= xx < 16 && 0 <= yy < 16 && (xx != x || yy != y) implies #[trigger] self.block_slots@[yy * 16 + xx] == prev[yy * 16 + xx] by {
                        assert(yy * 16 + xx != i);
                    }
                }
                y = y + 1;
            }
            x = x + 1;
        }
    }

    /// Puts `block` at column `x`, row `y` and marks it to be drawn again.
    pub fn set_block(&mut self, x: usize, y: usize, block: Block)
        requires
            old(self).wf(),
            x < 16,
            y < 16,
        ensures
            final(self).wf(),
            final(self).location_of() == old(self).location_of(),
            final(self).heights() == old(self).heights(),
            final(self).renders_all() == old(self).renders_all(),
            final(self).slot(x as int, y as int).block_of() == block,
            final(self).slot(x as int, y as int).needs_render_of(),
            final(self).slot(x as int, y as int).block_light_of() == old(self).slot(x as int, y as int).block_light_of(),
            final(self).slot(x as int, y as int).sky_light_of() == old(self).slot(x as int, y as int).sky_light_of(),
            forall|xx: int, yy: int|
                0 <= xx < 16 && 0 <= yy < 16 && (xx != x || yy != y) ==> #[trigger] final(self).slot(xx, yy)
                    == old(self).slot(xx, yy),
    {
        let i = y * 16 + x;
        self.block_slots[i].block = block;
        self.block_slots[i].needs_render = true;
        proof {
            assert forall|xx: int, yy: int| 0 <= xx < 16 && 0 <= yy < 16 && (xx != x || yy != y) implies #[trigger] self.slot(xx, yy) == old(self).slot(xx, yy) by {
                assert(yy * 16 + xx != i);
            }
        }
    }
    /// Marks the blocks around (`origin_x`, `origin_y`) inside this chunk to
    /// be drawn again, and returns where the surrounding blocks that lie in
    /// other chunks are: their chunk offset and their position there.
    pub fn propagate_render_flag(&mut self, origin_x: usize, origin_y: usize) -> (r: Vec<(i64, i64, usize, usize)>)
        requires
            old(self).wf(),
            origin_x < 16,
            origin_y < 16,
        ensures
            final(self).wf(),
            final(self).location_of() == old(self).location_of(),
            final(self).heights() == old(self).heights(),
            final(self).renders_all() == old(self).renders_all(),
            forall|x: int, y: int|
                0 <= x < 16 && 0 <= y < 16 ==> {
                    let before = old(self).slot(x, y);
                    let after = #[trigger] final(self).slot(x, y);
                    &&& after.block_of() == before.block_of()
                    &&& after.block_light_of() == before.block_light_of()
                    &&& after.sky_light_of() == before.sky_light_of()
                    &&& after.needs_render_of() == (before.needs_render_of() || is_neighbor(
                        origin_x as int,
                        origin_y as int,
                        x,
                        y,
                    ))
                },
            forall|k: int| 0 <= k < r@.len() ==> outside_neighbor_place(origin_x as int, origin_y as int, #[trigger] r@[k]),
            forall|nx: int, ny: int|
                is_neighbor(origin_x as int, origin_y as int, nx, ny) && !(0 <= nx < 16 && 0 <= ny < 16)
                    ==> r@.contains(#[trigger] neighbor_place(nx, ny)),
            forall|k: int, l: int| 0 <= k < l < r@.len() ==> place_before(#[trigger] r@[k], #[trigger] r@[l]),
    {
        let mut outside: Vec<(i64, i64, usize, usize)> = Vec::new();
        let ghost start = self.block_slots@;
        let mut dy: isize = -1;
        while dy <= 1
            invariant
                -1 <= dy <= 2,
                origin_x < 16,
                origin_y < 16,
                self.block_slots@.len() == 256,
                start == old(self).block_slots@,
                self.location == old(self).location,
                self.height_map == old(self).height_map,
                self.render_all == old(self).render_all,
                forall|x: int, y: int|
                    0 <= x < 16 && 0 <= y < 16 ==> {
                        let before = start[y * 16 + x];
                        let after = #[trigger] self.block_slots@[y * 16 + x];
                        &&& after.block == before.block
                        &&& after.block_light == before.block_light
                        &&& after.sky_light == before.sky_light
                        &&& after.needs_render == (before.needs_render || (is_neighbor(
                            origin_x as int,
                            origin_y as int,
                            x,
                            y,
                        ) && y < origin_y + dy))
                    },
                forall|k: int| 0 <= k < outside@.len() ==> outside_neighbor_place(origin_x as int, origin_y as int, #[trigger] outside@[k]),
                forall|nx: int, ny: int|
                    is_neighbor(origin_x as int, origin_y as int, nx, ny) && !(0 <= nx < 16 && 0 <= ny < 16) && ny
                        < origin_y + dy ==> outside@.contains(#[trigger] neighbor_place(nx, ny)),
                forall|k: int| 0 <= k < outside@.len() ==> place_coords(#[trigger] outside@[k]).1 < origin_y + dy,
                forall|k: int, l: int|
                    0 <= k < l < outside@.len() ==> place_before(#[trigger] outside@[k], #[trigger] outside@[l]),
            decreases 2 - dy,
        {
            let mut dx: isize = -1;
            while dx <= 1
                invariant
                    -1 <= dy <= 1,
                    -1 <= dx <= 2,
                    origin_x < 16,
                    origin_y < 16,
                    self.block_slots@.len() == 256,
                    start == old(self).block_slots@,
                    self.location == old(self).location,
                    self.height_map == old(self).height_map,
                    self.render_all == old(self).render_all,
                    forall|x: int, y: int|
                        0 <= x < 16 && 0 <= y < 16 ==> {
                            let before = start[y * 16 + x];
                            let after = #[trigger] self.block_slots@[y * 16 + x];
                            &&& after.block == before.block
                            &&& after.block_light == before.block_light
                            &&& after.sky_light == before.sky_light
                            &&& after.needs_render == (before.needs_render || (is_neighbor(
                                origin_x as int,
                                origin_y as int,
                                x,
                                y,
                            ) && (y < origin_y + dy || (y == origin_y + dy && x < origin_x + dx))))
                        },
                    forall|k: int| 0 <= k < outside@.len() ==> outside_neighbor_place(origin_x as int, origin_y as int, #[trigger] outside@[k]),
                    forall|nx: int, ny: int|
                        is_neighbor(origin_x as int, origin_y as int, nx, ny) && !(0 <= nx < 16 && 0 <= ny < 16) && (ny
                            < origin_y + dy || (ny == origin_y + dy && nx < origin_x + dx)) ==> outside@.contains(
                            #[trigger] neighbor_place(nx, ny),
                        ),
                    forall|k: int|
                        0 <= k < outside@.len() ==> place_coords(#[trigger] outside@[k]).1 < origin_y + dy || (place_coords(
                            outside@[k],
                        ).1 == origin_y + dy && place_coords(outside@[k]).0 < origin_x + dx),
                    forall|k: int, l: int|
                        0 <= k < l < outside@.len() ==> place_before(#[trigger] outside@[k], #[trigger] outside@[l]),
                decreases 2 - dx,
            {
                if dx != 0 || dy != 0 {
                    let (chunk_offset_x, block_x) = resolve_relative_coordinate(origin_x as isize + dx);
                    let (chunk_offset_y, block_y) = resolve_relative_coordinate(origin_y as isize + dy);
                    let ghost nx = origin_x + dx;
                    let ghost ny = origin_y + dy;
                    if chunk_offset_x == 0 && chunk_offset_y == 0 {
                        let ghost prev = self.block_slots@;
                        let i = block_y * 16 + block_x;
                        proof {
                            assert(block_x == nx && block_y == ny);
                        }
                        self.block_slots[i].needs_render = true;
                        proof {
                            assert forall|x: int, y: int| 0 <= x < 16 && 0 <= y < 16 && (x != nx || y != ny) implies #[trigger] self.block_slots@[y * 16 + x] == prev[y * 16 + x] by {
                                assert(y * 16 + x != i);
                            }
                            assert(!(0 <= nx < 16 && 0 <= ny < 16) ==> false);
                        }
                    } else {
                        let ghost prev = outside@;
                        outside.push((chunk_offset_x, chunk_offset_y, block_x, block_y));
                        proof {
                            assert(!(0 <= nx < 16 && 0 <= ny < 16));
                            assert(outside@[prev.len() as int] == neighbor_place(nx, ny));
                            assert(place_coords(neighbor_place(nx, ny)) == (nx, ny));
                            assert forall|k: int, l: int| 0 <= k < l < outside@.len() implies place_before(
                                #[trigger] outside@[k],
                                #[trigger] outside@[l],
                            ) by {
                                assert(outside@[k] == prev[k]);
                                if l < prev.len() {
                                    assert(outside@[l] == prev[l]);
                                }
                            }
                            assert forall|k: int| 0 <= k < outside@.len() implies place_coords(#[trigger] outside@[k]).1
                                < origin_y + dy || (place_coords(outside@[k]).1 == origin_y + dy && place_coords(
                                outside@[k],
                            ).0 < origin_x + dx + 1) by {
                                if k < prev.len() {
                                    assert(outside@[k] == prev[k]);
                                }
                            }
                            assert(outside_neighbor_place(origin_x as int, origin_y as int, neighbor_place(nx, ny)));
                            assert forall|k: int| 0 <= k < outside@.len() implies outside_neighbor_place(
                                origin_x as int,
                                origin_y as int,
                                #[trigger] outside@[k],
                            ) by {
                                if k < prev.len() {
                                    assert(outside@[k] == prev[k]);
                                }
                            }
                            assert forall|mx: int, my: int|
                                is_neighbor(origin_x as int, origin_y as int, mx, my) && !(0 <= mx < 16 && 0 <= my < 16) && (my
                                    < origin_y + dy || (my == origin_y + dy && mx < origin_x + dx + 1)) implies outside@.contains(
                                    #[trigger] neighbor_place(mx, my),
                                ) by {
                                if my == ny && mx == nx {
                                    assert(outside@[prev.len() as int] == neighbor_place(nx, ny));
                                } else {
                                    assert(prev.contains(neighbor_place(mx, my)));
                                    let k = choose|k: int| 0 <= k < prev.len() && prev[k] == neighbor_place(mx, my);
                                    assert(outside@[k] == prev[k]);
                                }
                            }
                        }
                    }
                }
                dx = dx + 1;
            }
            dy = dy + 1;
        }
        outside
    }
    /// Marks the block at column `x`, row `y` to be drawn again.
    pub fn mark_needs_render(&mut self, x: usize, y: usize)
        requires
            old(self).wf(),
            x < 16,
            y < 16,
        ensures
            final(self).wf(),
            final(self).location_of() == old(self).location_of(),
            final(self).heights() == old(self).heights(),
            final(self).renders_all() == old(self).renders_all(),
            final(self).slot(x as int, y as int).block_of() == old(self).slot(x as int, y as int).block_of(),
            final(self).slot(x as int, y as int).block_light_of() == old(self).slot(x as int, y as int).block_light_of(),
            final(self).slot(x as int, y as int).sky_light_of() == old(self).slot(x as int, y as int).sky_light_of(),
            final(self).slot(x as int, y as int).needs_render_of(),
            forall|xx: int, yy: int|
                0 <= xx < 16 && 0 <= yy < 16 && (xx != x || yy != y) ==> #[trigger] final(self).slot(xx, yy)
                    == old(self).slot(xx, yy),
    {
        let i = y * 16 + x;
        self.block_slots[i].needs_render = true;
        proof {
            assert forall|xx: int, yy: int| 0 <= xx < 16 && 0 <= yy < 16 && (xx != x || yy != y) implies #[trigger] self.slot(xx, yy) == old(self).slot(xx, yy) by {
                assert(yy * 16 + xx != i);
            }
        }
    }

    /// Sets the light that blocks give to column `x`, row `y`, and has the
    /// whole chunk drawn again.
    pub fn set_block_light(&mut self, x: usize, y: usize, light: u8)
        requires
            old(self).wf(),
            x < 16,
            y < 16,
        ensures
            final(self).wf(),
            final(self).location_of() == old(self).location_of(),
            final(self).heights() == old(self).heights(),
            final(self).renders_all(),
            final(self).slot(x as int, y as int).block_of() == old(self).slot(x as int, y as int).block_of(),
            final(self).slot(x as int, y as int).block_light_of() == light,
            final(self).slot(x as int, y as int).sky_light_of() == old(self).slot(x as int, y as int).sky_light_of(),
            final(self).slot(x as int, y as int).needs_render_of() == old(self).slot(x as int, y as int).needs_render_of(),
            forall|xx: int, yy: int|
                0 <= xx < 16 && 0 <= yy < 16 && (xx != x || yy != y) ==> #[trigger] final(self).slot(xx, yy)
                    == old(self).slot(xx, yy),
    {
        let i = y * 16 + x;
        self.block_slots[i].block_light = light;
        self.render_all = true;
        proof {
            assert forall|xx: int, yy: int| 0 <= xx < 16 && 0 <= yy < 16 && (xx != x || yy != y) implies #[trigger] self.slot(xx, yy) == old(self).slot(xx, yy) by {
                assert(yy * 16 + xx != i);
            }
        }
    }

    /// Sets the light that the sky gives to column `x`, row `y`, and has the
    /// whole chunk drawn again.
    pub fn set_sky_light(&mut self, x: usize, y: usize, light: u8)
        requires
            old(self).wf(),
            x < 16,
            y < 16,
        ensures
            final(self).wf(),
            final(self).location_of() == old(self).location_of(),
            final(self).heights() == old(self).heights(),
            final(self).renders_all(),
            final(self).slot(x as int, y as int).block_of() == old(self).slot(x as int, y as int).block_of(),
            final(self).slot(x as int, y as int).block_light_of() == old(self).slot(x as int, y as int).block_light_of(),
            final(self).slot(x as int, y as int).sky_light_of() == light,
            final(self).slot(x as int, y as int).needs_render_of() == old(self).slot(x as int, y as int).needs_render_of(),
            forall|xx: int, yy: int|
                0 <= xx < 16 && 0 <= yy < 16 && (xx != x || yy != y) ==> #[trigger] final(self).slot(xx, yy)
                    == old(self).slot(xx, yy),
    {
        let i = y * 16 + x;
        self.block_slots[i].sky_light = light;
        self.render_all = true;
        proof {
            assert forall|xx: int, yy: int| 0 <= xx < 16 && 0 <= yy < 16 && (xx != x || yy != y) implies #[trigger] self.slot(xx, yy) == old(self).slot(xx, yy) by {
                assert(yy * 16 + xx != i);
            }
        }
    }

    /// Whether the whole chunk is to be drawn again.
    pub fn renders_all_blocks(&self) -> (r: bool)
        ensures
            r == self.renders_all(),
    {
        self.render_all
    }

    /// The blocks to draw again, row by row from the bottom: all of them when
    /// the whole chunk is marked, else the marked ones; the marks are cleared.
    pub fn take_render_flags(&mut self) -> (r: Vec<(usize, usize)>)
        requires
            old(self).wf(),
        ensures
            final(self).wf(),
            final(self).location_of() == old(self).location_of(),
            final(self).heights() == old(self).heights(),
            !final(self).renders_all(),
            forall|x: int, y: int|
                0 <= x < 16 && 0 <= y < 16 ==> {
                    let before = old(self).slot(x, y);
                    let after = #[trigger] final(self).slot(x, y);
                    &&& after.block_of() == before.block_of()
                    &&& after.block_light_of() == before.block_light_of()
                    &&& after.sky_light_of() == before.sky_light_of()
                    &&& !after.needs_render_of()
                },
            forall|k: int| 0 <= k < r@.len() ==> #[trigger] r@[k].0 < 16 && r@[k].1 < 16,
            forall|i: int, j: int|
                0 <= i < j < r@.len() ==> #[trigger] r@[i].1 * 16 + r@[i].0 < #[trigger] r@[j].1 * 16 + r@[j].0,
            forall|x: int, y: int|
                0 <= x < 16 && 0 <= y < 16 ==> (r@.contains((x as usize, y as usize)) <==> (old(self).renders_all()
                    || old(self).slot(x, y).needs_render_of())),
    {
        let all = self.render_all;
        let ghost start = self.block_slots@;
        let mut out: Vec<(usize, usize)> = Vec::new();
        let mut i: usize = 0;
        while i < 256
            invariant
                i <= 256,
                self.block_slots@.len() == 256,
                start == old(self).block_slots@,
                all == old(self).render_all,
                self.location == old(self).location,
                self.height_map == old(self).height_map,
                forall|k: int|
                    0 <= k < 256 ==> {
                        let before = start[k];
                        let after = #[trigger] self.block_slots@[k];
                        &&& after.block == before.block
                        &&& after.block_light == before.block_light
                        &&& after.sky_light == before.sky_light
                        &&& after.needs_render == (before.needs_render && k >= i)
                    },
                forall|k: int| 0 <= k < out@.len() ==> #[trigger] out@[k].0 < 16 && out@[k].1 < 16,
                forall|k: int| 0 <= k < out@.len() ==> #[trigger] out@[k].1 * 16 + out@[k].0 < i,
                forall|a: int, b: int|
                    0 <= a < b < out@.len() ==> #[trigger] out@[a].1 * 16 + out@[a].0 < #[trigger] out@[b].1 * 16
                        + out@[b].0,
                forall|k: int|
                    #![trigger start[k]]
                    0 <= k < i ==> (out@.contains(((k % 16) as usize, (k / 16) as usize)) <==> (all
                        || start[k].needs_render)),
            decreases 256 - i,
        {
            let flagged = self.block_slots[i].needs_render;
            let ghost before = out@;
            if all || flagged {
                out.push((i % 16, i / 16));
            }
            self.block_slots[i].needs_render = false;
            proof {
                assert forall|k: int|
                    #![trigger start[k]]
                    0 <= k < i + 1 implies (out@.contains(((k % 16) as usize, (k / 16) as usize)) <==> (all
                        || start[k].needs_render)) by {
                    let p = ((k % 16) as usize, (k / 16) as usize);
                    if k < i {
                        if out@.contains(p) && !before.contains(p) {
                            let t = choose|t: int| 0 <= t < out@.len() && out@[t] == p;
                            assert(t == before.len());
                            assert(k == i);
                        }
                        if before.contains(p) {
                            let t = choose|t: int| 0 <= t < before.len() && before[t] == p;
                            assert(out@[t] == p);
                        }
                    } else {
                        if all || flagged {
                            assert(out@[before.len() as int] == p);
                        } else {
                            if out@.contains(p) {
                                let t = choose|t: int| 0 <= t < out@.len() && out@[t] == p;
                                assert(out@[t] == before[t]);
                                assert(before[t].1 * 16 + before[t].0 < i);
                            }
                        }
                    }
                }
            }
            i = i + 1;
        }
        self.render_all = false;
        proof {
            assert forall|x: int, y: int| 0 <= x < 16 && 0 <= y < 16 implies (out@.contains(
                (x as usize, y as usize),
            ) <==> (old(self).renders_all() || old(self).slot(x, y).needs_render_of())) by {
                let k = y * 16 + x;
                assert(k % 16 == x && k / 16 == y);
                assert(((k % 16) as usize, (k / 16) as usize) == (x as usize, y as usize));
                assert(start[k] == old(self).slot(x, y));
                assert(out@.contains(((k % 16) as usize, (k / 16) as usize)) <==> (all || start[k].needs_render));
            }
        }
        out
    }
}

/// The light a block should have: its own emission, or one less than the
/// brightest of its neighbours that are loaded, whichever is more.
pub open spec fn expected_block_light(emission: u8, neighbors: Seq<Option<u8>>) -> u8 {
    let m = brightest(neighbors, neighbors.len() as int);
    let spread: u8 = if m > 0 {
        (m - 1) as u8
    } else {
        0
    };
    if emission > spread {
        emission
    } else {
        spread
    }
}

/// The brightest of the first `n` neighbours that are loaded (0 if none).
pub open spec fn brightest(neighbors: Seq<Option<u8>>, n: int) -> u8
    decreases n,
{
    if n <= 0 {
        0
    } else {
        let rest = brightest(neighbors, n - 1);
        match neighbors[n - 1] {
            Some(l) => if l > rest {
                l
            } else {
                rest
            },
            None => rest,
        }
    }
}

/// The light a block should have, given its emission and the light of its
/// four neighbours (`None` where the neighbour's chunk is not loaded; at
/// least one is).
pub fn expected_light(emission: u8, neighbors: &[Option<u8>; 4]) -> (r: u8)
    requires
        exists|i: int| 0 <= i < 4 && #[trigger] neighbors@[i] is Some,
    ensures
        r == expected_block_light(emission, neighbors@),
{
    let mut m: u8 = 0;
    let mut i: usize = 0;
    while i < 4
        invariant
            i <= 4,
            neighbors@.len() == 4,
            m == brightest(neighbors@, i as int),
        decreases 4 - i,
    {
        match neighbors[i] {
            Some(l) => {
                if l > m {
                    m = l;
                }
            },
            None => {},
        }
        i = i + 1;
    }
    let spread = m.saturating_sub(1);
    if emission > spread {
        emission
    } else {
        spread
    }
}

/// The sky light that a neighbour gives: its own where its chunk is loaded;
/// where it is not, full light above the block and none elsewhere. The
/// neighbours are, in order, above, below, left and right.
pub open spec fn sky_neighbor(neighbors: Seq<Option<u8>>, i: int) -> u8 {
    match neighbors[i] {
        Some(l) => l,
        None => if i == 0 {
            15
        } else {
            0
        },
    }
}

/// The sky light a block should have: full light, unless it is a full block
/// or what is above it has less than full sky light; or one less than the
/// brightest sky light around it, whichever is more.
pub open spec fn expected_sky_light_of(full_block: bool, neighbors: Seq<Option<u8>>) -> u8 {
    let direct: u8 = if !full_block && sky_neighbor(neighbors, 0) >= 15 {
        15
    } else {
        0
    };
    let m = max_u8(
        max_u8(sky_neighbor(neighbors, 0), sky_neighbor(neighbors, 1)),
        max_u8(sky_neighbor(neighbors, 2), sky_neighbor(neighbors, 3)),
    );
    let spread: u8 = if m > 0 {
        (m - 1) as u8
    } else {
        0
    };
    max_u8(direct, spread)
}

pub open spec fn max_u8(a: u8, b: u8) -> u8 {
    if a >= b {
        a
    } else {
        b
    }
}

fn sky_from(neighbor: Option<u8>, above: bool) -> (r: u8)
    ensures
        r == match neighbor {
            Some(l) => l,
            None => if above {
                15u8
            } else {
                0u8
            },
        },
{
    match neighbor {
        Some(l) => l,
        None => if above {
            15
        } else {
            0
        },
    }
}

/// The sky light a block should have, given whether it is a full block and
/// the sky light of its four neighbours (above, below, left, right; `None`
/// where the neighbour's chunk is not loaded).
pub fn expected_sky_light(full_block: bool, neighbors: &[Option<u8>; 4]) -> (r: u8)
    ensures
        r == expected_sky_light_of(full_block, neighbors@),
{
    let above = sky_from(neighbors[0], true);
    let below = sky_from(neighbors[1], false);
    let left = sky_from(neighbors[2], false);
    let right = sky_from(neighbors[3], false);
    let direct: u8 = if !full_block && above >= 15 {
        15
    } else {
        0
    };
    let mut m = if above >= below {
        above
    } else {
        below
    };
    let side = if left >= right {
        left
    } else {
        right
    };
    if side > m {
        m = side;
    }
    let spread = m.saturating_sub(1);
    if direct >= spread {
        direct
    } else {
        spread
    }
}

/// One step of spreading light to a block: the block light it takes, where
/// that is checked and differs from `block_light`, and likewise the sky
/// light. Neighbours are given above, below, left, right, `None` where their
/// chunk is not loaded.
pub fn light_changes(
    block_light: u8,
    sky_light: u8,
    emission: u8,
    full_block: bool,
    check_block_light: bool,
    check_sky_light: bool,
    block_neighbors: &[Option<u8>; 4],
    sky_neighbors: &[Option<u8>; 4],
) -> (r: (Option<u8>, Option<u8>))
    requires
        check_block_light ==> exists|i: int| 0 <= i < 4 && #[trigger] block_neighbors@[i] is Some,
    ensures
        r.0 == (if check_block_light && expected_block_light(emission, block_neighbors@) != block_light {
            Some(expected_block_light(emission, block_neighbors@))
        } else {
            None
        }),
        r.1 == (if check_sky_light && expected_sky_light_of(full_block, sky_neighbors@) != sky_light {
            Some(expected_sky_light_of(full_block, sky_neighbors@))
        } else {
            None
        }),
{
    let new_block = if check_block_light {
        let expected = expected_light(emission, block_neighbors);
        if expected != block_light {
            Some(expected)
        } else {
            None
        }
    } else {
        None
    };
    let new_sky = if check_sky_light {
        let expected = expected_sky_light(full_block, sky_neighbors);
        if expected != sky_light {
            Some(expected)
        } else {
            None
        }
    } else {
        None
    };
    (new_block, new_sky)
}

proof fn lemma_brightest_bounds(neighbors: Seq<Option<u8>>, n: int)
    requires
        0 <= n <= neighbors.len(),
    ensures
        forall|i: int| 0 <= i < n && #[trigger] neighbors[i] is Some ==> neighbors[i]->0 <= brightest(neighbors, n),
        brightest(neighbors, n) == 0 || exists|i: int|
            0 <= i < n && #[trigger] neighbors[i] == Some(brightest(neighbors, n)),
    decreases n,
{
    if n > 0 {
        lemma_brightest_bounds(neighbors, n - 1);
        if brightest(neighbors, n) != brightest(neighbors, n - 1) {
            assert(neighbors[n - 1] == Some(brightest(neighbors, n)));
        } else if brightest(neighbors, n) != 0 {
            let i = choose|i: int| 0 <= i < n - 1 && #[trigger] neighbors[i] == Some(brightest(neighbors, n - 1));
            assert(neighbors[i] == Some(brightest(neighbors, n)));
        }
    }
}

/// The block light a block should have is at least its own emission and at
/// least one less than the light of each of its loaded neighbours, every one
/// of them counted; and it is no more than that: it is its emission, or one
/// less than some loaded neighbour's light, or 0.
pub proof fn law_block_light_from_neighbors(emission: u8, neighbors: Seq<Option<u8>>)
    ensures
        expected_block_light(emission, neighbors) >= emission,
        forall|i: int|
            0 <= i < neighbors.len() && #[trigger] neighbors[i] is Some ==> expected_block_light(emission, neighbors)
                >= neighbors[i]->0 - 1,
        expected_block_light(emission, neighbors) == emission || expected_block_light(emission, neighbors) == 0
            || exists|i: int|
            0 <= i < neighbors.len() && #[trigger] neighbors[i] is Some && expected_block_light(emission, neighbors)
                == neighbors[i]->0 - 1,
{
    lemma_brightest_bounds(neighbors, neighbors.len() as int);
    let m = brightest(neighbors, neighbors.len() as int);
    if m != 0 {
        let i = choose|i: int| 0 <= i < neighbors.len() && #[trigger] neighbors[i] == Some(m);
        assert(neighbors[i] is Some);
    }
}

/// The sky light a block should have: at least full light when it is not a full
/// block and the block above it (or the open sky above an unloaded chunk)
/// has full sky light; otherwise nothing of its own. Either way at least one
/// less than the sky light of each of its four neighbours, counting an
/// unloaded neighbour as full light above and none elsewhere, and never more
/// than the greater of those two.
pub proof fn law_sky_light_from_neighbors(full_block: bool, neighbors: Seq<Option<u8>>)
    requires
        neighbors.len() == 4,
    ensures
        ({
            let r = expected_sky_light_of(full_block, neighbors);
            let above: int = match neighbors[0] {
                Some(l) => l as int,
                None => 15,
            };
            let below: int = match neighbors[1] {
                Some(l) => l as int,
                None => 0,
            };
            let left: int = match neighbors[2] {
                Some(l) => l as int,
                None => 0,
            };
            let right: int = match neighbors[3] {
                Some(l) => l as int,
                None => 0,
            };
            &&& (!full_block && above >= 15 ==> r >= 15)
            &&& r >= above - 1
            &&& r >= below - 1 && r >= left - 1 && r >= right - 1
            &&& (r == 0 || (r == 15 && !full_block && above >= 15) || r == above - 1 || r == below - 1 || r == left - 1
                || r == right - 1)
        }),
{
    let a = sky_neighbor(neighbors, 0);
    let b = sky_neighbor(neighbors, 1);
    let c = sky_neighbor(neighbors, 2);
    let d = sky_neighbor(neighbors, 3);
    let m = max_u8(max_u8(a, b), max_u8(c, d));
    assert(m == a || m == b || m == c || m == d);
    assert(m >= a && m >= b && m >= c && m >= d);
}

} // verus!
