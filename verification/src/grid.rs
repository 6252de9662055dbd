//! Movement of the dots that wander over the animated background grid.
//!
//! A dot sits on a cell of the grid and travels one cell at a time in its
//! direction, now and then stepping sideways; when it would leave the grid it
//! comes back in from a random edge. Chance enters through a
//! [`RandomSource`]; each decision is also offered as a pure function of the
//! random values it consumed.
use vstd::prelude::*;

verus! {

// ---------------------------------------------------------------------------
// Directions and edges
// ---------------------------------------------------------------------------

/// The axis a direction runs along.
#[derive(Clone, Copy, Debug, PartialEq, Eq, Structural)]
pub enum Axis {
    Horizontal,
    Vertical,
}

/// A direction of travel on the grid.
#[derive(Clone, Copy, Debug, PartialEq, Eq, Structural)]
pub enum Direction {
    Left,
    Right,
    Up,
    Down,
}

/// The column and row offsets of one step in direction `d`.
pub open spec fn delta_of(d: Direction) -> (int, int) {
    match d {
        Direction::Left => (-1, 0),
        Direction::Right => (1, 0),
        Direction::Up => (0, -1),
        Direction::Down => (0, 1),
    }
}

/// The direction opposite to `d`.
pub open spec fn reverse_of(d: Direction) -> Direction {
    match d {
        Direction::Left => Direction::Right,
        Direction::Right => Direction::Left,
        Direction::Up => Direction::Down,
        Direction::Down => Direction::Up,
    }
}

/// The axis of `d`.
pub open spec fn axis_of(d: Direction) -> Axis {
    match d {
        Direction::Left | Direction::Right => Axis::Horizontal,
        Direction::Up | Direction::Down => Axis::Vertical,
    }
}

/// The two directions at right angles to `d`.
pub open spec fn perpendicular_of(d: Direction) -> Seq<Direction> {
    match d {
        Direction::Left | Direction::Right => seq![Direction::Up, Direction::Down],
        Direction::Up | Direction::Down => seq![Direction::Left, Direction::Right],
    }
}

impl Direction {
    /// The opposite direction.
    pub fn reverse(self) -> (r: Direction)
        ensures
            r == reverse_of(self),
    {
        match self {
            Direction::Left => Direction::Right,
            Direction::Right => Direction::Left,
            Direction::Up => Direction::Down,
            Direction::Down => Direction::Up,
        }
    }

    /// The axis this direction runs along.
    pub fn axis(self) -> (r: Axis)
        ensures
            r == axis_of(self),
    {
        match self {
            Direction::Left | Direction::Right => Axis::Horizontal,
            Direction::Up | Direction::Down => Axis::Vertical,
        }
    }

    /// The column and row offsets of one step.
    pub fn delta(self) -> (r: (i32, i32))
        ensures
            (r.0 as int, r.1 as int) == delta_of(self),
    {
        match self {
            Direction::Left => (-1, 0),
            Direction::Right => (1, 0),
            Direction::Up => (0, -1),
            Direction::Down => (0, 1),
        }
    }

    /// The two directions at right angles to this one.
    pub fn perpendicular(self) -> (r: [Direction; 2])
        ensures
            r@ == perpendicular_of(self),
    {
        let r = match self {
            Direction::Left | Direction::Right => [Direction::Up, Direction::Down],
            Direction::Up | Direction::Down => [Direction::Left, Direction::Right],
        };
        proof {
            assert(r@ =~= perpendicular_of(self));
        }
        r
    }
}

/// The edge of the grid a dot enters from.
#[derive(Clone, Copy, Debug, PartialEq, Eq, Structural)]
pub enum SpawnEdge {
    Left,
    Right,
    Top,
    Bottom,
}

/// The edge numbered `k` by a random pick among four.
pub open spec fn edge_of_index(k: usize) -> SpawnEdge {
    if k == 0 {
        SpawnEdge::Left
    } else if k == 1 {
        SpawnEdge::Right
    } else if k == 2 {
        SpawnEdge::Top
    } else {
        SpawnEdge::Bottom
    }
}

/// The direction of a dot that enters from `edge`: into the grid.
pub open spec fn inward(edge: SpawnEdge) -> Direction {
    match edge {
        SpawnEdge::Left => Direction::Right,
        SpawnEdge::Right => Direction::Left,
        SpawnEdge::Top => Direction::Down,
        SpawnEdge::Bottom => Direction::Up,
    }
}

impl SpawnEdge {
    /// The edge for a number drawn below four.
    pub fn from_index(k: usize) -> (r: SpawnEdge)
        ensures
            r == edge_of_index(k),
    {
        if k == 0 {
            SpawnEdge::Left
        } else if k == 1 {
            SpawnEdge::Right
        } else if k == 2 {
            SpawnEdge::Top
        } else {
            SpawnEdge::Bottom
        }
    }

    /// An edge drawn at random: the edge whose index is the draw modulo four.
    pub fn random(rng: &mut RandomSource) -> (r: SpawnEdge)
        ensures
            exists|x: u64|
                #[trigger] drawn(*old(rng), *final(rng), x) && r == edge_of_index(
                    usize_below_spec(x, 4),
                ),
    {
        let k = random_usize(rng, 4);
        proof {
            let x = choose|x: u64| #[trigger]
                drawn(*old(rng), *rng, x) && k == usize_below_spec(x, 4);
            assert(drawn(*old(rng), *rng, x));
        }
        SpawnEdge::from_index(k)
    }
}

impl From<SpawnEdge> for Direction {
    fn from(edge: SpawnEdge) -> (r: Direction) {
        match edge {
            SpawnEdge::Left => Direction::Right,
            SpawnEdge::Right => Direction::Left,
            SpawnEdge::Top => Direction::Down,
            SpawnEdge::Bottom => Direction::Up,
        }
    }
}

impl vstd::std_specs::convert::FromSpecImpl<SpawnEdge> for Direction {
    open spec fn obeys_from_spec() -> bool {
        true
    }

    open spec fn from_spec(edge: SpawnEdge) -> Direction {
        inward(edge)
    }
}

// ---------------------------------------------------------------------------
// Chance
// ---------------------------------------------------------------------------

/// Calls `getrandom::getrandom` on an eight-byte buffer and reads the bytes
/// as a little-endian `u64`; `None` where the platform source reports an
/// error. The bytes are chance: nothing is stated of them.
#[verifier::external_body]
fn platform_random_u64() -> (r: Option<u64>) {
    let mut buf = [0u8;8];
    match getrandom::getrandom(&mut buf) {
        Ok(()) => Some(u64::from_le_bytes(buf)),
        Err(_) => None,
    }
}

/// The seed that follows `prev` in the fallback generator: `prev` times
/// 6364136223846793005, plus one, both modulo 2^64.
pub open spec fn lcg_step(prev: u64) -> u64 {
    let m = (prev as nat * 6364136223846793005nat) % 0x1_0000_0000_0000_0000nat;
    if m == u64::MAX {
        0
    } else {
        (m + 1) as u64
    }
}

/// Whether `x` is a number that a draw from the source `before` can give,
/// leaving the source as `after`: any number where the platform source
/// answered, the seed then unchanged; else the current seed, which then
/// advances by one step of the fallback generator.
pub open spec fn drawn(before: RandomSource, after: RandomSource, x: u64) -> bool {
    after.fallback_seed == before.fallback_seed || (x == before.fallback_seed
        && after.fallback_seed == lcg_step(before.fallback_seed))
}

/// The seed the fallback generator starts from.
pub open spec fn initial_fallback_seed() -> u64 {
    0x9e3779b97f4a7c15
}

/// Where random numbers come from: the platform's source, or, where that
/// fails, a linear congruential generator whose seed this value carries.
pub struct RandomSource {
    pub fallback_seed: u64,
}

impl RandomSource {
    /// A source whose fallback generator starts from its fixed seed.
    pub fn new() -> (r: RandomSource)
        ensures
            r.fallback_seed == initial_fallback_seed(),
    {
        RandomSource { fallback_seed: 0x9e3779b97f4a7c15 }
    }

    /// The number to hand out given what the platform source gave: that
    /// number where there is one (the seed stays), else the current seed,
    /// which then advances.
    pub fn next_from(&mut self, platform: Option<u64>) -> (r: u64)
        ensures
            match platform {
                Some(v) => r == v && final(self).fallback_seed == old(self).fallback_seed,
                None => r == old(self).fallback_seed && final(self).fallback_seed == lcg_step(
                    old(self).fallback_seed,
                ),
            },
    {
        match platform {
            Some(v) => v,
            None => {
                let prev = self.fallback_seed;
                self.fallback_seed = prev.wrapping_mul(6364136223846793005).wrapping_add(1);
                prev
            },
        }
    }

    /// A random number: from the platform where it can give one, else from
    /// the fallback generator.
    pub fn next_u64(&mut self) -> (r: u64)
        ensures
            drawn(*old(self), *final(self), r),
    {
        let platform = platform_random_u64();
        self.next_from(platform)
    }
}

/// Defaults to [`RandomSource::new`].
impl Default for RandomSource {
    fn default() -> (r: RandomSource)
        ensures
            r.fallback_seed == initial_fallback_seed(),
    {
        RandomSource::new()
    }
}

/// A random number.
pub fn random_u64(rng: &mut RandomSource) -> (r: u64)
    ensures
        drawn(*old(rng), *final(rng), r),
{
    rng.next_u64()
}

/// The value below `max` that the draw `x` picks, or 0 where `max` is not
/// positive.
pub open spec fn i32_below_spec(x: u64, max: i32) -> i32 {
    if max <= 0 {
        0
    } else {
        (x % (max as u64)) as i32
    }
}

/// Picks a value below `max` with the draw `x`.
pub fn i32_below(x: u64, max: i32) -> (r: i32)
    ensures
        r == i32_below_spec(x, max),
        max > 0 ==> 0 <= r < max,
        max <= 0 ==> r == 0,
{
    if max <= 0 {
        0
    } else {
        (x % (max as u64)) as i32
    }
}

/// A random value in `0..max`, or 0 where `max` is not positive.
pub fn random_i32(rng: &mut RandomSource, max: i32) -> (r: i32)
    ensures
        exists|x: u64| #[trigger] drawn(*old(rng), *final(rng), x) && r == i32_below_spec(x, max),
        max > 0 ==> 0 <= r < max,
        max <= 0 ==> r == 0,
{
    let x = rng.next_u64();
    i32_below(x, max)
}

/// The value below `max` that the draw `x` picks, or 0 where `max` is 0.
pub open spec fn usize_below_spec(x: u64, max: usize) -> usize {
    if max == 0 {
        0
    } else {
        (x % (max as u64)) as usize
    }
}

/// Picks a value below `max` with the draw `x`, or 0 where `max` is 0.
pub fn usize_below(x: u64, max: usize) -> (r: usize)
    ensures
        r == usize_below_spec(x, max),
        max == 0 ==> r == 0,
        max > 0 ==> r as int == x as int % max as int,
{
    if max == 0 {
        0
    } else {
        (x % (max as u64)) as usize
    }
}

/// A random value in `0..max`, or 0 where `max` is 0.
pub fn random_usize(rng: &mut RandomSource, max: usize) -> (r: usize)
    ensures
        exists|x: u64| #[trigger] drawn(*old(rng), *final(rng), x) && r == usize_below_spec(x, max),
        max == 0 ==> r == 0,
        max > 0 ==> r < max,
{
    let x = rng.next_u64();
    usize_below(x, max)
}

/// The coin the draw `x` shows: its lowest bit.
pub fn bool_of(x: u64) -> (r: bool)
    ensures
        r == (x % 2 == 1),
{
    let r = x & 1 == 1;
    assert((x & 1 == 1) == (x % 2 == 1)) by (bit_vector);
    r
}

/// A coin toss: the lowest bit of a draw.
pub fn random_bool(rng: &mut RandomSource) -> (r: bool)
    ensures
        exists|x: u64| #[trigger] drawn(*old(rng), *final(rng), x) && r == (x % 2 == 1),
{
    let x = rng.next_u64();
    bool_of(x)
}

/// Whether the draw `x` falls within `percent` out of a hundred: always at
/// 100 or more, never at 0.
pub open spec fn chance_spec(x: u64, percent: u8) -> bool {
    if percent >= 100 {
        true
    } else if percent == 0 {
        false
    } else {
        x % 100 < percent as u64
    }
}

/// Tests the draw `x` against `percent`.
pub fn chance_of(x: u64, percent: u8) -> (r: bool)
    ensures
        r == chance_spec(x, percent),
{
    if percent >= 100 {
        return true;
    }
    if percent == 0 {
        return false;
    }
    (x % 100) < percent as u64
}

/// True with a chance of `percent` out of a hundred: always at 100 or more,
/// never at 0.
pub fn random_chance(rng: &mut RandomSource, percent: u8) -> (r: bool)
    ensures
        percent >= 100 ==> r,
        percent == 0 ==> !r,
{
    let x = rng.next_u64();
    chance_of(x, percent)
}

/// The value in `min..=max` that the draw `x` picks; `min` where the range
/// holds one value or none.
pub open spec fn u32_between_spec(x: u64, min: u32, max: u32) -> u32 {
    if max <= min {
        min
    } else {
        (min + ((x as u32) % ((max - min + 1) as u32))) as u32
    }
}

/// Picks a value in `min..=max` with the draw `x`.
pub fn u32_between(x: u64, min: u32, max: u32) -> (r: u32)
    requires
        max - min < u32::MAX,
    ensures
        r == u32_between_spec(x, min, max),
        min <= max ==> min <= r <= max,
{
    if max <= min {
        return min;
    }
    let spread = max - min;
    min + ((x as u32) % (spread + 1))
}

/// A random value in `min..=max`; `min` where the range holds one value or none.
pub fn random_between_u32(rng: &mut RandomSource, min: u32, max: u32) -> (r: u32)
    requires
        max - min < u32::MAX,
    ensures
        exists|x: u64|
            #[trigger] drawn(*old(rng), *final(rng), x) && r == u32_between_spec(x, min, max),
        min <= max ==> min <= r <= max,
        max <= min ==> r == min,
{
    let x = rng.next_u64();
    u32_between(x, min, max)
}

/// The shortest time, in milliseconds, a dot takes for one step.
pub const STEP_DURATION_MIN: u32 = 320;

/// The longest time, in milliseconds, a dot takes for one step.
pub const STEP_DURATION_MAX: u32 = 640;

/// A random step duration.
pub fn random_step_duration(rng: &mut RandomSource) -> (r: u32)
    ensures
        STEP_DURATION_MIN <= r <= STEP_DURATION_MAX,
{
    random_between_u32(rng, STEP_DURATION_MIN, STEP_DURATION_MAX)
}

// ---------------------------------------------------------------------------
// The grid
// ---------------------------------------------------------------------------

/// The shape of the background grid as the dots need it: how many vertical
/// and horizontal lines it has, and whether its first column and first row
/// have a positive width and height (where there are two lines to measure).
pub struct GridData {
    pub vertical_line_count: usize,
    pub horizontal_line_count: usize,
    pub cell_width_positive: bool,
    pub cell_height_positive: bool,
}

/// The number of cells between `lines` lines: one fewer, cast to `i32` as
/// the lines' count is, or 0 where there is no line.
pub open spec fn cells_between(lines: usize) -> i32 {
    if lines > 0 {
        (lines - 1) as i32
    } else {
        0
    }
}

/// Whether the cell at `col`, `row` lies within `cols` columns and `rows` rows.
pub open spec fn within(cols: int, rows: int, col: int, row: int) -> bool {
    0 <= col < cols && 0 <= row < rows
}

impl GridData {
    /// The number of columns.
    pub fn cols(&self) -> (r: i32)
        ensures
            r == cells_between(self.vertical_line_count),
    {
        if self.vertical_line_count > 0 {
            (self.vertical_line_count - 1) as i32
        } else {
            0
        }
    }

    /// The number of rows.
    pub fn rows(&self) -> (r: i32)
        ensures
            r == cells_between(self.horizontal_line_count),
    {
        if self.horizontal_line_count > 0 {
            (self.horizontal_line_count - 1) as i32
        } else {
            0
        }
    }

    /// Whether the cell at `col`, `row` lies on the grid.
    pub fn in_bounds(&self, col: i32, row: i32) -> (r: bool)
        ensures
            r == within(
                cells_between(self.vertical_line_count) as int,
                cells_between(self.horizontal_line_count) as int,
                col as int,
                row as int,
            ),
    {
        col >= 0 && row >= 0 && col < self.cols() && row < self.rows()
    }
}

/// The number of columns and rows of a grid that has cells.
#[derive(Clone, Copy, Debug)]
pub struct GridMetrics {
    pub cols: i32,
    pub rows: i32,
}

impl GridMetrics {
    /// The metrics of `grid`: `None` where it has fewer than two lines
    /// either way, or a first cell without positive width or height.
    pub fn from(grid: &GridData) -> (r: Option<GridMetrics>)
        ensures
            r is None <==> (grid.vertical_line_count < 2 || grid.horizontal_line_count < 2
                || !grid.cell_width_positive || !grid.cell_height_positive),
            r matches Some(m) ==> m.cols == cells_between(grid.vertical_line_count) && m.rows
                == cells_between(grid.horizontal_line_count),
    {
        if grid.vertical_line_count < 2 || grid.horizontal_line_count < 2 {
            return None;
        }
        if !grid.cell_width_positive || !grid.cell_height_positive {
            return None;
        }
        Some(GridMetrics { cols: grid.cols(), rows: grid.rows() })
    }

    /// Whether the cell at `col`, `row` lies on the grid.
    pub fn in_bounds(&self, col: i32, row: i32) -> (r: bool)
        ensures
            r == within(self.cols as int, self.rows as int, col as int, row as int),
    {
        col >= 0 && row >= 0 && col < self.cols && row < self.rows
    }
}

// ---------------------------------------------------------------------------
// Dots
// ---------------------------------------------------------------------------

/// The state of one dot. Its diameter, a length in pixels, is kept by the
/// view that draws it.
#[derive(Clone, Copy, Debug)]
pub struct GridCircle {
    pub id: u64,
    pub col: i32,
    pub row: i32,
    pub travel_dir: Direction,
    pub moving: bool,
    pub respawning: bool,
    pub step_ms: u32,
    pub spawn_edge: SpawnEdge,
    pub alive: bool,
}

/// In how many steps out of a hundred a dot tries a side step.
pub const SIDE_STEP_PERCENT: u8 = 20;

/// The cell one step from `col`, `row` in direction `d`.
pub open spec fn step_from(col: int, row: int, d: Direction) -> (int, int) {
    (col + delta_of(d).0, row + delta_of(d).1)
}

/// The next cell of a dot: one step on in its direction, or, where it tries
/// a side step (`side_step`) and the side it picks (the first of the two
/// where `first_side`) is on the grid, one step to that side; `None` where
/// the chosen cell is off the grid.
pub open spec fn next_move_spec(
    c: GridCircle,
    m: GridMetrics,
    side_step: bool,
    first_side: bool,
) -> Option<(int, int)> {
    let ahead = step_from(c.col as int, c.row as int, c.travel_dir);
    let side = if first_side {
        perpendicular_of(c.travel_dir)[0]
    } else {
        perpendicular_of(c.travel_dir)[1]
    };
    let aside = step_from(c.col as int, c.row as int, side);
    let target = if side_step && within(m.cols as int, m.rows as int, aside.0, aside.1) {
        aside
    } else {
        ahead
    };
    if within(m.cols as int, m.rows as int, target.0, target.1) {
        Some(target)
    } else {
        None
    }
}

/// The position of an optional cell as integers.
pub open spec fn cell_view(r: Option<(i32, i32)>) -> Option<(int, int)> {
    match r {
        Some((c, w)) => Some((c as int, w as int)),
        None => None,
    }
}

/// The next cell of `circle`, given whether it tries a side step and which
/// side it picks.
pub fn next_move(circle: &GridCircle, metrics: &GridMetrics, side_step: bool, first_side: bool) -> (r:
    Option<(i32, i32)>)
    ensures
        cell_view(r) == next_move_spec(*circle, *metrics, side_step, first_side),
{
    let (dc, dr) = circle.travel_dir.delta();
    let mut target: (i64, i64) = (circle.col as i64 + dc as i64, circle.row as i64 + dr as i64);
    if side_step {
        let options = circle.travel_dir.perpendicular();
        let side_choice = if first_side {
            options[0]
        } else {
            options[1]
        };
        let (sc, sr) = side_choice.delta();
        let side_target: (i64, i64) = (circle.col as i64 + sc as i64, circle.row as i64 + sr as i64);
        if side_target.0 >= 0 && side_target.1 >= 0 && side_target.0 < metrics.cols as i64
            && side_target.1 < metrics.rows as i64 {
            target = side_target;
        }
    }
    if target.0 >= 0 && target.1 >= 0 && target.0 < metrics.cols as i64 && target.1
        < metrics.rows as i64 {
        Some((target.0 as i32, target.1 as i32))
    } else {
        None
    }
}

/// Picks the next cell of `circle`: with a chance of [`SIDE_STEP_PERCENT`]
/// it tries a side step, to a side picked by a coin toss.
pub fn decide_next_move(rng: &mut RandomSource, circle: &GridCircle, metrics: &GridMetrics) -> (r:
    Option<(i32, i32)>)
    ensures
        exists|side_step: bool, first_side: bool|
            cell_view(r) == next_move_spec(*circle, *metrics, side_step, first_side),
{
    let side_step = random_chance(rng, SIDE_STEP_PERCENT);
    let first_side = if side_step {
        random_bool(rng)
    } else {
        true
    };
    next_move(circle, metrics, side_step, first_side)
}

/// `x` brought into `lo..=hi`.
pub open spec fn clamp_spec(x: int, lo: int, hi: int) -> int {
    if x < lo {
        lo
    } else if x > hi {
        hi
    } else {
        x
    }
}

/// The cell a dot enters at from `edge`: the first or last column or row,
/// at position `pick` along that edge, brought onto the grid.
pub open spec fn spawn_cell(edge: SpawnEdge, m: GridMetrics, pick: i32) -> (int, int) {
    let (col, row) = match edge {
        SpawnEdge::Left => (0int, pick as int),
        SpawnEdge::Right => (m.cols - 1, pick as int),
        SpawnEdge::Top => (pick as int, 0int),
        SpawnEdge::Bottom => (pick as int, m.rows - 1),
    };
    (clamp_spec(col, 0, m.cols - 1), clamp_spec(row, 0, m.rows - 1))
}

/// The number the position along `edge` is drawn below: the rows for a
/// side edge, the columns for the top or bottom.
pub open spec fn edge_span(edge: SpawnEdge, m: GridMetrics) -> i32 {
    match edge {
        SpawnEdge::Left | SpawnEdge::Right => m.rows,
        SpawnEdge::Top | SpawnEdge::Bottom => m.cols,
    }
}

/// A grid with at least one cell.
pub open spec fn has_cells(m: GridMetrics) -> bool {
    m.cols >= 1 && m.rows >= 1
}

/// The cell a dot enters at from `edge`, `pick` along it.
pub fn spawn_position(edge: SpawnEdge, metrics: &GridMetrics, pick: i32) -> (r: (i32, i32))
    requires
        has_cells(*metrics),
    ensures
        (r.0 as int, r.1 as int) == spawn_cell(edge, *metrics, pick),
{
    let (col, row) = match edge {
        SpawnEdge::Left => (0, pick),
        SpawnEdge::Right => (metrics.cols - 1, pick),
        SpawnEdge::Top => (pick, 0),
        SpawnEdge::Bottom => (pick, metrics.rows - 1),
    };
    (clamp_i32(col, 0, metrics.cols - 1), clamp_i32(row, 0, metrics.rows - 1))
}

/// `x` brought into `lo..=hi`.
fn clamp_i32(x: i32, lo: i32, hi: i32) -> (r: i32)
    requires
        lo <= hi,
    ensures
        r == clamp_spec(x as int, lo as int, hi as int),
{
    if x < lo {
        lo
    } else if x > hi {
        hi
    } else {
        x
    }
}

/// A new dot entering from `edge`, `pick` along it, taking `step_ms` per step.
pub open spec fn spawned_spec(id: u64, m: GridMetrics, edge: SpawnEdge, pick: i32, step_ms: u32) -> GridCircle {
    let (col, row) = spawn_cell(edge, m, pick);
    GridCircle {
        id,
        col: col as i32,
        row: row as i32,
        travel_dir: inward(edge),
        moving: false,
        respawning: false,
        step_ms,
        spawn_edge: edge,
        alive: true,
    }
}

/// `c` brought back in from `edge`, `pick` along it, taking `step_ms` per
/// step; it waits before it moves again.
pub open spec fn respawned_spec(
    c: GridCircle,
    m: GridMetrics,
    edge: SpawnEdge,
    pick: i32,
    step_ms: u32,
) -> GridCircle {
    let (col, row) = spawn_cell(edge, m, pick);
    GridCircle {
        id: c.id,
        col: col as i32,
        row: row as i32,
        travel_dir: inward(edge),
        moving: false,
        respawning: true,
        step_ms,
        spawn_edge: edge,
        alive: true,
    }
}

/// The random values a dot draws when it enters: an edge, a position along
/// it below the edge's span, and a step duration in its range.
pub open spec fn valid_draws(m: GridMetrics, edge: SpawnEdge, pick: i32, step_ms: u32) -> bool {
    &&& 0 <= pick < edge_span(edge, m)
    &&& STEP_DURATION_MIN <= step_ms <= STEP_DURATION_MAX
}

/// A new dot entering from `edge`, `pick` along it.
pub fn spawn_with(id: u64, metrics: &GridMetrics, edge: SpawnEdge, pick: i32, step_ms: u32) -> (r:
    GridCircle)
    requires
        has_cells(*metrics),
    ensures
        r == spawned_spec(id, *metrics, edge, pick, step_ms),
{
    let (col, row) = spawn_position(edge, metrics, pick);
    GridCircle {
        id,
        col,
        row,
        travel_dir: Direction::from(edge),
        moving: false,
        respawning: false,
        step_ms,
        spawn_edge: edge,
        alive: true,
    }
}

/// The edge's span, drawn on.
fn edge_span_exec(edge: SpawnEdge, metrics: &GridMetrics) -> (r: i32)
    ensures
        r == edge_span(edge, *metrics),
{
    match edge {
        SpawnEdge::Left | SpawnEdge::Right => metrics.rows,
        SpawnEdge::Top | SpawnEdge::Bottom => metrics.cols,
    }
}

/// A new dot with a random edge, position and step duration.
pub fn spawn_circle_state(rng: &mut RandomSource, id: u64, metrics: &GridMetrics) -> (r: GridCircle)
    requires
        has_cells(*metrics),
    ensures
        exists|edge: SpawnEdge, pick: i32, step_ms: u32|
            valid_draws(*metrics, edge, pick, step_ms) && r == spawned_spec(
                id,
                *metrics,
                edge,
                pick,
                step_ms,
            ),
{
    let edge = SpawnEdge::random(rng);
    let pick = random_i32(rng, edge_span_exec(edge, metrics));
    let step_ms = random_step_duration(rng);
    let r = spawn_with(id, metrics, edge, pick, step_ms);
    assert(valid_draws(*metrics, edge, pick, step_ms));
    r
}

/// Brings `state` back in from `edge`, `pick` along it.
pub fn respawn_with(
    state: &mut GridCircle,
    metrics: &GridMetrics,
    edge: SpawnEdge,
    pick: i32,
    step_ms: u32,
)
    requires
        has_cells(*metrics),
    ensures
        *final(state) == respawned_spec(*old(state), *metrics, edge, pick, step_ms),
{
    let (col, row) = spawn_position(edge, metrics, pick);
    state.col = col;
    state.row = row;
    state.travel_dir = Direction::from(edge);
    state.spawn_edge = edge;
    state.step_ms = step_ms;
    state.moving = false;
    state.respawning = true;
    state.alive = true;
}

/// Whether `after` is `before` brought back in with some valid draws.
pub open spec fn is_respawn_of(before: GridCircle, after: GridCircle, m: GridMetrics) -> bool {
    exists|edge: SpawnEdge, pick: i32, step_ms: u32|
        valid_draws(m, edge, pick, step_ms) && after == respawned_spec(before, m, edge, pick, step_ms)
}

/// Brings `state` back in with a random edge, position and step duration.
pub fn respawn_circle_state(rng: &mut RandomSource, state: &mut GridCircle, metrics: &GridMetrics)
    requires
        has_cells(*metrics),
    ensures
        is_respawn_of(*old(state), *final(state), *metrics),
{
    let edge = SpawnEdge::random(rng);
    let pick = random_i32(rng, edge_span_exec(edge, metrics));
    let step_ms = random_step_duration(rng);
    respawn_with(state, metrics, edge, pick, step_ms);
    assert(valid_draws(*metrics, edge, pick, step_ms));
}

/// What a step of a dot came to.
#[derive(Clone, Copy, Debug, PartialEq, Eq, Structural)]
pub enum StepOutcome {
    /// The dot is moving or coming back in; nothing changed.
    Waiting,
    /// The dot set off to the next cell.
    Moved,
    /// The dot left the grid and was brought back in; it waits a moment
    /// before it moves again.
    Respawned,
}

/// What a step does to `before`, for a dot that is neither moving nor
/// coming back in: with `next` its next cell, it sets off there, or, where
/// there is none, it is brought back in.
pub open spec fn stepped(before: GridCircle, after: GridCircle, m: GridMetrics, r: StepOutcome) -> bool {
    if before.respawning || before.moving {
        r == StepOutcome::Waiting && after == before
    } else {
        exists|side_step: bool, first_side: bool|
            match #[trigger] next_move_spec(before, m, side_step, first_side) {
                Some((c, w)) => r == StepOutcome::Moved && after == GridCircle {
                    col: c as i32,
                    row: w as i32,
                    moving: true,
                    ..before
                },
                None => r == StepOutcome::Respawned && is_respawn_of(before, after, m),
            }
    }
}

/// One step of a dot: unless it is moving or coming back in, it sets off to
/// its next cell, or, where that is off the grid, comes back in from a
/// random edge.
pub fn circle_step(rng: &mut RandomSource, state: &mut GridCircle, metrics: &GridMetrics) -> (r:
    StepOutcome)
    requires
        has_cells(*metrics),
    ensures
        stepped(*old(state), *final(state), *metrics, r),
{
    if state.respawning {
        return StepOutcome::Waiting;
    }
    if state.moving {
        return StepOutcome::Waiting;
    }
    let side_step = random_chance(rng, SIDE_STEP_PERCENT);
    let first_side = if side_step {
        random_bool(rng)
    } else {
        true
    };
    let ghost before = *state;
    match next_move(state, metrics, side_step, first_side) {
        Some((col, row)) => {
            state.col = col;
            state.row = row;
            state.moving = true;
            assert(match next_move_spec(before, *metrics, side_step, first_side) {
                Some((c, w)) => *state == GridCircle {
                    col: c as i32,
                    row: w as i32,
                    moving: true,
                    ..before
                },
                None => false,
            });
            StepOutcome::Moved
        },
        None => {
            respawn_circle_state(rng, state, metrics);
            assert(next_move_spec(before, *metrics, side_step, first_side) is None);
            StepOutcome::Respawned
        },
    }
}

/// A dot that finished its move: it stops, then takes its next step.
pub fn handle_transition_end(rng: &mut RandomSource, state: &mut GridCircle, metrics: &GridMetrics) -> (r:
    StepOutcome)
    requires
        has_cells(*metrics),
    ensures
        stepped(GridCircle { moving: false, ..*old(state) }, *final(state), *metrics, r),
{
    state.moving = false;
    circle_step(rng, state, metrics)
}

/// A dot whose pause after coming back in is over: it takes its next step.
pub fn finish_respawn(rng: &mut RandomSource, state: &mut GridCircle, metrics: &GridMetrics) -> (r:
    StepOutcome)
    requires
        has_cells(*metrics),
    ensures
        stepped(GridCircle { respawning: false, ..*old(state) }, *final(state), *metrics, r),
{
    state.respawning = false;
    circle_step(rng, state, metrics)
}

/// Brings a dot that lies off the grid back in; `true` where it did, so
/// that its pause can be scheduled.
pub fn enforce_circle_bounds(rng: &mut RandomSource, state: &mut GridCircle, metrics: &GridMetrics) -> (r:
    bool)
    requires
        has_cells(*metrics),
    ensures
        r == !within(metrics.cols as int, metrics.rows as int, old(state).col as int, old(state).row as int),
        r ==> is_respawn_of(*old(state), *final(state), *metrics),
        !r ==> *final(state) == *old(state),
{
    if !metrics.in_bounds(state.col, state.row) {
        respawn_circle_state(rng, state, metrics);
        true
    } else {
        false
    }
}

// ---------------------------------------------------------------------------
// Laws
// ---------------------------------------------------------------------------

/// Reversing a direction twice gives it back; the reverse runs along the
/// same axis and steps the opposite way, and the two perpendicular
/// directions run along the other axis.
pub proof fn law_direction_reverse(d: Direction)
    ensures
        reverse_of(reverse_of(d)) == d,
        axis_of(reverse_of(d)) == axis_of(d),
        delta_of(reverse_of(d)).0 == -delta_of(d).0,
        delta_of(reverse_of(d)).1 == -delta_of(d).1,
        axis_of(perpendicular_of(d)[0]) != axis_of(d),
        axis_of(perpendicular_of(d)[1]) != axis_of(d),
        perpendicular_of(d)[1] == reverse_of(perpendicular_of(d)[0]),
{
}

/// A move always lands on the grid, one cell away from where the dot was.
pub proof fn law_next_move_stays_on_grid(c: GridCircle, m: GridMetrics, side_step: bool, first_side: bool)
    ensures
        next_move_spec(c, m, side_step, first_side) matches Some((col, row)) ==> within(
            m.cols as int,
            m.rows as int,
            col,
            row,
        ) && ((col - c.col == 1 || col - c.col == -1) && row == c.row || (row - c.row == 1 || row
            - c.row == -1) && col == c.col),
{
}

/// A dot comes in on the grid, on the edge it comes in from, whatever
/// position along the edge was drawn; and where the grid is at least two
/// cells wide and high, its first step in its direction stays on the grid.
pub proof fn law_spawn_on_edge(edge: SpawnEdge, m: GridMetrics, pick: i32)
    requires
        has_cells(m),
    ensures
        within(m.cols as int, m.rows as int, spawn_cell(edge, m, pick).0, spawn_cell(edge, m, pick).1),
        edge == SpawnEdge::Left ==> spawn_cell(edge, m, pick).0 == 0,
        edge == SpawnEdge::Right ==> spawn_cell(edge, m, pick).0 == m.cols - 1,
        edge == SpawnEdge::Top ==> spawn_cell(edge, m, pick).1 == 0,
        edge == SpawnEdge::Bottom ==> spawn_cell(edge, m, pick).1 == m.rows - 1,
        m.cols >= 2 && m.rows >= 2 ==> {
            let next = step_from(spawn_cell(edge, m, pick).0, spawn_cell(edge, m, pick).1, inward(edge));
            within(m.cols as int, m.rows as int, next.0, next.1)
        },
{
}

/// After a step that changed it, a dot is on the grid: a move lands on
/// it, and a dot brought back in comes in on it.
pub proof fn law_step_keeps_dot_on_grid(before: GridCircle, after: GridCircle, m: GridMetrics, r: StepOutcome)
    requires
        has_cells(m),
        stepped(before, after, m, r),
        r != StepOutcome::Waiting,
    ensures
        within(m.cols as int, m.rows as int, after.col as int, after.row as int),
        r == StepOutcome::Respawned ==> after.respawning && !after.moving && after.travel_dir
            == inward(after.spawn_edge),
        r == StepOutcome::Moved ==> after.moving,
{
    let (side_step, first_side) = choose|side_step: bool, first_side: bool|
        match #[trigger] next_move_spec(before, m, side_step, first_side) {
            Some((c, w)) => r == StepOutcome::Moved && after == GridCircle {
                col: c as i32,
                row: w as i32,
                moving: true,
                ..before
            },
            None => r == StepOutcome::Respawned && is_respawn_of(before, after, m),
        };
    match next_move_spec(before, m, side_step, first_side) {
        Some((c, w)) => {
            law_next_move_stays_on_grid(before, m, side_step, first_side);
        },
        None => {
            let (edge, pick, step_ms) = choose|edge: SpawnEdge, pick: i32, step_ms: u32|
                valid_draws(m, edge, pick, step_ms) && after == respawned_spec(before, m, edge, pick, step_ms);
            law_spawn_on_edge(edge, m, pick);
        },
    }
}

} // verus!
