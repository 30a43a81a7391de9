//! Elementary value types of the simulation: directions, grid points with
//! toroidal stepping, game lifecycle states, and food items.

use vstd::prelude::*;

verus! {

/// One of the four headings a snake can move in.
#[derive(Clone, Copy, Debug, PartialEq, Eq, Structural)]
pub enum Direction {
    Up,
    Right,
    Down,
    Left,
}

/// The heading opposite to `direction`.
pub open spec fn spec_opposite(direction: Direction) -> Direction {
    match direction {
        Direction::Left => Direction::Right,
        Direction::Up => Direction::Down,
        Direction::Right => Direction::Left,
        Direction::Down => Direction::Up,
    }
}

/// Turning around: every heading has exactly one opposite.
pub fn opposite_of(direction: Direction) -> (r: Direction)
    ensures
        r == spec_opposite(direction),
{
    match direction {
        Direction::Left => Direction::Right,
        Direction::Up => Direction::Down,
        Direction::Right => Direction::Left,
        Direction::Down => Direction::Up,
    }
}

/// `opposite` is an involution: applying it twice gives the heading back.
pub proof fn lemma_opposite_involutive(direction: Direction)
    ensures
        spec_opposite(spec_opposite(direction)) == direction,
        spec_opposite(direction) != direction,
{
}

/// A cell of the grid. Valid points satisfy `x < width` and `y < height` of
/// the field they address.
#[derive(Clone, Copy, Debug, PartialEq, Eq, Structural)]
pub struct FieldPoint {
    pub x: u16,
    pub y: u16,
}

/// A heading together with the exclusive bounds used for toroidal stepping.
#[derive(Clone, Copy, Debug, PartialEq, Eq, Structural)]
pub struct WrappableDirection {
    pub to: Direction,
    pub max: FieldPoint,
}

/// One toroidal step from `p` along `d.to`, on a grid of `d.max.x` columns
/// and `d.max.y` rows. Defined for every input point; coordinates are
/// reduced modulo the bounds, so the result is always in bounds.
pub open spec fn spec_add_wrapping(p: FieldPoint, d: WrappableDirection) -> FieldPoint {
    let x = match d.to {
        Direction::Right => (((p.x as int) + 1) % (d.max.x as int)) as u16,
        Direction::Left => (((p.x as int) + (d.max.x as int) - 1) % (d.max.x as int)) as u16,
        _ => ((p.x as int) % (d.max.x as int)) as u16,
    };
    let y = match d.to {
        Direction::Down => (((p.y as int) + 1) % (d.max.y as int)) as u16,
        Direction::Up => (((p.y as int) + (d.max.y as int) - 1) % (d.max.y as int)) as u16,
        _ => ((p.y as int) % (d.max.y as int)) as u16,
    };
    FieldPoint { x, y }
}

impl FieldPoint {
    /// Plain componentwise addition, used to reach the second cell of a
    /// two-cell food item.
    pub fn add_tuple(&self, tuple: (u16, u16)) -> (r: FieldPoint)
        requires
            self.x + tuple.0 <= u16::MAX,
            self.y + tuple.1 <= u16::MAX,
        ensures
            r.x == self.x + tuple.0,
            r.y == self.y + tuple.1,
    {
        let (x, y) = (self.x + tuple.0, self.y + tuple.1);
        FieldPoint { x, y }
    }

    /// One step along `direction.to`; stepping off an edge re-enters from
    /// the opposite edge (modular arithmetic on each axis independently).
    pub fn add_wrapping(&self, direction: WrappableDirection) -> (r: FieldPoint)
        requires
            direction.max.x >= 1,
            direction.max.y >= 1,
        ensures
            r == spec_add_wrapping(*self, direction),
            r.x < direction.max.x,
            r.y < direction.max.y,
    {
        let mx = direction.max.x;
        let my = direction.max.y;
        let xr = self.x % mx;
        let yr = self.y % my;
        let x = match direction.to {
            Direction::Right => {
                if xr + 1 == mx {
                    0
                } else {
                    xr + 1
                }
            },
            Direction::Left => {
                if xr == 0 {
                    mx - 1
                } else {
                    xr - 1
                }
            },
            _ => xr,
        };
        let y = match direction.to {
            Direction::Down => {
                if yr + 1 == my {
                    0
                } else {
                    yr + 1
                }
            },
            Direction::Up => {
                if yr == 0 {
                    my - 1
                } else {
                    yr - 1
                }
            },
            _ => yr,
        };
        proof {
            lemma_wrap_step(self.x as int, mx as int);
            lemma_wrap_step(self.y as int, my as int);
        }
        FieldPoint { x, y }
    }
}

/// Lifecycle of a game: created (`Idle`), started once (`Playing`), and two
/// terminal states (`Over`, `Quit`) with no transitions out.
#[derive(Clone, Copy, Debug, PartialEq, Eq, Structural)]
pub enum GameState {
    Idle,
    Playing,
    Quit,
    Over,
}

/// The kinds of food. `Basic` occupies one cell and never expires; every
/// other shape is a special: it occupies two horizontally adjacent cells, is
/// worth more score, and expires after a fixed number of ticks.
#[derive(Clone, Copy, Debug, PartialEq, Eq, Structural)]
pub enum FoodType {
    Basic,
    Whale,
    Turtle,
    Chameleon,
    Elephant,
    Alien,
    Caterpillar,
}

/// Score granted by a basic food item.
pub const BASIC_FOOD_WEIGHT: u8 = 8;

/// Score granted by a special food item.
pub const SPECIAL_FOOD_WEIGHT: u8 = 45;

/// Lifespan, in ticks, of a special food item (a tunable policy constant;
/// basic food does not expire).
pub const SPECIAL_FOOD_TICKS: u16 = 30;

/// One food item on the field. `size` is the number of cells it occupies
/// (the second cell of a two-cell special lies directly right of
/// `location`); `weight` is the score granted on consumption; `ticks_left`
/// counts down to expiry for specials and stays 0 for basics.
#[derive(Clone, Copy, Debug, PartialEq, Eq, Structural)]
pub struct Food {
    pub size: u8,
    pub weight: u8,
    pub shape: FoodType,
    pub location: FieldPoint,
    pub ticks_left: u16,
}

/// The food item spawned for `shape` at `p`.
pub open spec fn spec_food_new(shape: FoodType, p: FieldPoint) -> Food {
    match shape {
        FoodType::Basic => Food {
            size: 1,
            weight: BASIC_FOOD_WEIGHT,
            shape,
            location: p,
            ticks_left: 0,
        },
        _ => Food {
            size: 2,
            weight: SPECIAL_FOOD_WEIGHT,
            shape,
            location: p,
            ticks_left: SPECIAL_FOOD_TICKS,
        },
    }
}

/// Whether `food` occupies the cell `p`.
pub open spec fn spec_is_at(food: Food, p: FieldPoint) -> bool {
    match food.shape {
        FoodType::Basic => food.location == p,
        _ => food.location == p || (food.location.x + 1 == p.x && food.location.y == p.y),
    }
}

impl Food {
    /// A new food item of the given shape: basics are worth 8 points on one
    /// cell and never expire; specials are worth 45 points on two cells and
    /// carry a finite lifespan.
    pub fn new(shape: FoodType, p: FieldPoint) -> (r: Food)
        ensures
            r == spec_food_new(shape, p),
    {
        match shape {
            FoodType::Basic => Food {
                size: 1,
                weight: BASIC_FOOD_WEIGHT,
                shape,
                location: p,
                ticks_left: 0,
            },
            _ => Food {
                size: 2,
                weight: SPECIAL_FOOD_WEIGHT,
                shape,
                location: p,
                ticks_left: SPECIAL_FOOD_TICKS,
            },
        }
    }

    /// Whether this item occupies the cell `p`; a special also covers the
    /// cell directly right of its location.
    pub fn is_at(&self, p: &FieldPoint) -> (r: bool)
        ensures
            r == spec_is_at(*self, *p),
    {
        match self.shape {
            FoodType::Basic => self.location == *p,
            _ => self.location == *p || (self.location.x < u16::MAX && self.location.x + 1 == p.x
                && self.location.y == p.y),
        }
    }
}

/// Parameters a game is created with: the seeded body length of each snake,
/// the start cell and heading of the first snake, and the grid dimensions
/// `(width, height)`.
#[derive(Clone, Copy, Debug, PartialEq, Eq)]
pub struct GameConfig {
    pub size: u16,
    pub start: (u16, u16),
    pub dim: (u16, u16),
    pub direction: Direction,
}

/// A usable configuration: positive dimensions whose product fits the `u16`
/// cell index space, a start cell on the grid, and a seeded body that fits
/// along either axis without overlapping itself.
pub open spec fn config_wf(c: GameConfig) -> bool {
    &&& 1 <= c.dim.0
    &&& 1 <= c.dim.1
    &&& c.dim.0 * c.dim.1 <= u16::MAX
    &&& 1 <= c.size
    &&& c.size <= c.dim.0
    &&& c.size <= c.dim.1
    &&& c.start.0 < c.dim.0
    &&& c.start.1 < c.dim.1
}

impl Default for GameConfig {
    /// A single-player-friendly default: a 10 x 10 grid with a four-segment
    /// snake starting at (1, 0) heading right.
    fn default() -> (r: GameConfig)
        ensures
            r == (GameConfig {
                size: 4,
                start: (1, 0),
                dim: (10, 10),
                direction: Direction::Right,
            }),
            config_wf(r),
    {
        GameConfig { size: 4, start: (1, 0), dim: (10, 10), direction: Direction::Right }
    }
}

/// Stepping arithmetic on one axis: the branchy, overflow-free computations
/// agree with the modular definitions.
pub proof fn lemma_wrap_step(v: int, m: int)
    requires
        m >= 1,
        0 <= v,
    ensures
        (v + 1) % m == if v % m + 1 == m {
            0int
        } else {
            v % m + 1
        },
        (v + m - 1) % m == if v % m == 0 {
            m - 1
        } else {
            v % m - 1
        },
{
    vstd::arithmetic::div_mod::lemma_fundamental_div_mod(v, m);
    let q = v / m;
    let r = v % m;
    assert(v == q * m + r) by (nonlinear_arith)
        requires
            v == m * q + r,
    ;
    assert((q + 1) * m == q * m + m) by (nonlinear_arith);
    if r + 1 == m {
        vstd::arithmetic::div_mod::lemma_fundamental_div_mod_converse(v + 1, m, q + 1, 0);
    } else {
        vstd::arithmetic::div_mod::lemma_fundamental_div_mod_converse(v + 1, m, q, r + 1);
    }
    if r == 0 {
        vstd::arithmetic::div_mod::lemma_fundamental_div_mod_converse(v + m - 1, m, q, m - 1);
    } else {
        vstd::arithmetic::div_mod::lemma_fundamental_div_mod_converse(v + m - 1, m, q + 1, r - 1);
    }
}

} // verus!
