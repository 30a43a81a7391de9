//! The wire codec for full game snapshots: a stable, self-describing binary
//! format (fixed-width little-endian integers, deterministic field order)
//! that any client can decode without access to this source. Encoding and
//! decoding are exact inverses; decoding is total and rejects malformed
//! bytes instead of failing.

use std::collections::VecDeque;
use vstd::prelude::*;

use crate::food::{FoodField, FoodFieldView};
use crate::game::{Game, GameView};
use crate::snake::{Snake, SnakeNode, SnakeView};
use crate::types::{
    Direction, FieldPoint, Food, FoodType, GameConfig, GameState, WrappableDirection,
};

verus! {

// ---------------------------------------------------------------------------
// The format, as mathematical functions from values to byte sequences.
// ---------------------------------------------------------------------------

/// A 16-bit integer: two bytes, least significant first.
pub open spec fn spec_enc_u16(v: u16) -> Seq<u8> {
    seq![(v % 256) as u8, (v / 256) as u8]
}

/// A heading: one byte, the same numbering the client direction command
/// uses.
pub open spec fn spec_enc_direction(d: Direction) -> Seq<u8> {
    match d {
        Direction::Left => seq![0u8],
        Direction::Up => seq![1u8],
        Direction::Right => seq![2u8],
        Direction::Down => seq![3u8],
    }
}

/// A food shape: one byte.
pub open spec fn spec_enc_food_type(t: FoodType) -> Seq<u8> {
    match t {
        FoodType::Basic => seq![0u8],
        FoodType::Whale => seq![1u8],
        FoodType::Turtle => seq![2u8],
        FoodType::Chameleon => seq![3u8],
        FoodType::Elephant => seq![4u8],
        FoodType::Alien => seq![5u8],
        FoodType::Caterpillar => seq![6u8],
    }
}

/// A lifecycle state: one byte.
pub open spec fn spec_enc_state(s: GameState) -> Seq<u8> {
    match s {
        GameState::Idle => seq![0u8],
        GameState::Playing => seq![1u8],
        GameState::Quit => seq![2u8],
        GameState::Over => seq![3u8],
    }
}

/// A grid point: x then y.
pub open spec fn spec_enc_point(p: FieldPoint) -> Seq<u8> {
    spec_enc_u16(p.x) + spec_enc_u16(p.y)
}

/// A body segment: heading, cell, stuffed flag.
pub open spec fn spec_enc_node(n: SnakeNode) -> Seq<u8> {
    spec_enc_direction(n.direction) + spec_enc_point(n.position) + seq![
        if n.stuffed {
            1u8
        } else {
            0u8
        },
    ]
}

/// A wrapping heading: heading then bounds.
pub open spec fn spec_enc_wdir(d: WrappableDirection) -> Seq<u8> {
    spec_enc_direction(d.to) + spec_enc_point(d.max)
}

/// A food item: shape, cell, countdown, size, weight.
pub open spec fn spec_enc_food(f: Food) -> Seq<u8> {
    spec_enc_food_type(f.shape) + spec_enc_point(f.location) + spec_enc_u16(f.ticks_left) + seq![
        f.size,
        f.weight,
    ]
}

/// A configuration: seeded size, start cell, dimensions, heading.
pub open spec fn spec_enc_config(c: GameConfig) -> Seq<u8> {
    spec_enc_u16(c.size) + spec_enc_u16(c.start.0) + spec_enc_u16(c.start.1) + spec_enc_u16(
        c.dim.0,
    ) + spec_enc_u16(c.dim.1) + spec_enc_direction(c.direction)
}

/// A body: its segments in order, tail first.
pub open spec fn spec_enc_nodes(nodes: Seq<SnakeNode>) -> Seq<u8>
    decreases nodes.len(),
{
    if nodes.len() == 0 {
        Seq::empty()
    } else {
        spec_enc_node(nodes[0]) + spec_enc_nodes(nodes.drop_first())
    }
}

/// A snake: identifier, score, heading, then its counted body.
pub open spec fn spec_enc_snake(sv: SnakeView) -> Seq<u8> {
    spec_enc_u16(sv.id) + spec_enc_u16(sv.score) + spec_enc_wdir(sv.direction) + spec_enc_u16(
        sv.nodes.len() as u16,
    ) + spec_enc_nodes(sv.nodes)
}

/// The food items in order.
pub open spec fn spec_enc_foods(foods: Seq<Food>) -> Seq<u8>
    decreases foods.len(),
{
    if foods.len() == 0 {
        Seq::empty()
    } else {
        spec_enc_food(foods[0]) + spec_enc_foods(foods.drop_first())
    }
}

/// The rotating bag's shapes in order.
pub open spec fn spec_enc_bag(bag: Seq<FoodType>) -> Seq<u8>
    decreases bag.len(),
{
    if bag.len() == 0 {
        Seq::empty()
    } else {
        spec_enc_food_type(bag[0]) + spec_enc_bag(bag.drop_first())
    }
}

/// A food inventory: minimum, spawn counter, counted bag, counted items.
pub open spec fn spec_enc_food_field(fv: FoodFieldView) -> Seq<u8> {
    spec_enc_u16(fv.minimum) + spec_enc_u16(fv.count) + spec_enc_u16(fv.bag.len() as u16)
        + spec_enc_bag(fv.bag) + spec_enc_u16(fv.foods.len() as u16) + spec_enc_foods(fv.foods)
}

/// The snakes in order.
pub open spec fn spec_enc_snakes(snakes: Seq<SnakeView>) -> Seq<u8>
    decreases snakes.len(),
{
    if snakes.len() == 0 {
        Seq::empty()
    } else {
        spec_enc_snake(snakes[0]) + spec_enc_snakes(snakes.drop_first())
    }
}

/// The mathematical value of one full snapshot.
#[verifier::ext_equal]
pub ghost struct GameDataView {
    pub config: GameConfig,
    pub snakes: Seq<SnakeView>,
    pub food: FoodFieldView,
    pub state: GameState,
}

/// A whole snapshot: configuration, state, food inventory, counted snakes.
pub open spec fn spec_enc_game_data(gd: GameDataView) -> Seq<u8> {
    spec_enc_config(gd.config) + spec_enc_state(gd.state) + spec_enc_food_field(gd.food)
        + spec_enc_u16(gd.snakes.len() as u16) + spec_enc_snakes(gd.snakes)
}

/// Whether every counted collection in the snapshot fits its 16-bit length
/// field.
pub open spec fn enc_wf(gd: GameDataView) -> bool {
    &&& gd.snakes.len() <= u16::MAX
    &&& gd.food.foods.len() <= u16::MAX
    &&& gd.food.bag.len() <= u16::MAX
    &&& forall|s: int|
        0 <= s < gd.snakes.len() ==> (#[trigger] gd.snakes[s]).nodes.len() <= u16::MAX
}

// ---------------------------------------------------------------------------
// Executable encoders: byte-for-byte what the format functions say.
// ---------------------------------------------------------------------------

/// Appends a 16-bit integer.
fn enc_u16(out: &mut Vec<u8>, v: u16)
    ensures
        final(out)@ == old(out)@ + spec_enc_u16(v),
{
    out.push((v % 256) as u8);
    out.push((v / 256) as u8);
    proof {
        assert(out@ =~= old(out)@ + spec_enc_u16(v));
    }
}

/// Appends a heading byte.
fn enc_direction(out: &mut Vec<u8>, d: Direction)
    ensures
        final(out)@ == old(out)@ + spec_enc_direction(d),
{
    let b: u8 = match d {
        Direction::Left => 0,
        Direction::Up => 1,
        Direction::Right => 2,
        Direction::Down => 3,
    };
    out.push(b);
    proof {
        assert(out@ =~= old(out)@ + spec_enc_direction(d));
    }
}

/// Appends a shape byte.
fn enc_food_type(out: &mut Vec<u8>, t: FoodType)
    ensures
        final(out)@ == old(out)@ + spec_enc_food_type(t),
{
    let b: u8 = match t {
        FoodType::Basic => 0,
        FoodType::Whale => 1,
        FoodType::Turtle => 2,
        FoodType::Chameleon => 3,
        FoodType::Elephant => 4,
        FoodType::Alien => 5,
        FoodType::Caterpillar => 6,
    };
    out.push(b);
    proof {
        assert(out@ =~= old(out)@ + spec_enc_food_type(t));
    }
}

/// Appends a state byte.
fn enc_state(out: &mut Vec<u8>, s: GameState)
    ensures
        final(out)@ == old(out)@ + spec_enc_state(s),
{
    let b: u8 = match s {
        GameState::Idle => 0,
        GameState::Playing => 1,
        GameState::Quit => 2,
        GameState::Over => 3,
    };
    out.push(b);
    proof {
        assert(out@ =~= old(out)@ + spec_enc_state(s));
    }
}

/// Appends a grid point.
fn enc_point(out: &mut Vec<u8>, p: FieldPoint)
    ensures
        final(out)@ == old(out)@ + spec_enc_point(p),
{
    enc_u16(out, p.x);
    enc_u16(out, p.y);
    proof {
        assert(out@ =~= old(out)@ + spec_enc_point(p));
    }
}

/// Appends a body segment.
fn enc_node(out: &mut Vec<u8>, n: SnakeNode)
    ensures
        final(out)@ == old(out)@ + spec_enc_node(n),
{
    enc_direction(out, n.direction);
    enc_point(out, n.position);
    out.push(
        if n.stuffed {
            1
        } else {
            0
        },
    );
    proof {
        assert(out@ =~= old(out)@ + spec_enc_node(n));
    }
}

/// Appends a wrapping heading.
fn enc_wdir(out: &mut Vec<u8>, d: WrappableDirection)
    ensures
        final(out)@ == old(out)@ + spec_enc_wdir(d),
{
    enc_direction(out, d.to);
    enc_point(out, d.max);
    proof {
        assert(out@ =~= old(out)@ + spec_enc_wdir(d));
    }
}

/// Appends a food item.
fn enc_food(out: &mut Vec<u8>, f: Food)
    ensures
        final(out)@ == old(out)@ + spec_enc_food(f),
{
    enc_food_type(out, f.shape);
    enc_point(out, f.location);
    enc_u16(out, f.ticks_left);
    out.push(f.size);
    out.push(f.weight);
    proof {
        assert(out@ =~= old(out)@ + spec_enc_food(f));
    }
}

/// Appends a configuration.
fn enc_config(out: &mut Vec<u8>, c: GameConfig)
    ensures
        final(out)@ == old(out)@ + spec_enc_config(c),
{
    enc_u16(out, c.size);
    enc_u16(out, c.start.0);
    enc_u16(out, c.start.1);
    enc_u16(out, c.dim.0);
    enc_u16(out, c.dim.1);
    enc_direction(out, c.direction);
    proof {
        assert(out@ =~= old(out)@ + spec_enc_config(c));
    }
}

/// One encoded item peeled off the front extends the item encoding.
proof fn lemma_enc_nodes_step(nodes: Seq<SnakeNode>, i: int)
    requires
        0 <= i < nodes.len(),
    ensures
        spec_enc_nodes(nodes.skip(i)) == spec_enc_node(nodes[i]) + spec_enc_nodes(
            nodes.skip(i + 1),
        ),
{
    assert(nodes.skip(i)[0] == nodes[i]);
    assert(nodes.skip(i).drop_first() =~= nodes.skip(i + 1));
}

/// Appends every body segment in order.
#[verifier::loop_isolation(false)]
fn enc_nodes(out: &mut Vec<u8>, nodes: &VecDeque<SnakeNode>)
    ensures
        final(out)@ == old(out)@ + spec_enc_nodes(nodes@),
{
    let mut i: usize = 0;
    proof {
        assert(nodes@.skip(0) =~= nodes@);
    }
    while i < nodes.len()
        invariant
            0 <= i <= nodes@.len(),
            out@ + spec_enc_nodes(nodes@.skip(i as int)) == old(out)@ + spec_enc_nodes(nodes@),
        decreases nodes@.len() - i,
    {
        proof {
            lemma_enc_nodes_step(nodes@, i as int);
        }
        let ghost before = out@;
        enc_node(out, nodes[i]);
        i = i + 1;
        proof {
            assert(out@ + spec_enc_nodes(nodes@.skip(i as int)) =~= before + spec_enc_nodes(
                nodes@.skip(i as int - 1),
            ));
        }
    }
    proof {
        assert(nodes@.skip(nodes@.len() as int) =~= Seq::<SnakeNode>::empty());
        assert(out@ =~= out@ + spec_enc_nodes(nodes@.skip(nodes@.len() as int)));
        assert(out@ =~= old(out)@ + spec_enc_nodes(nodes@));
    }
}

/// Appends a snake.
fn enc_snake(out: &mut Vec<u8>, snake: &Snake)
    requires
        snake@.nodes.len() <= u16::MAX,
    ensures
        final(out)@ == old(out)@ + spec_enc_snake(snake@),
{
    enc_u16(out, snake.id);
    enc_u16(out, snake.score);
    enc_wdir(out, snake.direction);
    enc_u16(out, snake.nodes.len() as u16);
    enc_nodes(out, &snake.nodes);
    proof {
        assert(out@ =~= old(out)@ + spec_enc_snake(snake@));
    }
}

/// One encoded food item peeled off the front.
proof fn lemma_enc_foods_step(foods: Seq<Food>, i: int)
    requires
        0 <= i < foods.len(),
    ensures
        spec_enc_foods(foods.skip(i)) == spec_enc_food(foods[i]) + spec_enc_foods(
            foods.skip(i + 1),
        ),
{
    assert(foods.skip(i)[0] == foods[i]);
    assert(foods.skip(i).drop_first() =~= foods.skip(i + 1));
}

/// One encoded bag shape peeled off the front.
proof fn lemma_enc_bag_step(bag: Seq<FoodType>, i: int)
    requires
        0 <= i < bag.len(),
    ensures
        spec_enc_bag(bag.skip(i)) == spec_enc_food_type(bag[i]) + spec_enc_bag(bag.skip(i + 1)),
{
    assert(bag.skip(i)[0] == bag[i]);
    assert(bag.skip(i).drop_first() =~= bag.skip(i + 1));
}

/// One encoded snake peeled off the front.
proof fn lemma_enc_snakes_step(snakes: Seq<SnakeView>, i: int)
    requires
        0 <= i < snakes.len(),
    ensures
        spec_enc_snakes(snakes.skip(i)) == spec_enc_snake(snakes[i]) + spec_enc_snakes(
            snakes.skip(i + 1),
        ),
{
    assert(snakes.skip(i)[0] == snakes[i]);
    assert(snakes.skip(i).drop_first() =~= snakes.skip(i + 1));
}

/// Appends a whole food inventory.
#[verifier::loop_isolation(false)]
fn enc_food_field(out: &mut Vec<u8>, food: &FoodField)
    requires
        food@.foods.len() <= u16::MAX,
        food@.bag.len() <= u16::MAX,
    ensures
        final(out)@ == old(out)@ + spec_enc_food_field(food@),
{
    enc_u16(out, food.minimum);
    enc_u16(out, food.count);
    enc_u16(out, food.bag.len() as u16);
    let ghost mid0 = out@;
    let mut i: usize = 0;
    proof {
        assert(food.bag@.skip(0) =~= food.bag@);
    }
    while i < food.bag.len()
        invariant
            0 <= i <= food.bag@.len(),
            out@ + spec_enc_bag(food.bag@.skip(i as int)) == mid0 + spec_enc_bag(food.bag@),
        decreases food.bag@.len() - i,
    {
        proof {
            lemma_enc_bag_step(food.bag@, i as int);
        }
        let ghost before = out@;
        enc_food_type(out, food.bag[i]);
        i = i + 1;
        proof {
            assert(out@ + spec_enc_bag(food.bag@.skip(i as int)) =~= before + spec_enc_bag(
                food.bag@.skip(i as int - 1),
            ));
        }
    }
    proof {
        assert(food.bag@.skip(food.bag@.len() as int) =~= Seq::<FoodType>::empty());
        assert(out@ =~= out@ + spec_enc_bag(food.bag@.skip(food.bag@.len() as int)));
    }
    enc_u16(out, food.foods.len() as u16);
    let ghost mid1 = out@;
    let mut j: usize = 0;
    proof {
        assert(food.foods@.skip(0) =~= food.foods@);
    }
    while j < food.foods.len()
        invariant
            0 <= j <= food.foods@.len(),
            out@ + spec_enc_foods(food.foods@.skip(j as int)) == mid1 + spec_enc_foods(
                food.foods@,
            ),
        decreases food.foods@.len() - j,
    {
        proof {
            lemma_enc_foods_step(food.foods@, j as int);
        }
        let ghost before = out@;
        enc_food(out, food.foods[j]);
        j = j + 1;
        proof {
            assert(out@ + spec_enc_foods(food.foods@.skip(j as int)) =~= before + spec_enc_foods(
                food.foods@.skip(j as int - 1),
            ));
        }
    }
    proof {
        assert(food.foods@.skip(food.foods@.len() as int) =~= Seq::<Food>::empty());
        assert(out@ =~= out@ + spec_enc_foods(food.foods@.skip(food.foods@.len() as int)));
        assert(out@ =~= old(out)@ + spec_enc_food_field(food@));
    }
}

/// A full game snapshot as it travels to clients: the configuration, every
/// snake, the food inventory, and the lifecycle state.
#[derive(Debug)]
pub struct GameData {
    pub config: GameConfig,
    pub snakes: Vec<Snake>,
    pub food: FoodField,
    pub state: GameState,
}

impl View for GameData {
    type V = GameDataView;

    open spec fn view(&self) -> GameDataView {
        GameDataView {
            config: self.config,
            snakes: self.snakes@.map_values(|s: Snake| s@),
            food: self.food@,
            state: self.state,
        }
    }
}

impl GameData {
    /// Copies the snapshot-relevant parts out of a live game.
    pub fn from_game(game: &Game) -> (r: GameData)
        ensures
            r@.config == game@.config,
            r@.snakes == game@.snakes,
            r@.food == game@.food,
            r@.state == game@.state,
    {
        let mut snakes: Vec<Snake> = Vec::new();
        let mut i: usize = 0;
        while i < game.snakes.len()
            invariant
                0 <= i <= game.snakes@.len(),
                snakes@.len() == i,
                forall|k: int| 0 <= k < i ==> (#[trigger] snakes@[k])@ == game.snakes@[k]@,
            decreases game.snakes@.len() - i,
        {
            snakes.push(copy_snake(&game.snakes[i]));
            i = i + 1;
        }
        let r = GameData {
            config: game.config,
            snakes,
            food: copy_food_field(&game.food),
            state: game.state,
        };
        proof {
            assert(r@.snakes =~= game@.snakes);
        }
        r
    }

    /// Serializes this snapshot into the wire format.
    pub fn encode(&self) -> (r: Vec<u8>)
        requires
            enc_wf(self@),
        ensures
            r@ == spec_enc_game_data(self@),
    {
        let mut out: Vec<u8> = Vec::new();
        enc_config(&mut out, self.config);
        enc_state(&mut out, self.state);
        enc_food_field(&mut out, &self.food);
        enc_u16(&mut out, self.snakes.len() as u16);
        let ghost mid = out@;
        let mut i: usize = 0;
        proof {
            assert(self@.snakes.skip(0) =~= self@.snakes);
        }
        while i < self.snakes.len()
            invariant
                0 <= i <= self.snakes@.len(),
                enc_wf(self@),
                out@ + spec_enc_snakes(self@.snakes.skip(i as int)) == mid + spec_enc_snakes(
                    self@.snakes,
                ),
            decreases self.snakes@.len() - i,
        {
            proof {
                lemma_enc_snakes_step(self@.snakes, i as int);
                assert(self@.snakes[i as int].nodes.len() <= u16::MAX);
                assert(self@.snakes[i as int] == self.snakes@[i as int]@);
            }
            let ghost before = out@;
            enc_snake(&mut out, &self.snakes[i]);
            i = i + 1;
            proof {
                assert(out@ + spec_enc_snakes(self@.snakes.skip(i as int)) =~= before
                    + spec_enc_snakes(self@.snakes.skip(i as int - 1)));
            }
        }
        proof {
            assert(self@.snakes.skip(self@.snakes.len() as int) =~= Seq::<SnakeView>::empty());
            assert(out@ =~= out@ + spec_enc_snakes(self@.snakes.skip(self@.snakes.len() as int)));
            assert(out@ =~= spec_enc_game_data(self@));
        }
        out
    }
}

// ---------------------------------------------------------------------------
// The format read back: total mathematical parsers, and executable decoders
// pinned to them byte for byte. Malformed input yields nothing, never a
// failure.
// ---------------------------------------------------------------------------

/// Reads one byte.
pub open spec fn spec_dec_u8(data: Seq<u8>, pos: int) -> Option<(u8, int)> {
    if 0 <= pos && pos + 1 <= data.len() {
        Some((data[pos], pos + 1))
    } else {
        None
    }
}

/// Reads a 16-bit integer, least significant byte first.
pub open spec fn spec_dec_u16(data: Seq<u8>, pos: int) -> Option<(u16, int)> {
    if 0 <= pos && pos + 2 <= data.len() {
        Some(((data[pos] + 256 * data[pos + 1]) as u16, pos + 2))
    } else {
        None
    }
}

/// Reads a heading byte.
pub open spec fn spec_dec_direction(data: Seq<u8>, pos: int) -> Option<(Direction, int)> {
    match spec_dec_u8(data, pos) {
        Some((b, p)) => if b == 0 {
            Some((Direction::Left, p))
        } else if b == 1 {
            Some((Direction::Up, p))
        } else if b == 2 {
            Some((Direction::Right, p))
        } else if b == 3 {
            Some((Direction::Down, p))
        } else {
            None
        },
        None => None,
    }
}

/// Reads a shape byte.
pub open spec fn spec_dec_food_type(data: Seq<u8>, pos: int) -> Option<(FoodType, int)> {
    match spec_dec_u8(data, pos) {
        Some((b, p)) => if b == 0 {
            Some((FoodType::Basic, p))
        } else if b == 1 {
            Some((FoodType::Whale, p))
        } else if b == 2 {
            Some((FoodType::Turtle, p))
        } else if b == 3 {
            Some((FoodType::Chameleon, p))
        } else if b == 4 {
            Some((FoodType::Elephant, p))
        } else if b == 5 {
            Some((FoodType::Alien, p))
        } else if b == 6 {
            Some((FoodType::Caterpillar, p))
        } else {
            None
        },
        None => None,
    }
}

/// Reads a lifecycle state byte.
pub open spec fn spec_dec_state(data: Seq<u8>, pos: int) -> Option<(GameState, int)> {
    match spec_dec_u8(data, pos) {
        Some((b, p)) => if b == 0 {
            Some((GameState::Idle, p))
        } else if b == 1 {
            Some((GameState::Playing, p))
        } else if b == 2 {
            Some((GameState::Quit, p))
        } else if b == 3 {
            Some((GameState::Over, p))
        } else {
            None
        },
        None => None,
    }
}

/// Reads a grid point.
pub open spec fn spec_dec_point(data: Seq<u8>, pos: int) -> Option<(FieldPoint, int)> {
    match spec_dec_u16(data, pos) {
        Some((x, p1)) => match spec_dec_u16(data, p1) {
            Some((y, p2)) => Some((FieldPoint { x, y }, p2)),
            None => None,
        },
        None => None,
    }
}

/// Reads a body segment.
pub open spec fn spec_dec_node(data: Seq<u8>, pos: int) -> Option<(SnakeNode, int)> {
    match spec_dec_direction(data, pos) {
        Some((d, p1)) => match spec_dec_point(data, p1) {
            Some((q, p2)) => match spec_dec_u8(data, p2) {
                Some((b, p3)) => if b == 0 {
                    Some((SnakeNode { direction: d, position: q, stuffed: false }, p3))
                } else if b == 1 {
                    Some((SnakeNode { direction: d, position: q, stuffed: true }, p3))
                } else {
                    None
                },
                None => None,
            },
            None => None,
        },
        None => None,
    }
}

/// Reads a wrapping heading.
pub open spec fn spec_dec_wdir(data: Seq<u8>, pos: int) -> Option<(WrappableDirection, int)> {
    match spec_dec_direction(data, pos) {
        Some((to, p1)) => match spec_dec_point(data, p1) {
            Some((max, p2)) => Some((WrappableDirection { to, max }, p2)),
            None => None,
        },
        None => None,
    }
}

/// Reads a food item.
pub open spec fn spec_dec_food(data: Seq<u8>, pos: int) -> Option<(Food, int)> {
    match spec_dec_food_type(data, pos) {
        Some((shape, p1)) => match spec_dec_point(data, p1) {
            Some((location, p2)) => match spec_dec_u16(data, p2) {
                Some((ticks_left, p3)) => match spec_dec_u8(data, p3) {
                    Some((size, p4)) => match spec_dec_u8(data, p4) {
                        Some((weight, p5)) => Some(
                            (Food { size, weight, shape, location, ticks_left }, p5),
                        ),
                        None => None,
                    },
                    None => None,
                },
                None => None,
            },
            None => None,
        },
        None => None,
    }
}

/// Reads a configuration.
pub open spec fn spec_dec_config(data: Seq<u8>, pos: int) -> Option<(GameConfig, int)> {
    match spec_dec_u16(data, pos) {
        Some((size, p1)) => match spec_dec_u16(data, p1) {
            Some((sx, p2)) => match spec_dec_u16(data, p2) {
                Some((sy, p3)) => match spec_dec_u16(data, p3) {
                    Some((dx, p4)) => match spec_dec_u16(data, p4) {
                        Some((dy, p5)) => match spec_dec_direction(data, p5) {
                            Some((direction, p6)) => Some(
                                (
                                    GameConfig {
                                        size,
                                        start: (sx, sy),
                                        dim: (dx, dy),
                                        direction,
                                    },
                                    p6,
                                ),
                            ),
                            None => None,
                        },
                        None => None,
                    },
                    None => None,
                },
                None => None,
            },
            None => None,
        },
        None => None,
    }
}

/// Reads exactly `n` body segments.
pub open spec fn spec_dec_nodes_n(data: Seq<u8>, pos: int, n: nat) -> Option<
    (Seq<SnakeNode>, int),
>
    decreases n,
{
    if n == 0 {
        Some((Seq::empty(), pos))
    } else {
        match spec_dec_node(data, pos) {
            Some((x, p1)) => match spec_dec_nodes_n(data, p1, (n - 1) as nat) {
                Some((xs, p2)) => Some((seq![x] + xs, p2)),
                None => None,
            },
            None => None,
        }
    }
}

/// Reads a snake.
pub open spec fn spec_dec_snake(data: Seq<u8>, pos: int) -> Option<(SnakeView, int)> {
    match spec_dec_u16(data, pos) {
        Some((id, p1)) => match spec_dec_u16(data, p1) {
            Some((score, p2)) => match spec_dec_wdir(data, p2) {
                Some((direction, p3)) => match spec_dec_u16(data, p3) {
                    Some((n, p4)) => match spec_dec_nodes_n(data, p4, n as nat) {
                        Some((nodes, p5)) => Some(
                            (SnakeView { nodes, direction, score, id }, p5),
                        ),
                        None => None,
                    },
                    None => None,
                },
                None => None,
            },
            None => None,
        },
        None => None,
    }
}

/// Reads exactly `n` food items.
pub open spec fn spec_dec_foods_n(data: Seq<u8>, pos: int, n: nat) -> Option<(Seq<Food>, int)>
    decreases n,
{
    if n == 0 {
        Some((Seq::empty(), pos))
    } else {
        match spec_dec_food(data, pos) {
            Some((x, p1)) => match spec_dec_foods_n(data, p1, (n - 1) as nat) {
                Some((xs, p2)) => Some((seq![x] + xs, p2)),
                None => None,
            },
            None => None,
        }
    }
}

/// Reads exactly `n` bag shapes.
pub open spec fn spec_dec_bag_n(data: Seq<u8>, pos: int, n: nat) -> Option<(Seq<FoodType>, int)>
    decreases n,
{
    if n == 0 {
        Some((Seq::empty(), pos))
    } else {
        match spec_dec_food_type(data, pos) {
            Some((x, p1)) => match spec_dec_bag_n(data, p1, (n - 1) as nat) {
                Some((xs, p2)) => Some((seq![x] + xs, p2)),
                None => None,
            },
            None => None,
        }
    }
}

/// Reads a food inventory.
pub open spec fn spec_dec_food_field(data: Seq<u8>, pos: int) -> Option<(FoodFieldView, int)> {
    match spec_dec_u16(data, pos) {
        Some((minimum, p1)) => match spec_dec_u16(data, p1) {
            Some((count, p2)) => match spec_dec_u16(data, p2) {
                Some((nb, p3)) => match spec_dec_bag_n(data, p3, nb as nat) {
                    Some((bag, p4)) => match spec_dec_u16(data, p4) {
                        Some((nf, p5)) => match spec_dec_foods_n(data, p5, nf as nat) {
                            Some((foods, p6)) => Some(
                                (FoodFieldView { foods, minimum, count, bag }, p6),
                            ),
                            None => None,
                        },
                        None => None,
                    },
                    None => None,
                },
                None => None,
            },
            None => None,
        },
        None => None,
    }
}

/// Reads exactly `n` snakes.
pub open spec fn spec_dec_snakes_n(data: Seq<u8>, pos: int, n: nat) -> Option<
    (Seq<SnakeView>, int),
>
    decreases n,
{
    if n == 0 {
        Some((Seq::empty(), pos))
    } else {
        match spec_dec_snake(data, pos) {
            Some((x, p1)) => match spec_dec_snakes_n(data, p1, (n - 1) as nat) {
                Some((xs, p2)) => Some((seq![x] + xs, p2)),
                None => None,
            },
            None => None,
        }
    }
}

/// Reads a whole snapshot.
pub open spec fn spec_dec_game_data(data: Seq<u8>, pos: int) -> Option<(GameDataView, int)> {
    match spec_dec_config(data, pos) {
        Some((config, p1)) => match spec_dec_state(data, p1) {
            Some((state, p2)) => match spec_dec_food_field(data, p2) {
                Some((food, p3)) => match spec_dec_u16(data, p3) {
                    Some((n, p4)) => match spec_dec_snakes_n(data, p4, n as nat) {
                        Some((snakes, p5)) => Some(
                            (GameDataView { config, snakes, food, state }, p5),
                        ),
                        None => None,
                    },
                    None => None,
                },
                None => None,
            },
            None => None,
        },
        None => None,
    }
}

/// Reads a 16-bit integer.
fn dec_u16(data: &[u8], pos: usize) -> (r: Option<(u16, usize)>)
    ensures
        spec_dec_u16(data@, pos as int) == match r {
            Some((v, p)) => Some((v, p as int)),
            None => None::<(u16, int)>,
        },
{
    if pos < data.len() && data.len() - pos >= 2 {
        let lo = data[pos];
        let hi = data[pos + 1];
        Some(((lo as u16) + 256 * (hi as u16), pos + 2))
    } else {
        None
    }
}

/// Reads one raw byte.
fn dec_u8(data: &[u8], pos: usize) -> (r: Option<(u8, usize)>)
    ensures
        spec_dec_u8(data@, pos as int) == match r {
            Some((v, p)) => Some((v, p as int)),
            None => None::<(u8, int)>,
        },
{
    if pos < data.len() {
        Some((data[pos], pos + 1))
    } else {
        None
    }
}

/// Reads a heading.
fn dec_direction(data: &[u8], pos: usize) -> (r: Option<(Direction, usize)>)
    ensures
        spec_dec_direction(data@, pos as int) == match r {
            Some((v, p)) => Some((v, p as int)),
            None => None::<(Direction, int)>,
        },
{
    match dec_u8(data, pos) {
        Some((b, p)) => match b {
            0 => Some((Direction::Left, p)),
            1 => Some((Direction::Up, p)),
            2 => Some((Direction::Right, p)),
            3 => Some((Direction::Down, p)),
            _ => None,
        },
        None => None,
    }
}

/// Reads a shape.
fn dec_food_type(data: &[u8], pos: usize) -> (r: Option<(FoodType, usize)>)
    ensures
        spec_dec_food_type(data@, pos as int) == match r {
            Some((v, p)) => Some((v, p as int)),
            None => None::<(FoodType, int)>,
        },
{
    match dec_u8(data, pos) {
        Some((b, p)) => match b {
            0 => Some((FoodType::Basic, p)),
            1 => Some((FoodType::Whale, p)),
            2 => Some((FoodType::Turtle, p)),
            3 => Some((FoodType::Chameleon, p)),
            4 => Some((FoodType::Elephant, p)),
            5 => Some((FoodType::Alien, p)),
            6 => Some((FoodType::Caterpillar, p)),
            _ => None,
        },
        None => None,
    }
}

/// Reads a lifecycle state.
fn dec_state(data: &[u8], pos: usize) -> (r: Option<(GameState, usize)>)
    ensures
        spec_dec_state(data@, pos as int) == match r {
            Some((v, p)) => Some((v, p as int)),
            None => None::<(GameState, int)>,
        },
{
    match dec_u8(data, pos) {
        Some((b, p)) => match b {
            0 => Some((GameState::Idle, p)),
            1 => Some((GameState::Playing, p)),
            2 => Some((GameState::Quit, p)),
            3 => Some((GameState::Over, p)),
            _ => None,
        },
        None => None,
    }
}

/// Reads a grid point.
fn dec_point(data: &[u8], pos: usize) -> (r: Option<(FieldPoint, usize)>)
    ensures
        spec_dec_point(data@, pos as int) == match r {
            Some((v, p)) => Some((v, p as int)),
            None => None::<(FieldPoint, int)>,
        },
{
    match dec_u16(data, pos) {
        Some((x, p1)) => match dec_u16(data, p1) {
            Some((y, p2)) => Some((FieldPoint { x, y }, p2)),
            None => None,
        },
        None => None,
    }
}

/// Reads a body segment.
fn dec_node(data: &[u8], pos: usize) -> (r: Option<(SnakeNode, usize)>)
    ensures
        spec_dec_node(data@, pos as int) == match r {
            Some((v, p)) => Some((v, p as int)),
            None => None::<(SnakeNode, int)>,
        },
{
    match dec_direction(data, pos) {
        Some((d, p1)) => match dec_point(data, p1) {
            Some((q, p2)) => match dec_u8(data, p2) {
                Some((b, p3)) => match b {
                    0 => Some((SnakeNode { direction: d, position: q, stuffed: false }, p3)),
                    1 => Some((SnakeNode { direction: d, position: q, stuffed: true }, p3)),
                    _ => None,
                },
                None => None,
            },
            None => None,
        },
        None => None,
    }
}

/// Reads a wrapping heading.
fn dec_wdir(data: &[u8], pos: usize) -> (r: Option<(WrappableDirection, usize)>)
    ensures
        spec_dec_wdir(data@, pos as int) == match r {
            Some((v, p)) => Some((v, p as int)),
            None => None::<(WrappableDirection, int)>,
        },
{
    match dec_direction(data, pos) {
        Some((to, p1)) => match dec_point(data, p1) {
            Some((max, p2)) => Some((WrappableDirection { to, max }, p2)),
            None => None,
        },
        None => None,
    }
}

/// Reads a food item.
fn dec_food(data: &[u8], pos: usize) -> (r: Option<(Food, usize)>)
    ensures
        spec_dec_food(data@, pos as int) == match r {
            Some((v, p)) => Some((v, p as int)),
            None => None::<(Food, int)>,
        },
{
    match dec_food_type(data, pos) {
        Some((shape, p1)) => match dec_point(data, p1) {
            Some((location, p2)) => match dec_u16(data, p2) {
                Some((ticks_left, p3)) => match dec_u8(data, p3) {
                    Some((size, p4)) => match dec_u8(data, p4) {
                        Some((weight, p5)) => Some(
                            (Food { size, weight, shape, location, ticks_left }, p5),
                        ),
                        None => None,
                    },
                    None => None,
                },
                None => None,
            },
            None => None,
        },
        None => None,
    }
}

/// Reads a configuration.
fn dec_config(data: &[u8], pos: usize) -> (r: Option<(GameConfig, usize)>)
    ensures
        spec_dec_config(data@, pos as int) == match r {
            Some((v, p)) => Some((v, p as int)),
            None => None::<(GameConfig, int)>,
        },
{
    match dec_u16(data, pos) {
        Some((size, p1)) => match dec_u16(data, p1) {
            Some((sx, p2)) => match dec_u16(data, p2) {
                Some((sy, p3)) => match dec_u16(data, p3) {
                    Some((dx, p4)) => match dec_u16(data, p4) {
                        Some((dy, p5)) => match dec_direction(data, p5) {
                            Some((direction, p6)) => Some(
                                (
                                    GameConfig {
                                        size,
                                        start: (sx, sy),
                                        dim: (dx, dy),
                                        direction,
                                    },
                                    p6,
                                ),
                            ),
                            None => None,
                        },
                        None => None,
                    },
                    None => None,
                },
                None => None,
            },
            None => None,
        },
        None => None,
    }
}

/// Reading `m + n` items is reading `m`, then `n` more.
proof fn lemma_dec_nodes_n_peel(data: Seq<u8>, pos: int, n: nat, i: nat, acc: Seq<SnakeNode>)
    requires
        i < n,
    ensures
        ({
            let step = spec_dec_node(data, pos);
            match step {
                Some((x, p1)) => (match spec_dec_nodes_n(data, p1, (n - i - 1) as nat) {
                    Some((xs, p2)) => Some((acc + (seq![x] + xs), p2)),
                    None => None::<(Seq<SnakeNode>, int)>,
                }) == (match spec_dec_nodes_n(data, p1, (n - i - 1) as nat) {
                    Some((xs, p2)) => Some(((acc.push(x)) + xs, p2)),
                    None => None::<(Seq<SnakeNode>, int)>,
                }),
                None => true,
            }
        }),
{
    let step = spec_dec_node(data, pos);
    if step is Some {
        let (x, p1) = step->Some_0;
        match spec_dec_nodes_n(data, p1, (n - i - 1) as nat) {
            Some((xs, p2)) => {
                assert(acc + (seq![x] + xs) =~= (acc.push(x)) + xs);
            },
            None => {},
        }
    }
}

/// Reads exactly `n` body segments into a deque.
#[verifier::loop_isolation(false)]
fn dec_nodes_n(data: &[u8], pos: usize, n: u16) -> (r: Option<(VecDeque<SnakeNode>, usize)>)
    ensures
        spec_dec_nodes_n(data@, pos as int, n as nat) == match r {
            Some((v, p)) => Some((v@, p as int)),
            None => None::<(Seq<SnakeNode>, int)>,
        },
{
    let mut acc: VecDeque<SnakeNode> = VecDeque::new();
    let mut cur = pos;
    let mut i: u16 = 0;
    while i < n
        invariant
            0 <= i <= n,
            acc@.len() == i,
            spec_dec_nodes_n(data@, pos as int, n as nat) == (match spec_dec_nodes_n(
                data@,
                cur as int,
                (n - i) as nat,
            ) {
                Some((xs, p)) => Some((acc@ + xs, p)),
                None => None::<(Seq<SnakeNode>, int)>,
            }),
        decreases n - i,
    {
        match dec_node(data, cur) {
            Some((x, p1)) => {
                proof {
                    lemma_dec_nodes_n_peel(data@, cur as int, n as nat, i as nat, acc@);
                }
                acc.push_back(x);
                cur = p1;
                i = i + 1;
            },
            None => {
                return None;
            },
        }
    }
    proof {
        assert(acc@ + Seq::<SnakeNode>::empty() =~= acc@);
    }
    Some((acc, cur))
}

/// Reads a snake.
fn dec_snake(data: &[u8], pos: usize) -> (r: Option<(Snake, usize)>)
    ensures
        spec_dec_snake(data@, pos as int) == match r {
            Some((v, p)) => Some((v@, p as int)),
            None => None::<(SnakeView, int)>,
        },
{
    match dec_u16(data, pos) {
        Some((id, p1)) => match dec_u16(data, p1) {
            Some((score, p2)) => match dec_wdir(data, p2) {
                Some((direction, p3)) => match dec_u16(data, p3) {
                    Some((n, p4)) => match dec_nodes_n(data, p4, n) {
                        Some((nodes, p5)) => Some(
                            (Snake { nodes, direction, score, id }, p5),
                        ),
                        None => None,
                    },
                    None => None,
                },
                None => None,
            },
            None => None,
        },
        None => None,
    }
}

/// The peel step for food items.
proof fn lemma_dec_foods_n_peel(data: Seq<u8>, pos: int, left: nat, acc: Seq<Food>)
    requires
        left >= 1,
    ensures
        ({
            match spec_dec_food(data, pos) {
                Some((x, p1)) => (match spec_dec_foods_n(data, p1, (left - 1) as nat) {
                    Some((xs, p2)) => Some((acc + (seq![x] + xs), p2)),
                    None => None::<(Seq<Food>, int)>,
                }) == (match spec_dec_foods_n(data, p1, (left - 1) as nat) {
                    Some((xs, p2)) => Some(((acc.push(x)) + xs, p2)),
                    None => None::<(Seq<Food>, int)>,
                }),
                None => true,
            }
        }),
{
    match spec_dec_food(data, pos) {
        Some((x, p1)) => {
            match spec_dec_foods_n(data, p1, (left - 1) as nat) {
                Some((xs, p2)) => {
                    assert(acc + (seq![x] + xs) =~= (acc.push(x)) + xs);
                },
                None => {},
            }
        },
        None => {},
    }
}

/// Reads exactly `n` food items.
#[verifier::loop_isolation(false)]
fn dec_foods_n(data: &[u8], pos: usize, n: u16) -> (r: Option<(Vec<Food>, usize)>)
    ensures
        spec_dec_foods_n(data@, pos as int, n as nat) == match r {
            Some((v, p)) => Some((v@, p as int)),
            None => None::<(Seq<Food>, int)>,
        },
{
    let mut acc: Vec<Food> = Vec::new();
    let mut cur = pos;
    let mut i: u16 = 0;
    while i < n
        invariant
            0 <= i <= n,
            spec_dec_foods_n(data@, pos as int, n as nat) == (match spec_dec_foods_n(
                data@,
                cur as int,
                (n - i) as nat,
            ) {
                Some((xs, p)) => Some((acc@ + xs, p)),
                None => None::<(Seq<Food>, int)>,
            }),
        decreases n - i,
    {
        match dec_food(data, cur) {
            Some((x, p1)) => {
                proof {
                    lemma_dec_foods_n_peel(data@, cur as int, (n - i) as nat, acc@);
                }
                acc.push(x);
                cur = p1;
                i = i + 1;
            },
            None => {
                return None;
            },
        }
    }
    proof {
        assert(acc@ + Seq::<Food>::empty() =~= acc@);
    }
    Some((acc, cur))
}

/// The peel step for bag shapes.
proof fn lemma_dec_bag_n_peel(data: Seq<u8>, pos: int, left: nat, acc: Seq<FoodType>)
    requires
        left >= 1,
    ensures
        ({
            match spec_dec_food_type(data, pos) {
                Some((x, p1)) => (match spec_dec_bag_n(data, p1, (left - 1) as nat) {
                    Some((xs, p2)) => Some((acc + (seq![x] + xs), p2)),
                    None => None::<(Seq<FoodType>, int)>,
                }) == (match spec_dec_bag_n(data, p1, (left - 1) as nat) {
                    Some((xs, p2)) => Some(((acc.push(x)) + xs, p2)),
                    None => None::<(Seq<FoodType>, int)>,
                }),
                None => true,
            }
        }),
{
    match spec_dec_food_type(data, pos) {
        Some((x, p1)) => {
            match spec_dec_bag_n(data, p1, (left - 1) as nat) {
                Some((xs, p2)) => {
                    assert(acc + (seq![x] + xs) =~= (acc.push(x)) + xs);
                },
                None => {},
            }
        },
        None => {},
    }
}

/// Reads exactly `n` bag shapes.
#[verifier::loop_isolation(false)]
fn dec_bag_n(data: &[u8], pos: usize, n: u16) -> (r: Option<(Vec<FoodType>, usize)>)
    ensures
        spec_dec_bag_n(data@, pos as int, n as nat) == match r {
            Some((v, p)) => Some((v@, p as int)),
            None => None::<(Seq<FoodType>, int)>,
        },
{
    let mut acc: Vec<FoodType> = Vec::new();
    let mut cur = pos;
    let mut i: u16 = 0;
    while i < n
        invariant
            0 <= i <= n,
            spec_dec_bag_n(data@, pos as int, n as nat) == (match spec_dec_bag_n(
                data@,
                cur as int,
                (n - i) as nat,
            ) {
                Some((xs, p)) => Some((acc@ + xs, p)),
                None => None::<(Seq<FoodType>, int)>,
            }),
        decreases n - i,
    {
        match dec_food_type(data, cur) {
            Some((x, p1)) => {
                proof {
                    lemma_dec_bag_n_peel(data@, cur as int, (n - i) as nat, acc@);
                }
                acc.push(x);
                cur = p1;
                i = i + 1;
            },
            None => {
                return None;
            },
        }
    }
    proof {
        assert(acc@ + Seq::<FoodType>::empty() =~= acc@);
    }
    Some((acc, cur))
}

/// Reads a food inventory.
fn dec_food_field(data: &[u8], pos: usize) -> (r: Option<(FoodField, usize)>)
    ensures
        spec_dec_food_field(data@, pos as int) == match r {
            Some((v, p)) => Some((v@, p as int)),
            None => None::<(FoodFieldView, int)>,
        },
{
    match dec_u16(data, pos) {
        Some((minimum, p1)) => match dec_u16(data, p1) {
            Some((count, p2)) => match dec_u16(data, p2) {
                Some((nb, p3)) => match dec_bag_n(data, p3, nb) {
                    Some((bag, p4)) => match dec_u16(data, p4) {
                        Some((nf, p5)) => match dec_foods_n(data, p5, nf) {
                            Some((foods, p6)) => Some(
                                (FoodField { foods, minimum, count, bag }, p6),
                            ),
                            None => None,
                        },
                        None => None,
                    },
                    None => None,
                },
                None => None,
            },
            None => None,
        },
        None => None,
    }
}

/// The peel step for snakes.
proof fn lemma_dec_snakes_n_peel(data: Seq<u8>, pos: int, left: nat, acc: Seq<SnakeView>)
    requires
        left >= 1,
    ensures
        ({
            match spec_dec_snake(data, pos) {
                Some((x, p1)) => (match spec_dec_snakes_n(data, p1, (left - 1) as nat) {
                    Some((xs, p2)) => Some((acc + (seq![x] + xs), p2)),
                    None => None::<(Seq<SnakeView>, int)>,
                }) == (match spec_dec_snakes_n(data, p1, (left - 1) as nat) {
                    Some((xs, p2)) => Some(((acc.push(x)) + xs, p2)),
                    None => None::<(Seq<SnakeView>, int)>,
                }),
                None => true,
            }
        }),
{
    match spec_dec_snake(data, pos) {
        Some((x, p1)) => {
            match spec_dec_snakes_n(data, p1, (left - 1) as nat) {
                Some((xs, p2)) => {
                    assert(acc + (seq![x] + xs) =~= (acc.push(x)) + xs);
                },
                None => {},
            }
        },
        None => {},
    }
}

/// Reads exactly `n` snakes.
#[verifier::loop_isolation(false)]
fn dec_snakes_n(data: &[u8], pos: usize, n: u16) -> (r: Option<(Vec<Snake>, usize)>)
    ensures
        spec_dec_snakes_n(data@, pos as int, n as nat) == match r {
            Some((v, p)) => Some((v@.map_values(|s: Snake| s@), p as int)),
            None => None::<(Seq<SnakeView>, int)>,
        },
{
    let mut acc: Vec<Snake> = Vec::new();
    let mut cur = pos;
    let mut i: u16 = 0;
    while i < n
        invariant
            0 <= i <= n,
            spec_dec_snakes_n(data@, pos as int, n as nat) == (match spec_dec_snakes_n(
                data@,
                cur as int,
                (n - i) as nat,
            ) {
                Some((xs, p)) => Some((acc@.map_values(|s: Snake| s@) + xs, p)),
                None => None::<(Seq<SnakeView>, int)>,
            }),
        decreases n - i,
    {
        match dec_snake(data, cur) {
            Some((x, p1)) => {
                proof {
                    lemma_dec_snakes_n_peel(
                        data@,
                        cur as int,
                        (n - i) as nat,
                        acc@.map_values(|s: Snake| s@),
                    );
                }
                let ghost accv = acc@;
                acc.push(x);
                proof {
                    assert(acc@.map_values(|s: Snake| s@) =~= accv.map_values(
                        |s: Snake| s@,
                    ).push(x@));
                }
                cur = p1;
                i = i + 1;
            },
            None => {
                return None;
            },
        }
    }
    proof {
        assert(acc@.map_values(|s: Snake| s@) + Seq::<SnakeView>::empty() =~= acc@.map_values(
            |s: Snake| s@,
        ));
    }
    Some((acc, cur))
}

/// Decodes one full snapshot from the wire format; malformed bytes yield
/// nothing, never a failure.
pub fn decode_game_data(data: &[u8]) -> (r: Option<GameData>)
    ensures
        match r {
            Some(gd) => exists|p: int| spec_dec_game_data(data@, 0) == Some((gd@, p)),
            None => spec_dec_game_data(data@, 0) is None,
        },
{
    match dec_config(data, 0) {
        Some((config, p1)) => match dec_state(data, p1) {
            Some((state, p2)) => match dec_food_field(data, p2) {
                Some((food, p3)) => match dec_u16(data, p3) {
                    Some((n, p4)) => match dec_snakes_n(data, p4, n) {
                        Some((snakes, p5)) => {
                            let r = GameData { config, snakes, food, state };
                            proof {
                                assert(spec_dec_game_data(data@, 0) == Some((r@, p5 as int)));
                            }
                            Some(r)
                        },
                        None => None,
                    },
                    None => None,
                },
                None => None,
            },
            None => None,
        },
        None => None,
    }
}

// ---------------------------------------------------------------------------
// Round trip: decoding an encoding gives the encoded value back.
// ---------------------------------------------------------------------------

/// Consuming a recognized front leaves exactly the tail.
proof fn lemma_skip_tail(data: Seq<u8>, pos: int, front: Seq<u8>, tail: Seq<u8>)
    requires
        0 <= pos <= data.len(),
        data.skip(pos) == front + tail,
    ensures
        pos + front.len() <= data.len(),
        data.skip(pos + front.len()) == tail,
        forall|k: int| 0 <= k < front.len() ==> data[pos + k] == front[k],
{
    assert(data.skip(pos).len() == front.len() + tail.len());
    assert forall|k: int| 0 <= k < front.len() implies data[pos + k] == front[k] by {
        assert(data.skip(pos)[k] == data[pos + k]);
        assert((front + tail)[k] == front[k]);
    };
    assert(data.skip(pos + front.len()) =~= tail) by {
        assert forall|k: int| 0 <= k < tail.len() implies data.skip(pos + front.len())[k]
            == tail[k] by {
            assert(data.skip(pos + front.len())[k] == data[pos + front.len() + k]);
            assert(data[pos + front.len() + k] == data.skip(pos)[front.len() + k]);
            assert((front + tail)[front.len() + k] == tail[k]);
        };
    };
}

/// A 16-bit integer reads back.
proof fn lemma_rt_u16(data: Seq<u8>, pos: int, v: u16, rest: Seq<u8>)
    requires
        0 <= pos <= data.len(),
        data.skip(pos) == spec_enc_u16(v) + rest,
    ensures
        spec_dec_u16(data, pos) == Some((v, pos + 2)),
        pos + 2 <= data.len(),
        data.skip(pos + 2) == rest,
{
    lemma_skip_tail(data, pos, spec_enc_u16(v), rest);
    assert(data[pos] == (v % 256) as u8);
    assert(data[pos + 1] == (v / 256) as u8);
    assert(v == 256 * (v / 256) + v % 256) by {
        vstd::arithmetic::div_mod::lemma_fundamental_div_mod(v as int, 256);
    };
}

/// A heading byte reads back.
proof fn lemma_rt_direction(data: Seq<u8>, pos: int, d: Direction, rest: Seq<u8>)
    requires
        0 <= pos <= data.len(),
        data.skip(pos) == spec_enc_direction(d) + rest,
    ensures
        spec_dec_direction(data, pos) == Some((d, pos + 1)),
        pos + 1 <= data.len(),
        data.skip(pos + 1) == rest,
{
    lemma_skip_tail(data, pos, spec_enc_direction(d), rest);
    assert(data[pos] == spec_enc_direction(d)[0]);
}

/// A shape byte reads back.
proof fn lemma_rt_food_type(data: Seq<u8>, pos: int, t: FoodType, rest: Seq<u8>)
    requires
        0 <= pos <= data.len(),
        data.skip(pos) == spec_enc_food_type(t) + rest,
    ensures
        spec_dec_food_type(data, pos) == Some((t, pos + 1)),
        pos + 1 <= data.len(),
        data.skip(pos + 1) == rest,
{
    lemma_skip_tail(data, pos, spec_enc_food_type(t), rest);
    assert(data[pos] == spec_enc_food_type(t)[0]);
}

/// A state byte reads back.
proof fn lemma_rt_state(data: Seq<u8>, pos: int, s: GameState, rest: Seq<u8>)
    requires
        0 <= pos <= data.len(),
        data.skip(pos) == spec_enc_state(s) + rest,
    ensures
        spec_dec_state(data, pos) == Some((s, pos + 1)),
        pos + 1 <= data.len(),
        data.skip(pos + 1) == rest,
{
    lemma_skip_tail(data, pos, spec_enc_state(s), rest);
    assert(data[pos] == spec_enc_state(s)[0]);
}

/// A grid point reads back.
proof fn lemma_rt_point(data: Seq<u8>, pos: int, p: FieldPoint, rest: Seq<u8>)
    requires
        0 <= pos <= data.len(),
        data.skip(pos) == spec_enc_point(p) + rest,
    ensures
        spec_dec_point(data, pos) == Some((p, pos + 4)),
        pos + 4 <= data.len(),
        data.skip(pos + 4) == rest,
{
    assert(data.skip(pos) =~= spec_enc_u16(p.x) + (spec_enc_u16(p.y) + rest));
    lemma_rt_u16(data, pos, p.x, spec_enc_u16(p.y) + rest);
    lemma_rt_u16(data, pos + 2, p.y, rest);
}

/// A body segment reads back.
proof fn lemma_rt_node(data: Seq<u8>, pos: int, n: SnakeNode, rest: Seq<u8>)
    requires
        0 <= pos <= data.len(),
        data.skip(pos) == spec_enc_node(n) + rest,
    ensures
        spec_dec_node(data, pos) == Some((n, pos + 6)),
        pos + 6 <= data.len(),
        data.skip(pos + 6) == rest,
{
    let flag = seq![
        if n.stuffed {
            1u8
        } else {
            0u8
        },
    ];
    assert(data.skip(pos) =~= spec_enc_direction(n.direction) + (spec_enc_point(n.position) + (
    flag + rest)));
    lemma_rt_direction(data, pos, n.direction, spec_enc_point(n.position) + (flag + rest));
    lemma_rt_point(data, pos + 1, n.position, flag + rest);
    lemma_skip_tail(data, pos + 5, flag, rest);
    assert(data[pos + 5] == flag[0]);
    assert(spec_dec_node(data, pos) == Some((n, pos + 6))) by {
        assert(n == (SnakeNode {
            direction: n.direction,
            position: n.position,
            stuffed: n.stuffed,
        }));
    };
}

/// A wrapping heading reads back.
proof fn lemma_rt_wdir(data: Seq<u8>, pos: int, d: WrappableDirection, rest: Seq<u8>)
    requires
        0 <= pos <= data.len(),
        data.skip(pos) == spec_enc_wdir(d) + rest,
    ensures
        spec_dec_wdir(data, pos) == Some((d, pos + 5)),
        pos + 5 <= data.len(),
        data.skip(pos + 5) == rest,
{
    assert(data.skip(pos) =~= spec_enc_direction(d.to) + (spec_enc_point(d.max) + rest));
    lemma_rt_direction(data, pos, d.to, spec_enc_point(d.max) + rest);
    lemma_rt_point(data, pos + 1, d.max, rest);
    assert(d == (WrappableDirection { to: d.to, max: d.max }));
}

/// A food item reads back.
proof fn lemma_rt_food(data: Seq<u8>, pos: int, f: Food, rest: Seq<u8>)
    requires
        0 <= pos <= data.len(),
        data.skip(pos) == spec_enc_food(f) + rest,
    ensures
        spec_dec_food(data, pos) == Some((f, pos + 9)),
        pos + 9 <= data.len(),
        data.skip(pos + 9) == rest,
{
    let tail2 = seq![f.size, f.weight];
    assert(data.skip(pos) =~= spec_enc_food_type(f.shape) + (spec_enc_point(f.location) + (
    spec_enc_u16(f.ticks_left) + (tail2 + rest))));
    lemma_rt_food_type(
        data,
        pos,
        f.shape,
        spec_enc_point(f.location) + (spec_enc_u16(f.ticks_left) + (tail2 + rest)),
    );
    lemma_rt_point(data, pos + 1, f.location, spec_enc_u16(f.ticks_left) + (tail2 + rest));
    lemma_rt_u16(data, pos + 5, f.ticks_left, tail2 + rest);
    lemma_skip_tail(data, pos + 7, tail2, rest);
    assert(data[pos + 7] == f.size);
    assert(data[pos + 8] == f.weight);
    assert(f == (Food {
        size: f.size,
        weight: f.weight,
        shape: f.shape,
        location: f.location,
        ticks_left: f.ticks_left,
    }));
}

/// A configuration reads back.
proof fn lemma_rt_config(data: Seq<u8>, pos: int, c: GameConfig, rest: Seq<u8>)
    requires
        0 <= pos <= data.len(),
        data.skip(pos) == spec_enc_config(c) + rest,
    ensures
        spec_dec_config(data, pos) == Some((c, pos + 11)),
        pos + 11 <= data.len(),
        data.skip(pos + 11) == rest,
{
    let r4 = spec_enc_direction(c.direction) + rest;
    let r3 = spec_enc_u16(c.dim.1) + r4;
    let r2 = spec_enc_u16(c.dim.0) + r3;
    let r1 = spec_enc_u16(c.start.1) + r2;
    let r0 = spec_enc_u16(c.start.0) + r1;
    assert(data.skip(pos) =~= spec_enc_u16(c.size) + r0);
    lemma_rt_u16(data, pos, c.size, r0);
    lemma_rt_u16(data, pos + 2, c.start.0, r1);
    lemma_rt_u16(data, pos + 4, c.start.1, r2);
    lemma_rt_u16(data, pos + 6, c.dim.0, r3);
    lemma_rt_u16(data, pos + 8, c.dim.1, r4);
    lemma_rt_direction(data, pos + 10, c.direction, rest);
    assert(c == (GameConfig {
        size: c.size,
        start: (c.start.0, c.start.1),
        dim: (c.dim.0, c.dim.1),
        direction: c.direction,
    }));
}

/// A counted run of body segments reads back.
proof fn lemma_rt_nodes_n(data: Seq<u8>, pos: int, nodes: Seq<SnakeNode>, rest: Seq<u8>)
    requires
        0 <= pos <= data.len(),
        data.skip(pos) == spec_enc_nodes(nodes) + rest,
    ensures
        exists|p: int|
            #![all_triggers]
            spec_dec_nodes_n(data, pos, nodes.len()) == Some((nodes, p)) && pos <= p <= data.len()
                && data.skip(p) == rest,
    decreases nodes.len(),
{
    if nodes.len() == 0 {
        assert(data.skip(pos) =~= rest);
        assert(spec_dec_nodes_n(data, pos, 0) == Some((nodes, pos)) && data.skip(pos) == rest)
            by {
            assert(nodes =~= Seq::<SnakeNode>::empty());
        };
    } else {
        let tail_items = nodes.drop_first();
        assert(data.skip(pos) =~= spec_enc_node(nodes[0]) + (spec_enc_nodes(tail_items) + rest));
        lemma_rt_node(data, pos, nodes[0], spec_enc_nodes(tail_items) + rest);
        lemma_rt_nodes_n(data, pos + 6, tail_items, rest);
        let p2 = choose|p2: int|
            #![all_triggers]
            spec_dec_nodes_n(data, pos + 6, tail_items.len()) == Some((tail_items, p2)) && pos + 6
                <= p2 <= data.len() && data.skip(p2) == rest;
        assert(seq![nodes[0]] + tail_items =~= nodes);
        assert(spec_dec_nodes_n(data, pos, nodes.len()) == Some((nodes, p2)));
    }
}

/// A counted run of food items reads back.
proof fn lemma_rt_foods_n(data: Seq<u8>, pos: int, foods: Seq<Food>, rest: Seq<u8>)
    requires
        0 <= pos <= data.len(),
        data.skip(pos) == spec_enc_foods(foods) + rest,
    ensures
        exists|p: int|
            #![all_triggers]
            spec_dec_foods_n(data, pos, foods.len()) == Some((foods, p)) && pos <= p <= data.len()
                && data.skip(p) == rest,
    decreases foods.len(),
{
    if foods.len() == 0 {
        assert(data.skip(pos) =~= rest);
        assert(spec_dec_foods_n(data, pos, 0) == Some((foods, pos)) && data.skip(pos) == rest)
            by {
            assert(foods =~= Seq::<Food>::empty());
        };
    } else {
        let tail_items = foods.drop_first();
        assert(data.skip(pos) =~= spec_enc_food(foods[0]) + (spec_enc_foods(tail_items) + rest));
        lemma_rt_food(data, pos, foods[0], spec_enc_foods(tail_items) + rest);
        lemma_rt_foods_n(data, pos + 9, tail_items, rest);
        let p2 = choose|p2: int|
            #![all_triggers]
            spec_dec_foods_n(data, pos + 9, tail_items.len()) == Some((tail_items, p2)) && pos + 9
                <= p2 <= data.len() && data.skip(p2) == rest;
        assert(seq![foods[0]] + tail_items =~= foods);
        assert(spec_dec_foods_n(data, pos, foods.len()) == Some((foods, p2)));
    }
}

/// A counted run of bag shapes reads back.
proof fn lemma_rt_bag_n(data: Seq<u8>, pos: int, bag: Seq<FoodType>, rest: Seq<u8>)
    requires
        0 <= pos <= data.len(),
        data.skip(pos) == spec_enc_bag(bag) + rest,
    ensures
        exists|p: int|
            #![all_triggers]
            spec_dec_bag_n(data, pos, bag.len()) == Some((bag, p)) && pos <= p <= data.len()
                && data.skip(p) == rest,
    decreases bag.len(),
{
    if bag.len() == 0 {
        assert(data.skip(pos) =~= rest);
        assert(spec_dec_bag_n(data, pos, 0) == Some((bag, pos)) && data.skip(pos) == rest) by {
            assert(bag =~= Seq::<FoodType>::empty());
        };
    } else {
        let tail_items = bag.drop_first();
        assert(data.skip(pos) =~= spec_enc_food_type(bag[0]) + (spec_enc_bag(tail_items) + rest));
        lemma_rt_food_type(data, pos, bag[0], spec_enc_bag(tail_items) + rest);
        lemma_rt_bag_n(data, pos + 1, tail_items, rest);
        let p2 = choose|p2: int|
            #![all_triggers]
            spec_dec_bag_n(data, pos + 1, tail_items.len()) == Some((tail_items, p2)) && pos + 1
                <= p2 <= data.len() && data.skip(p2) == rest;
        assert(seq![bag[0]] + tail_items =~= bag);
        assert(spec_dec_bag_n(data, pos, bag.len()) == Some((bag, p2)));
    }
}

/// A snake reads back.
#[verifier::rlimit(60)]
proof fn lemma_rt_snake(data: Seq<u8>, pos: int, sv: SnakeView, rest: Seq<u8>)
    requires
        0 <= pos <= data.len(),
        sv.nodes.len() <= u16::MAX,
        data.skip(pos) == spec_enc_snake(sv) + rest,
    ensures
        exists|p: int|
            #![all_triggers]
            spec_dec_snake(data, pos) == Some((sv, p)) && pos <= p <= data.len() && data.skip(p)
                == rest,
{
    let r3 = spec_enc_u16(sv.nodes.len() as u16) + (spec_enc_nodes(sv.nodes) + rest);
    let r2 = spec_enc_wdir(sv.direction) + r3;
    let r1 = spec_enc_u16(sv.score) + r2;
    assert(data.skip(pos) =~= spec_enc_u16(sv.id) + r1);
    lemma_rt_u16(data, pos, sv.id, r1);
    lemma_rt_u16(data, pos + 2, sv.score, r2);
    lemma_rt_wdir(data, pos + 4, sv.direction, r3);
    lemma_rt_u16(data, pos + 9, sv.nodes.len() as u16, spec_enc_nodes(sv.nodes) + rest);
    lemma_rt_nodes_n(data, pos + 11, sv.nodes, rest);
    let p2 = choose|p2: int|
        #![all_triggers]
        spec_dec_nodes_n(data, pos + 11, sv.nodes.len()) == Some((sv.nodes, p2)) && pos + 11 <= p2
            <= data.len() && data.skip(p2) == rest;
    assert(sv =~= (SnakeView {
        nodes: sv.nodes,
        direction: sv.direction,
        score: sv.score,
        id: sv.id,
    }));
    assert(spec_dec_snake(data, pos) == Some((sv, p2)));
}

/// A food inventory reads back.
#[verifier::rlimit(60)]
proof fn lemma_rt_food_field(data: Seq<u8>, pos: int, fv: FoodFieldView, rest: Seq<u8>)
    requires
        0 <= pos <= data.len(),
        fv.foods.len() <= u16::MAX,
        fv.bag.len() <= u16::MAX,
        data.skip(pos) == spec_enc_food_field(fv) + rest,
    ensures
        exists|p: int|
            #![all_triggers]
            spec_dec_food_field(data, pos) == Some((fv, p)) && pos <= p <= data.len() && data.skip(
                p,
            ) == rest,
{
    let r4 = spec_enc_u16(fv.foods.len() as u16) + (spec_enc_foods(fv.foods) + rest);
    let r3 = spec_enc_bag(fv.bag) + r4;
    let r2 = spec_enc_u16(fv.bag.len() as u16) + r3;
    let r1 = spec_enc_u16(fv.count) + r2;
    assert(data.skip(pos) =~= spec_enc_u16(fv.minimum) + r1);
    lemma_rt_u16(data, pos, fv.minimum, r1);
    lemma_rt_u16(data, pos + 2, fv.count, r2);
    lemma_rt_u16(data, pos + 4, fv.bag.len() as u16, r3);
    lemma_rt_bag_n(data, pos + 6, fv.bag, r4);
    let pb = choose|pb: int|
        #![all_triggers]
        spec_dec_bag_n(data, pos + 6, fv.bag.len()) == Some((fv.bag, pb)) && pos + 6 <= pb
            <= data.len() && data.skip(pb) == r4;
    lemma_rt_u16(data, pb, fv.foods.len() as u16, spec_enc_foods(fv.foods) + rest);
    lemma_rt_foods_n(data, pb + 2, fv.foods, rest);
    let pf = choose|pf: int|
        #![all_triggers]
        spec_dec_foods_n(data, pb + 2, fv.foods.len()) == Some((fv.foods, pf)) && pb + 2 <= pf
            <= data.len() && data.skip(pf) == rest;
    assert(fv =~= (FoodFieldView {
        foods: fv.foods,
        minimum: fv.minimum,
        count: fv.count,
        bag: fv.bag,
    }));
    assert(spec_dec_food_field(data, pos) == Some((fv, pf)));
}

/// A counted run of snakes reads back.
proof fn lemma_rt_snakes_n(data: Seq<u8>, pos: int, snakes: Seq<SnakeView>, rest: Seq<u8>)
    requires
        0 <= pos <= data.len(),
        forall|s: int| 0 <= s < snakes.len() ==> (#[trigger] snakes[s]).nodes.len() <= u16::MAX,
        data.skip(pos) == spec_enc_snakes(snakes) + rest,
    ensures
        exists|p: int|
            #![all_triggers]
            spec_dec_snakes_n(data, pos, snakes.len()) == Some((snakes, p)) && pos <= p
                <= data.len() && data.skip(p) == rest,
    decreases snakes.len(),
{
    if snakes.len() == 0 {
        assert(data.skip(pos) =~= rest);
        assert(spec_dec_snakes_n(data, pos, 0) == Some((snakes, pos)) && data.skip(pos) == rest)
            by {
            assert(snakes =~= Seq::<SnakeView>::empty());
        };
    } else {
        let tail_items = snakes.drop_first();
        assert(data.skip(pos) =~= spec_enc_snake(snakes[0]) + (spec_enc_snakes(tail_items)
            + rest));
        lemma_rt_snake(data, pos, snakes[0], spec_enc_snakes(tail_items) + rest);
        let p1 = choose|p1: int|
            #![all_triggers]
            spec_dec_snake(data, pos) == Some((snakes[0], p1)) && pos <= p1 <= data.len()
                && data.skip(p1) == spec_enc_snakes(tail_items) + rest;
        assert(forall|s: int|
            0 <= s < tail_items.len() ==> (#[trigger] tail_items[s]) == snakes[s + 1]);
        lemma_rt_snakes_n(data, p1, tail_items, rest);
        let p2 = choose|p2: int|
            #![all_triggers]
            spec_dec_snakes_n(data, p1, tail_items.len()) == Some((tail_items, p2)) && p1 <= p2
                <= data.len() && data.skip(p2) == rest;
        assert(seq![snakes[0]] + tail_items =~= snakes);
        assert(spec_dec_snakes_n(data, pos, snakes.len()) == Some((snakes, p2)));
    }
}

/// Round trip: decoding an encoded snapshot reproduces an equal
/// snake/food/configuration/state structure, wherever the encoding stands in
/// a byte stream.
#[verifier::rlimit(80)]
pub proof fn lemma_snapshot_round_trip(gd: GameDataView, rest: Seq<u8>)
    requires
        enc_wf(gd),
    ensures
        exists|p: int|
            #![all_triggers]
            spec_dec_game_data(spec_enc_game_data(gd) + rest, 0) == Some((gd, p)),
{
    let data = spec_enc_game_data(gd) + rest;
    let r3 = spec_enc_u16(gd.snakes.len() as u16) + (spec_enc_snakes(gd.snakes) + rest);
    let r2 = spec_enc_food_field(gd.food) + r3;
    let r1 = spec_enc_state(gd.state) + r2;
    assert(data.skip(0) =~= spec_enc_config(gd.config) + r1);
    lemma_rt_config(data, 0, gd.config, r1);
    lemma_rt_state(data, 11, gd.state, r2);
    lemma_rt_food_field(data, 12, gd.food, r3);
    let pf = choose|pf: int|
        #![all_triggers]
        spec_dec_food_field(data, 12) == Some((gd.food, pf)) && 12 <= pf <= data.len()
            && data.skip(pf) == r3;
    lemma_rt_u16(data, pf, gd.snakes.len() as u16, spec_enc_snakes(gd.snakes) + rest);
    lemma_rt_snakes_n(data, pf + 2, gd.snakes, rest);
    let ps = choose|ps: int|
        #![all_triggers]
        spec_dec_snakes_n(data, pf + 2, gd.snakes.len()) == Some((gd.snakes, ps)) && pf + 2 <= ps
            <= data.len() && data.skip(ps) == rest;
    assert(gd =~= (GameDataView {
        config: gd.config,
        snakes: gd.snakes,
        food: gd.food,
        state: gd.state,
    }));
    assert(spec_dec_game_data(data, 0) == Some((gd, ps)));
}

/// The snapshot-relevant part of a game's value.
pub open spec fn spec_game_to_data(g: GameView) -> GameDataView {
    GameDataView { config: g.config, snakes: g.snakes, food: g.food, state: g.state }
}

/// A run of pairwise distinct in-bounds points cannot outnumber the grid
/// cells.
proof fn lemma_distinct_points_card(nodes: Seq<SnakeNode>, w: int, h: int, k: int)
    requires
        w >= 1,
        h >= 1,
        0 <= k <= nodes.len(),
        forall|j: int|
            0 <= j < nodes.len() ==> (#[trigger] nodes[j]).position.x < w
                && nodes[j].position.y < h,
        forall|i: int, j: int|
            0 <= i < j < nodes.len() ==> (#[trigger] nodes[i]).position != (
            #[trigger] nodes[j]).position,
    ensures
        ({
            let s = Set::new(
                |i: int|
                    exists|j: int|
                        0 <= j < k && i == crate::game::cell_idx(
                            w,
                            (#[trigger] nodes[j]).position,
                        ),
            );
            s.finite() && s.len() == k && s.subset_of(vstd::set_lib::set_int_range(0, w * h))
        }),
    decreases k,
{
    let s = Set::new(
        |i: int|
            exists|j: int|
                0 <= j < k && i == crate::game::cell_idx(w, (#[trigger] nodes[j]).position),
    );
    if k == 0 {
        assert(s =~= Set::<int>::empty());
        assert(s.subset_of(vstd::set_lib::set_int_range(0, w * h)));
    } else {
        lemma_distinct_points_card(nodes, w, h, k - 1);
        let prev = Set::new(
            |i: int|
                exists|j: int|
                    0 <= j < k - 1 && i == crate::game::cell_idx(
                        w,
                        (#[trigger] nodes[j]).position,
                    ),
        );
        let q = nodes[k - 1].position;
        let a = crate::game::cell_idx(w, q);
        assert(0 <= q.y * w + q.x < w * h) by (nonlinear_arith)
            requires
                0 <= q.x < w,
                0 <= q.y < h,
        ;
        assert(s =~= prev.insert(a)) by {
            assert forall|i: int| s.contains(i) implies prev.insert(a).contains(i) by {
                let j = choose|j: int|
                    0 <= j < k && i == crate::game::cell_idx(w, (#[trigger] nodes[j]).position);
                if j < k - 1 {
                    assert(prev.contains(i));
                }
            };
            assert forall|i: int| prev.insert(a).contains(i) implies s.contains(i) by {
                if i == a {
                    assert(i == crate::game::cell_idx(w, nodes[k - 1].position));
                } else {
                    let j = choose|j: int|
                        0 <= j < k - 1 && i == crate::game::cell_idx(
                            w,
                            (#[trigger] nodes[j]).position,
                        );
                    assert(0 <= j < k && i == crate::game::cell_idx(w, nodes[j].position));
                }
            };
        };
        assert(!prev.contains(a)) by {
            if prev.contains(a) {
                let j = choose|j: int|
                    0 <= j < k - 1 && a == crate::game::cell_idx(
                        w,
                        (#[trigger] nodes[j]).position,
                    );
                let pj = nodes[j].position;
                assert(pj != q);
                assert(pj.y * w + pj.x != q.y * w + q.x) by (nonlinear_arith)
                    requires
                        0 <= pj.x < w,
                        0 <= q.x < w,
                        pj.x != q.x || pj.y != q.y,
                ;
            }
        };
        assert forall|i: int| s.contains(i) implies vstd::set_lib::set_int_range(
            0,
            w * h,
        ).contains(i) by {
            let j = choose|j: int|
                0 <= j < k && i == crate::game::cell_idx(w, (#[trigger] nodes[j]).position);
            let pj = nodes[j].position;
            assert(0 <= pj.y * w + pj.x < w * h) by (nonlinear_arith)
                requires
                    0 <= pj.x < w,
                    0 <= pj.y < h,
            ;
        };
    }
}

/// Under the game invariant, every counted collection of the snapshot fits
/// its 16-bit length field.
proof fn lemma_game_enc_wf(field: crate::field::Field, g: GameView)
    requires
        field.wf(),
        field@ == g.cells,
        field.width == g.config.dim.0,
        field.height == g.config.dim.1,
        crate::game::game_wf(g),
    ensures
        enc_wf(spec_game_to_data(g)),
{
    let w = g.config.dim.0 as int;
    let h = g.config.dim.1 as int;
    crate::game::lemma_game_counts(field, g);
    crate::food::lemma_free_idx_card(g.cells);
    crate::food::lemma_foods_total_ge_len(g.food.foods);
    assert forall|s: int| 0 <= s < g.snakes.len() implies (#[trigger] g.snakes[s]).nodes.len()
        <= u16::MAX by {
        let sv = g.snakes[s];
        assert(sv.wf());
        assert(sv.direction.max == (FieldPoint { x: g.config.dim.0, y: g.config.dim.1 }));
        lemma_distinct_points_card(sv.nodes, w, h, sv.nodes.len() as int);
        let cells_set = Set::new(
            |i: int|
                exists|j: int|
                    0 <= j < sv.nodes.len() && i == crate::game::cell_idx(
                        w,
                        (#[trigger] sv.nodes[j]).position,
                    ),
        );
        vstd::set_lib::lemma_int_range(0, w * h);
        vstd::set_lib::lemma_len_subset(cells_set, vstd::set_lib::set_int_range(0, w * h));
    };
}

impl Game {
    /// Serializes the whole game state to its wire snapshot.
    pub fn encode_game_data(&self) -> (r: Vec<u8>)
        requires
            self.wf(),
        ensures
            r@ == spec_enc_game_data(spec_game_to_data(self@)),
    {
        proof {
            lemma_game_enc_wf(self.field, self@);
        }
        let gd = GameData::from_game(self);
        proof {
            assert(gd@ =~= spec_game_to_data(self@));
        }
        gd.encode()
    }

    /// Installs a received snapshot, rebuilding the occupancy field from the
    /// decoded snakes' bodies: afterwards a field cell is marked occupied
    /// exactly when some decoded body segment lies on it. Returns true
    /// exactly when the bytes decode into an installable snapshot (positive
    /// dimensions whose product fits the cell index space, every body
    /// segment on the grid); anything else changes nothing. A game installed
    /// from received bytes mirrors the sender for rendering; it is not
    /// re-validated as an authoritative simulation state.
    #[verifier::loop_isolation(false)]
    pub fn set_game_data(&mut self, data: &[u8]) -> (r: bool)
        ensures
            r == (spec_dec_game_data(data@, 0) is Some && spec_install_ok(
                spec_dec_game_data(data@, 0)->Some_0.0,
            )),
            !r ==> *final(self) == *old(self),
            r ==> ({
                let (gd, p) = spec_dec_game_data(data@, 0)->Some_0;
                &&& final(self)@.config == gd.config
                &&& final(self)@.snakes == gd.snakes
                &&& final(self)@.food == gd.food
                &&& final(self)@.state == gd.state
                &&& final(self).field.wf()
                &&& final(self).field.width == gd.config.dim.0
                &&& final(self).field.height == gd.config.dim.1
                &&& forall|pt: FieldPoint|
                    pt.x < gd.config.dim.0 && pt.y < gd.config.dim.1 ==> final(self)@.cells[
                    crate::game::cell_idx(gd.config.dim.0 as int, pt)] == #[trigger] crate::game::snakes_occupy(
                        gd.snakes,
                        pt,
                    )
            }),
    {
        let decoded = decode_game_data(data);
        match decoded {
            Option::None => false,
            Some(gd) => {
                let ghost gdv = gd@;
                if !(gd.config.dim.0 >= 1 && gd.config.dim.1 >= 1) {
                    return false;
                }
                let (width, height) = gd.config.dim;
                proof {
                    assert((width as int) * (height as int) <= 0xffff * 0xffff)
                        by (nonlinear_arith)
                        requires
                            width <= 0xffff,
                            height <= 0xffff,
                    ;
                }
                if (width as u32) * (height as u32) > u16::MAX as u32 {
                    return false;
                }
                let ghost w = width as int;
                let mut field = crate::field::Field::new(width, height);
                let ghost init = field@;
                let mut s: usize = 0;
                while s < gd.snakes.len()
                    invariant
                        0 <= s <= gdv.snakes.len(),
                        field.wf(),
                        field.width == width,
                        field.height == height,
                        field@ == mark_snakes(init, w, gdv.snakes, s as int),
                        forall|s2: int, k2: int|
                            #![trigger gdv.snakes[s2].nodes[k2]]
                            0 <= s2 < s && 0 <= k2 < gdv.snakes[s2].nodes.len()
                                ==> gdv.snakes[s2].nodes[k2].position.x < width
                                && gdv.snakes[s2].nodes[k2].position.y < height,
                    decreases gdv.snakes.len() - s,
                {
                    let snake = &gd.snakes[s];
                    proof {
                        assert(snake@ == gdv.snakes[s as int]);
                    }
                    let mut k: usize = 0;
                    while k < snake.nodes.len()
                        invariant
                            0 <= k <= snake.nodes@.len(),
                            field.wf(),
                            field.width == width,
                            field.height == height,
                            field@ == mark_nodes(
                                mark_snakes(init, w, gdv.snakes, s as int),
                                w,
                                snake.nodes@,
                                k as int,
                            ),
                            forall|k2: int|
                                0 <= k2 < k ==> (#[trigger] snake.nodes@[k2]).position.x < width
                                    && snake.nodes@[k2].position.y < height,
                        decreases snake.nodes@.len() - k,
                    {
                        let node = snake.nodes[k];
                        if node.position.x < width && node.position.y < height {
                            field.set(&node.position, true);
                        } else {
                            proof {
                                assert(!spec_install_ok(gdv)) by {
                                    assert(gdv.snakes[s as int].nodes[k as int].position
                                        == node.position);
                                };
                            }
                            return false;
                        }
                        k = k + 1;
                    }
                    proof {
                        assert(mark_nodes(
                            mark_snakes(init, w, gdv.snakes, s as int),
                            w,
                            gdv.snakes[s as int].nodes,
                            gdv.snakes[s as int].nodes.len() as int,
                        ) == mark_snakes(init, w, gdv.snakes, s as int + 1));
                    }
                    s = s + 1;
                }
                proof {
                    assert(spec_install_ok(gdv));
                    lemma_mark_snakes_char(
                        init,
                        w,
                        height as int,
                        gdv.snakes,
                        gdv.snakes.len() as int,
                    );
                }
                let GameData { config, snakes, food, state } = gd;
                self.config = config;
                self.food = food;
                self.snakes = snakes;
                self.field = field;
                self.state = state;
                proof {
                    assert(self@.snakes == gdv.snakes);
                    assert forall|pt: FieldPoint|
                        pt.x < gdv.config.dim.0 && pt.y < gdv.config.dim.1 implies self@.cells[
                    crate::game::cell_idx(gdv.config.dim.0 as int, pt)] == #[trigger] crate::game::snakes_occupy(
                        gdv.snakes,
                        pt,
                    ) by {
                        let b = snakes_covered(gdv.snakes, gdv.snakes.len() as int, pt);
                        assert(self@.cells[crate::game::cell_idx(w, pt)] == (init[
                        crate::game::cell_idx(w, pt)] || snakes_covered(
                            gdv.snakes,
                            gdv.snakes.len() as int,
                            pt,
                        )));
                        assert(0 <= crate::game::cell_idx(w, pt) < init.len()) by (nonlinear_arith)
                            requires
                                0 <= pt.x < w,
                                0 <= pt.y < (height as int),
                                init.len() == w * (height as int),
                        ;
                        assert(!init[crate::game::cell_idx(w, pt)]);
                        if snakes_covered(gdv.snakes, gdv.snakes.len() as int, pt) {
                            let s2 = choose|s2: int|
                                0 <= s2 < gdv.snakes.len() && nodes_cover(
                                    (#[trigger] gdv.snakes[s2]).nodes,
                                    gdv.snakes[s2].nodes.len() as int,
                                    pt,
                                );
                            assert(gdv.snakes[s2].occupies(pt)) by {
                                let j = choose|j: int|
                                    0 <= j < gdv.snakes[s2].nodes.len() && (
                                    #[trigger] gdv.snakes[s2].nodes[j]).position == pt;
                                assert(gdv.snakes[s2].nodes[j].position == pt);
                            };
                            assert(crate::game::snakes_occupy(gdv.snakes, pt));
                        }
                        if crate::game::snakes_occupy(gdv.snakes, pt) {
                            let s2 = choose|s2: int|
                                0 <= s2 < gdv.snakes.len() && (#[trigger] gdv.snakes[s2]).occupies(
                                    pt,
                                );
                            assert(nodes_cover(
                                gdv.snakes[s2].nodes,
                                gdv.snakes[s2].nodes.len() as int,
                                pt,
                            )) by {
                                let j = choose|j: int|
                                    0 <= j < gdv.snakes[s2].nodes.len() && (
                                    #[trigger] gdv.snakes[s2].nodes[j]).position == pt;
                                assert(gdv.snakes[s2].nodes[j].position == pt);
                            };
                            assert(snakes_covered(gdv.snakes, gdv.snakes.len() as int, pt));
                        }
                    };
                }
                true
            },
        }
    }
}

/// Whether a decoded snapshot can be installed: positive dimensions whose
/// product fits the 16-bit cell index space, and every body segment on the
/// grid.
pub open spec fn spec_install_ok(gd: GameDataView) -> bool {
    &&& gd.config.dim.0 >= 1
    &&& gd.config.dim.1 >= 1
    &&& gd.config.dim.0 * gd.config.dim.1 <= u16::MAX
    &&& forall|s: int, k: int|
        #![trigger gd.snakes[s].nodes[k]]
        0 <= s < gd.snakes.len() && 0 <= k < gd.snakes[s].nodes.len()
            ==> gd.snakes[s].nodes[k].position.x < gd.config.dim.0
            && gd.snakes[s].nodes[k].position.y < gd.config.dim.1
}

/// Whether one of the first `k` segments of `nodes` lies on `p`.
pub open spec fn nodes_cover(nodes: Seq<SnakeNode>, k: int, p: FieldPoint) -> bool {
    exists|j: int| 0 <= j < k && (#[trigger] nodes[j]).position == p
}

/// Whether one of the first `s` snakes has a body segment on `p`.
pub open spec fn snakes_covered(snakes: Seq<SnakeView>, s: int, p: FieldPoint) -> bool {
    exists|s2: int|
        0 <= s2 < s && nodes_cover(
            (#[trigger] snakes[s2]).nodes,
            snakes[s2].nodes.len() as int,
            p,
        )
}

/// `cells` with the cells of the first `k` segments of `nodes` marked
/// occupied.
pub open spec fn mark_nodes(cells: Seq<bool>, w: int, nodes: Seq<SnakeNode>, k: int) -> Seq<bool>
    decreases k,
{
    if k <= 0 {
        cells
    } else {
        mark_nodes(cells, w, nodes, k - 1).update(
            crate::game::cell_idx(w, nodes[k - 1].position),
            true,
        )
    }
}

/// `cells` with every body cell of the first `s` snakes marked occupied.
pub open spec fn mark_snakes(cells: Seq<bool>, w: int, snakes: Seq<SnakeView>, s: int) -> Seq<
    bool,
>
    decreases s,
{
    if s <= 0 {
        cells
    } else {
        mark_nodes(
            mark_snakes(cells, w, snakes, s - 1),
            w,
            snakes[s - 1].nodes,
            snakes[s - 1].nodes.len() as int,
        )
    }
}

/// What marking a body prefix does, cell by cell: exactly the cells of the
/// first `k` segments come on, everything else is untouched.
proof fn lemma_mark_nodes_char(cells: Seq<bool>, w: int, h: int, nodes: Seq<SnakeNode>, k: int)
    requires
        w >= 1,
        h >= 1,
        cells.len() == w * h,
        0 <= k <= nodes.len(),
        forall|j: int|
            0 <= j < nodes.len() ==> (#[trigger] nodes[j]).position.x < w
                && nodes[j].position.y < h,
    ensures
        mark_nodes(cells, w, nodes, k).len() == cells.len(),
        forall|p: FieldPoint|
            #![all_triggers]
            p.x < w && p.y < h ==> mark_nodes(cells, w, nodes, k)[crate::game::cell_idx(w, p)] == (
            cells[crate::game::cell_idx(w, p)] || nodes_cover(nodes, k, p)),
    decreases k,
{
    if k > 0 {
        lemma_mark_nodes_char(cells, w, h, nodes, k - 1);
        let node_p = nodes[k - 1].position;
        assert(0 <= node_p.y * w + node_p.x < w * h) by (nonlinear_arith)
            requires
                0 <= node_p.x < w,
                0 <= node_p.y < h,
        ;
    }
    assert forall|p: FieldPoint|
        #![all_triggers]
        p.x < w && p.y < h implies mark_nodes(cells, w, nodes, k)[crate::game::cell_idx(w, p)] == (
    cells[crate::game::cell_idx(w, p)] || nodes_cover(nodes, k, p)) by {
        let bk = nodes_cover(nodes, k, p);
        assert(0 <= p.y * w + p.x < w * h) by (nonlinear_arith)
            requires
                0 <= p.x < w,
                0 <= p.y < h,
        ;
        if k <= 0 {
            assert(!nodes_cover(nodes, k, p));
        } else {
            let bprev = nodes_cover(nodes, k - 1, p);
            let prev = mark_nodes(cells, w, nodes, k - 1);
            let node_p = nodes[k - 1].position;
            assert(prev[crate::game::cell_idx(w, p)] == (cells[crate::game::cell_idx(w, p)]
                || nodes_cover(nodes, k - 1, p)));
            if p == node_p {
                assert(nodes_cover(nodes, k, p)) by {
                    assert(nodes[k - 1].position == p);
                };
            } else {
                assert(crate::game::cell_idx(w, p) != crate::game::cell_idx(w, node_p))
                    by (nonlinear_arith)
                    requires
                        0 <= p.x < w,
                        0 <= node_p.x < w,
                        p.x != node_p.x || p.y != node_p.y,
                ;
                assert(mark_nodes(cells, w, nodes, k)[crate::game::cell_idx(w, p)] == prev[
                crate::game::cell_idx(w, p)]);
                assert(nodes_cover(nodes, k, p) == nodes_cover(nodes, k - 1, p)) by {
                    if nodes_cover(nodes, k, p) {
                        let j = choose|j: int|
                            0 <= j < k && (#[trigger] nodes[j]).position == p;
                        assert(j < k - 1 || nodes[k - 1].position == p);
                    }
                };
            }
        }
    };
}

/// What marking every snake does, cell by cell: exactly the cells covered by
/// the first `s` snakes come on.
proof fn lemma_mark_snakes_char(cells: Seq<bool>, w: int, h: int, snakes: Seq<SnakeView>, s: int)
    requires
        w >= 1,
        h >= 1,
        cells.len() == w * h,
        0 <= s <= snakes.len(),
        forall|s2: int, k2: int|
            #![trigger snakes[s2].nodes[k2]]
            0 <= s2 < snakes.len() && 0 <= k2 < snakes[s2].nodes.len()
                ==> snakes[s2].nodes[k2].position.x < w && snakes[s2].nodes[k2].position.y < h,
    ensures
        mark_snakes(cells, w, snakes, s).len() == cells.len(),
        forall|p: FieldPoint|
            #![all_triggers]
            p.x < w && p.y < h ==> mark_snakes(cells, w, snakes, s)[crate::game::cell_idx(w, p)]
                == (cells[crate::game::cell_idx(w, p)] || snakes_covered(snakes, s, p)),
    decreases s,
{
    if s > 0 {
        lemma_mark_snakes_char(cells, w, h, snakes, s - 1);
        let prev = mark_snakes(cells, w, snakes, s - 1);
        lemma_mark_nodes_char(prev, w, h, snakes[s - 1].nodes, snakes[s - 1].nodes.len() as int);
    }
    assert forall|p: FieldPoint|
        #![all_triggers]
        p.x < w && p.y < h implies mark_snakes(cells, w, snakes, s)[crate::game::cell_idx(w, p)]
        == (cells[crate::game::cell_idx(w, p)] || snakes_covered(snakes, s, p)) by {
        let bs = snakes_covered(snakes, s, p);
        if s <= 0 {
            assert(!snakes_covered(snakes, s, p));
        } else {
            let prev = mark_snakes(cells, w, snakes, s - 1);
            let bprev = snakes_covered(snakes, s - 1, p);
            let blast = nodes_cover(snakes[s - 1].nodes, snakes[s - 1].nodes.len() as int, p);
            assert(mark_snakes(cells, w, snakes, s)[crate::game::cell_idx(w, p)] == (prev[
            crate::game::cell_idx(w, p)] || nodes_cover(
                snakes[s - 1].nodes,
                snakes[s - 1].nodes.len() as int,
                p,
            )));
            assert(prev[crate::game::cell_idx(w, p)] == (cells[crate::game::cell_idx(w, p)]
                || snakes_covered(snakes, s - 1, p)));
            assert(snakes_covered(snakes, s, p) == (snakes_covered(snakes, s - 1, p)
                || nodes_cover(
                snakes[s - 1].nodes,
                snakes[s - 1].nodes.len() as int,
                p,
            ))) by {
                if snakes_covered(snakes, s, p) {
                    let s2 = choose|s2: int|
                        0 <= s2 < s && nodes_cover(
                            (#[trigger] snakes[s2]).nodes,
                            snakes[s2].nodes.len() as int,
                            p,
                        );
                    assert(s2 < s - 1 || s2 == s - 1);
                }
                if snakes_covered(snakes, s - 1, p) {
                    let s2 = choose|s2: int|
                        0 <= s2 < s - 1 && nodes_cover(
                            (#[trigger] snakes[s2]).nodes,
                            snakes[s2].nodes.len() as int,
                            p,
                        );
                    assert(0 <= s2 < s && nodes_cover(
                        snakes[s2].nodes,
                        snakes[s2].nodes.len() as int,
                        p,
                    ));
                }
            };
        }
    };
}

/// Encodes the identifier payload of a notify frame, as the server sends it
/// to a freshly connected player.
pub fn encode_player_id(id: u16) -> (r: Vec<u8>)
    ensures
        r@ == spec_enc_u16(id),
{
    let mut out: Vec<u8> = Vec::new();
    enc_u16(&mut out, id);
    proof {
        assert(out@ =~= spec_enc_u16(id));
    }
    out
}

/// Decodes the identifier payload of a notify frame.
pub fn decode_player_id(data: &[u8]) -> (r: Option<u16>)
    ensures
        r == match spec_dec_u16(data@, 0) {
            Some((v, p)) => Some(v),
            None => None::<u16>,
        },
{
    match dec_u16(data, 0) {
        Some((v, _)) => Some(v),
        Option::None => None,
    }
}

/// A verified copy of a snake: the clone's value equals the original's.
fn copy_snake(snake: &Snake) -> (r: Snake)
    ensures
        r@ == snake@,
{
    let mut nodes: VecDeque<SnakeNode> = VecDeque::new();
    let mut i: usize = 0;
    while i < snake.nodes.len()
        invariant
            0 <= i <= snake.nodes@.len(),
            nodes@ == snake.nodes@.take(i as int),
        decreases snake.nodes@.len() - i,
    {
        nodes.push_back(snake.nodes[i]);
        proof {
            assert(nodes@ =~= snake.nodes@.take(i as int + 1));
        }
        i = i + 1;
    }
    proof {
        assert(snake.nodes@.take(snake.nodes@.len() as int) =~= snake.nodes@);
    }
    Snake { nodes, direction: snake.direction, score: snake.score, id: snake.id }
}

/// A verified copy of a food inventory.
fn copy_food_field(food: &FoodField) -> (r: FoodField)
    ensures
        r@ == food@,
{
    let mut foods: Vec<Food> = Vec::new();
    let mut i: usize = 0;
    while i < food.foods.len()
        invariant
            0 <= i <= food.foods@.len(),
            foods@ == food.foods@.take(i as int),
        decreases food.foods@.len() - i,
    {
        foods.push(food.foods[i]);
        proof {
            assert(foods@ =~= food.foods@.take(i as int + 1));
        }
        i = i + 1;
    }
    let mut bag: Vec<FoodType> = Vec::new();
    let mut j: usize = 0;
    while j < food.bag.len()
        invariant
            0 <= j <= food.bag@.len(),
            bag@ == food.bag@.take(j as int),
        decreases food.bag@.len() - j,
    {
        bag.push(food.bag[j]);
        proof {
            assert(bag@ =~= food.bag@.take(j as int + 1));
        }
        j = j + 1;
    }
    proof {
        assert(food.foods@.take(food.foods@.len() as int) =~= food.foods@);
        assert(food.bag@.take(food.bag@.len() as int) =~= food.bag@);
    }
    FoodField { foods, minimum: food.minimum, count: food.count, bag }
}

} // verus!
