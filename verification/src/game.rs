//! The game: one field, the live snakes, and the food inventory, advanced
//! one tick at a time. The central invariant ties them together: a field
//! cell is marked occupied exactly when some snake body segment lies on it,
//! and food only ever sits on unoccupied, unshared cells.

use vstd::prelude::*;

use crate::field::{count_trues, Field};
use crate::food::{
    cell_claimed, first_at, foods_shape_wf, foods_total, FoodField, FoodFieldView,
};
use crate::snake::{Snake, SnakeNode, SnakeView};
use crate::types::{
    config_wf, Direction, FieldPoint, FoodType, GameConfig, GameState, WrappableDirection,
};

verus! {

/// The mathematical value of a whole game.
#[verifier::ext_equal]
pub ghost struct GameView {
    pub config: GameConfig,
    pub snakes: Seq<SnakeView>,
    pub cells: Seq<bool>,
    pub food: FoodFieldView,
    pub state: GameState,
}

/// The linear cell index of `p` on a grid of `w` columns.
pub open spec fn cell_idx(w: int, p: FieldPoint) -> int {
    p.y * w + p.x
}

/// Whether any snake of `snakes` has a body segment on `p`.
pub open spec fn snakes_occupy(snakes: Seq<SnakeView>, p: FieldPoint) -> bool {
    exists|s: int| 0 <= s < snakes.len() && (#[trigger] snakes[s]).occupies(p)
}

/// The position of the snake with identifier `id`, or `snakes.len()` when
/// there is none.
pub open spec fn find_snake(snakes: Seq<SnakeView>, id: u16) -> int
    decreases snakes.len(),
{
    if snakes.len() == 0 {
        0
    } else if snakes[0].id == id {
        0
    } else {
        1 + find_snake(snakes.drop_first(), id)
    }
}

/// `find_snake` points at the first snake with the identifier, and at the
/// length when no snake carries it.
pub proof fn lemma_find_snake(snakes: Seq<SnakeView>, id: u16)
    ensures
        0 <= find_snake(snakes, id) <= snakes.len(),
        find_snake(snakes, id) < snakes.len() ==> snakes[find_snake(snakes, id)].id == id,
        forall|j: int| 0 <= j < find_snake(snakes, id) ==> (#[trigger] snakes[j]).id != id,
        (find_snake(snakes, id) < snakes.len()) == exists|s: int|
            0 <= s < snakes.len() && (#[trigger] snakes[s]).id == id,
    decreases snakes.len(),
{
    if snakes.len() > 0 && snakes[0].id != id {
        lemma_find_snake(snakes.drop_first(), id);
        assert(forall|j: int|
            0 <= j < snakes.drop_first().len() ==> #[trigger] snakes.drop_first()[j] == snakes[j
                + 1]);
        let f = find_snake(snakes.drop_first(), id);
        if f < snakes.drop_first().len() {
            assert(snakes[f + 1].id == id);
        } else {
            if exists|s: int| 0 <= s < snakes.len() && (#[trigger] snakes[s]).id == id {
                let s = choose|s: int| 0 <= s < snakes.len() && (#[trigger] snakes[s]).id == id;
                assert(snakes.drop_first()[s - 1].id == id);
            }
        }
        assert forall|j: int| 0 <= j < find_snake(snakes, id) implies (#[trigger] snakes[j]).id
            != id by {
            if j > 0 {
                assert(snakes[j] == snakes.drop_first()[j - 1]);
            }
        };
    }
}

/// Both cells a food item may cover lie on the grid, and a special never
/// straddles a row edge.
pub open spec fn food_in_bounds(w: int, h: int, f: crate::types::Food) -> bool {
    &&& f.location.y < h
    &&& (f.shape == FoodType::Basic ==> f.location.x < w)
    &&& (f.shape != FoodType::Basic ==> f.location.x + 1 < w)
}

/// No cell of the item is marked occupied on the field.
pub open spec fn food_off_cells(w: int, cells: Seq<bool>, f: crate::types::Food) -> bool {
    &&& !cells[cell_idx(w, f.location)]
    &&& (f.shape != FoodType::Basic ==> !cells[cell_idx(
        w,
        FieldPoint { x: (f.location.x + 1) as u16, y: f.location.y },
    )])
}

/// Two items never cover a common cell.
pub open spec fn foods_disjoint(foods: Seq<crate::types::Food>) -> bool {
    forall|i: int, j: int, p: FieldPoint|
        #![trigger crate::types::spec_is_at(foods[i], p), crate::types::spec_is_at(foods[j], p)]
        0 <= i < j < foods.len() && crate::types::spec_is_at(foods[i], p)
            ==> !crate::types::spec_is_at(foods[j], p)
}

/// The invariant of a game. Beyond each part's own soundness it states the
/// heart of the design: the set of occupied field cells equals the union of
/// all snakes' body cells (no orphaned occupancy), distinct snakes never
/// share a cell or an identifier, food sits only on free cells without
/// overlapping, and the food minimum tracks the number of live players.
pub open spec fn game_wf(g: GameView) -> bool {
    let w = g.config.dim.0 as int;
    let h = g.config.dim.1 as int;
    &&& config_wf(g.config)
    &&& g.cells.len() == w * h
    &&& forall|s: int| 0 <= s < g.snakes.len() ==> (#[trigger] g.snakes[s]).wf()
    &&& forall|s: int|
        0 <= s < g.snakes.len() ==> (#[trigger] g.snakes[s]).direction.max == (FieldPoint {
            x: g.config.dim.0,
            y: g.config.dim.1,
        })
    &&& forall|s1: int, s2: int|
        0 <= s1 < s2 < g.snakes.len() ==> (#[trigger] g.snakes[s1]).id != (
        #[trigger] g.snakes[s2]).id
    &&& forall|s1: int, s2: int, p: FieldPoint|
        #![trigger g.snakes[s1].occupies(p), g.snakes[s2].occupies(p)]
        0 <= s1 < s2 < g.snakes.len() && g.snakes[s1].occupies(p) ==> !g.snakes[s2].occupies(p)
    &&& forall|p: FieldPoint|
        p.x < w && p.y < h ==> g.cells[cell_idx(w, p)] == #[trigger] snakes_occupy(g.snakes, p)
    &&& foods_shape_wf(g.food.foods)
    &&& forall|i: int|
        0 <= i < g.food.foods.len() ==> food_in_bounds(w, h, #[trigger] g.food.foods[i])
    &&& forall|i: int|
        0 <= i < g.food.foods.len() ==> food_off_cells(w, g.cells, #[trigger] g.food.foods[i])
    &&& foods_disjoint(g.food.foods)
    &&& g.food.bag.len() <= 6
    &&& forall|i: int|
        0 <= i < g.food.bag.len() ==> crate::food::spec_is_special(#[trigger] g.food.bag[i])
    &&& g.food.minimum == g.snakes.len()
}

/// The authoritative game state: configuration, field occupancy, all live
/// snakes, the food inventory, and the lifecycle state.
#[derive(Debug)]
pub struct Game {
    pub config: GameConfig,
    pub snakes: Vec<Snake>,
    pub field: Field,
    pub food: FoodField,
    pub state: GameState,
}

impl View for Game {
    type V = GameView;

    open spec fn view(&self) -> GameView {
        GameView {
            config: self.config,
            snakes: self.snakes@.map_values(|s: Snake| s@),
            cells: self.field@,
            food: self.food@,
            state: self.state,
        }
    }
}

impl Game {
    /// The game invariant, plus the glue between the executable field and
    /// its mathematical value.
    pub open spec fn wf(self) -> bool {
        &&& self.field.wf()
        &&& self.field.width == self.config.dim.0
        &&& self.field.height == self.config.dim.1
        &&& game_wf(self@)
    }

    /// A fresh game: an empty field, no snakes, no food, not yet started.
    pub fn new(config: GameConfig) -> (r: Game)
        requires
            config_wf(config),
        ensures
            r.wf(),
            r@.config == config,
            r@.state == GameState::Idle,
            r@.snakes == Seq::<SnakeView>::empty(),
            r@.food.foods == Seq::<crate::types::Food>::empty(),
            r@.food.minimum == 0,
            r@.food.count == 0,
            r@.food.bag == crate::food::spec_full_bag(),
            forall|i: int| 0 <= i < r@.cells.len() ==> !r@.cells[i],
    {
        let (width, height) = config.dim;
        let field = Field::new(width, height);
        let r = Game {
            config,
            food: FoodField::new(),
            snakes: Vec::new(),
            field,
            state: GameState::Idle,
        };
        proof {
            assert(r@.snakes =~= Seq::<SnakeView>::empty());
            assert forall|p: FieldPoint|
                p.x < width && p.y < height implies r@.cells[cell_idx(width as int, p)] == (
            #[trigger] snakes_occupy(r@.snakes, p)) by {
                r.field.lemma_idx_bounds(p);
            };
        }
        r
    }

    /// Starts the game: the one-shot transition out of `Idle`. Returns
    /// false, changing nothing, when the game was already started.
    pub fn start(&mut self) -> (r: bool)
        requires
            old(self).wf(),
        ensures
            final(self).wf(),
            r == (old(self)@.state == GameState::Idle),
            r ==> final(self)@ == (GameView { state: GameState::Playing, ..old(self)@ }),
            !r ==> *final(self) == *old(self),
    {
        if let GameState::Idle = self.state {
            self.state = GameState::Playing;
            true
        } else {
            false
        }
    }

    /// Routes a heading change to the snake with identifier `snake_id`; a
    /// request for an unknown snake, like a rejected turn, changes nothing.
    #[verifier::loop_isolation(false)]
    pub fn head_to(&mut self, snake_id: u16, to: Direction)
        requires
            old(self).wf(),
        ensures
            final(self).wf(),
            ({
                let f = find_snake(old(self)@.snakes, snake_id);
                if f < old(self)@.snakes.len() {
                    final(self)@ == (GameView {
                        snakes: old(self)@.snakes.update(
                            f,
                            old(self)@.snakes[f].head_to(to),
                        ),
                        ..old(self)@
                    })
                } else {
                    final(self)@ == old(self)@
                }
            }),
    {
        proof {
            lemma_find_snake(self@.snakes, snake_id);
        }
        let ghost gold = self@;
        let mut s: usize = 0;
        while s < self.snakes.len()
            invariant
                0 <= s <= self.snakes@.len(),
                *self == *old(self),
                forall|j: int| 0 <= j < s ==> (#[trigger] self@.snakes[j]).id != snake_id,
            decreases self.snakes@.len() - s,
        {
            if self.snakes[s].id == snake_id {
                proof {
                    assert(gold.snakes.len() == self.snakes@.len());
                    assert(gold.snakes[s as int] == self.snakes@[s as int]@);
                    assert(find_snake(gold.snakes, snake_id) == s) by {
                        lemma_find_snake_at(gold.snakes, snake_id, s as int);
                    };
                    assert(gold.snakes[s as int].wf());
                }
                let mut snake = self.snakes.remove(s);
                proof {
                    assert(snake@ == gold.snakes[s as int]);
                }
                snake.head_to(to);
                self.snakes.insert(s, snake);
                proof {
                    assert(self@.snakes =~= gold.snakes.update(s as int, gold.snakes[s as int].head_to(to)));
                    lemma_head_to_preserves_wf(gold, s as int, to);
                }
                return ;
            }
            s = s + 1;
        }
    }
}

/// Whether one of the first `k` segments of `sv` lies on `p`.
pub open spec fn prefix_occupies(sv: SnakeView, k: int, p: FieldPoint) -> bool {
    exists|j: int| 0 <= j < k && (#[trigger] sv.nodes[j]).position == p
}

/// `cells` with the cells of the first `k` segments of `sv` cleared.
pub open spec fn clear_prefix(cells: Seq<bool>, w: int, sv: SnakeView, k: int) -> Seq<bool>
    decreases k,
{
    if k <= 0 {
        cells
    } else {
        clear_prefix(cells, w, sv, k - 1).update(cell_idx(w, sv.nodes[k - 1].position), false)
    }
}

/// Distinct in-bounds points have distinct linear indices.
proof fn lemma_cell_idx_injective(w: int, p: FieldPoint, q: FieldPoint)
    requires
        w >= 1,
        p.x < w,
        q.x < w,
        p != q,
    ensures
        cell_idx(w, p) != cell_idx(w, q),
{
    assert(p.y * w + p.x != q.y * w + q.x) by (nonlinear_arith)
        requires
            0 <= p.x < w,
            0 <= q.x < w,
            p.x != q.x || p.y != q.y,
    ;
}

/// What clearing a body prefix does, cell by cell: exactly the cells of the
/// first `k` segments go out, everything else is untouched.
#[verifier::rlimit(50)]
pub proof fn lemma_clear_prefix_char(cells: Seq<bool>, w: int, h: int, sv: SnakeView, k: int)
    requires
        w >= 1,
        h >= 1,
        cells.len() == w * h,
        0 <= k <= sv.nodes.len(),
        forall|j: int|
            0 <= j < sv.nodes.len() ==> (#[trigger] sv.nodes[j]).position.x < w
                && sv.nodes[j].position.y < h,
    ensures
        clear_prefix(cells, w, sv, k).len() == cells.len(),
        forall|p: FieldPoint|
            #![all_triggers]
            p.x < w && p.y < h ==> clear_prefix(cells, w, sv, k)[cell_idx(w, p)] == (
            cells[cell_idx(w, p)] && !prefix_occupies(sv, k, p)),
    decreases k,
{
    if k > 0 {
        lemma_clear_prefix_char(cells, w, h, sv, k - 1);
        let node_p = sv.nodes[k - 1].position;
        assert(0 <= cell_idx(w, node_p) < w * h) by (nonlinear_arith)
            requires
                0 <= node_p.x < w,
                0 <= node_p.y < h,
        ;
    }
    assert forall|p: FieldPoint|
        #![all_triggers]
        p.x < w && p.y < h implies clear_prefix(cells, w, sv, k)[cell_idx(w, p)] == (
    cells[cell_idx(w, p)] && !prefix_occupies(sv, k, p)) by {
        let bk = prefix_occupies(sv, k, p);
        assert(0 <= cell_idx(w, p) < w * h) by (nonlinear_arith)
            requires
                0 <= p.x < w,
                0 <= p.y < h,
        ;
        if k <= 0 {
            assert(!prefix_occupies(sv, k, p));
        } else {
            let bprev = prefix_occupies(sv, k - 1, p);
            let prev = clear_prefix(cells, w, sv, k - 1);
            let node_p = sv.nodes[k - 1].position;
            assert(prev[cell_idx(w, p)] == (cells[cell_idx(w, p)] && !prefix_occupies(
                sv,
                k - 1,
                p,
            )));
            if p == node_p {
                assert(prefix_occupies(sv, k, p)) by {
                    assert(sv.nodes[k - 1].position == p);
                };
            } else {
                lemma_cell_idx_injective(w, p, node_p);
                assert(clear_prefix(cells, w, sv, k)[cell_idx(w, p)] == prev[cell_idx(w, p)]);
                assert(prefix_occupies(sv, k, p) == prefix_occupies(sv, k - 1, p)) by {
                    if prefix_occupies(sv, k, p) {
                        let j = choose|j: int|
                            0 <= j < k && (#[trigger] sv.nodes[j]).position == p;
                        assert(j < k - 1 || sv.nodes[k - 1].position == p);
                    }
                };
            }
        }
    };
}

impl Game {
    /// Deregisters the snake with identifier `snake_id`: its body cells are
    /// freed and the food minimum drops with the player count. Removing an
    /// unknown identifier (in particular, removing the same snake twice) is
    /// a no-op.
    #[verifier::loop_isolation(false)]
    pub fn remove_snake(&mut self, snake_id: u16)
        requires
            old(self).wf(),
        ensures
            final(self).wf(),
            final(self)@.config == old(self)@.config,
            final(self)@.state == old(self)@.state,
            final(self)@.food.foods == old(self)@.food.foods,
            final(self)@.food.count == old(self)@.food.count,
            final(self)@.food.bag == old(self)@.food.bag,
            ({
                let f = find_snake(old(self)@.snakes, snake_id);
                let w = old(self)@.config.dim.0 as int;
                let h = old(self)@.config.dim.1 as int;
                if f < old(self)@.snakes.len() {
                    &&& final(self)@.snakes == old(self)@.snakes.remove(f)
                    &&& final(self)@.food.minimum == old(self)@.food.minimum - 1
                    &&& final(self)@.cells == clear_prefix(
                        old(self)@.cells,
                        w,
                        old(self)@.snakes[f],
                        old(self)@.snakes[f].nodes.len() as int,
                    )
                } else {
                    *final(self) == *old(self)
                }
            }),
    {
        proof {
            lemma_find_snake(self@.snakes, snake_id);
        }
        let ghost gold = self@;
        let ghost w = self.config.dim.0 as int;
        let ghost h = self.config.dim.1 as int;
        let mut s: usize = 0;
        while s < self.snakes.len()
            invariant
                0 <= s <= self.snakes@.len(),
                *self == *old(self),
                forall|j: int| 0 <= j < s ==> (#[trigger] self@.snakes[j]).id != snake_id,
            decreases self.snakes@.len() - s,
        {
            if self.snakes[s].id == snake_id {
                proof {
                    assert(gold.snakes[s as int] == self.snakes@[s as int]@);
                    lemma_find_snake_at(gold.snakes, snake_id, s as int);
                    assert(gold.snakes[s as int].wf());
                }
                let ghost sv = gold.snakes[s as int];
                let snake = self.snakes.remove(s);
                self.food.minimum = self.food.minimum - 1;
                proof {
                    assert(snake@ == sv);
                }
                let mut k: usize = 0;
                while k < snake.nodes.len()
                    invariant
                        0 <= k <= sv.nodes.len(),
                        snake@ == sv,
                        self.field.wf(),
                        self.field.width == old(self).field.width,
                        self.field.height == old(self).field.height,
                        self.snakes@ == old(self).snakes@.remove(s as int),
                        self.food.minimum == gold.food.minimum - 1,
                        self.food.foods@ == gold.food.foods,
                        self.food.count == gold.food.count,
                        self.food.bag@ == gold.food.bag,
                        self.config == old(self).config,
                        self.state == old(self).state,
                        self@.cells == clear_prefix(gold.cells, w, sv, k as int),
                    decreases sv.nodes.len() - k,
                {
                    let node = snake.nodes[k];
                    proof {
                        assert(sv.nodes[k as int].position.x < self.field.width
                            && sv.nodes[k as int].position.y < self.field.height);
                        self.field.lemma_idx_bounds(node.position);
                    }
                    self.field.set(&node.position, false);
                    k = k + 1;
                    proof {
                        assert(self@.cells == clear_prefix(gold.cells, w, sv, k as int));
                    }
                }
                proof {
                    assert(self@.snakes =~= gold.snakes.remove(s as int)) by {
                        assert forall|j: int|
                            0 <= j < self@.snakes.len() implies self@.snakes[j]
                            == gold.snakes.remove(s as int)[j] by {
                            if j < s {
                                assert(self.snakes@[j] == old(self).snakes@[j]);
                            } else {
                                assert(self.snakes@[j] == old(self).snakes@[j + 1]);
                            }
                        };
                    };
                    lemma_remove_reestablishes_wf(gold, s as int, *self);
                }
                return ;
            }
            s = s + 1;
        }
    }
}

// ---------------------------------------------------------------------------
// The tick model: how one snake moves, and how one tick folds the move over
// every snake in order.
// ---------------------------------------------------------------------------

/// What one snake's move changes: the occupancy cells, the food inventory,
/// and the snake itself.
#[verifier::ext_equal]
pub ghost struct MoveOutcome {
    pub cells: Seq<bool>,
    pub foods: Seq<crate::types::Food>,
    pub snake: SnakeView,
}

/// Score gained on eating, capped at the integer limit rather than wrapping.
pub open spec fn spec_add_score(score: u16, weight: u8) -> u16 {
    if score + weight > u16::MAX {
        u16::MAX
    } else {
        (score + weight) as u16
    }
}

/// One snake's move for the tick. If the candidate head cell is occupied by
/// any body, the move is rejected and nothing changes (the documented
/// collision policy: the snake stalls for this tick). Otherwise the head
/// advances; food on the target cell is consumed and grows the snake by one
/// (the new head is a stuffed segment, no tail is dropped), while an empty
/// target cell gives a same-length crawl (the tail cell is vacated).
pub open spec fn spec_move_snake(
    w: int,
    cells: Seq<bool>,
    foods: Seq<crate::types::Food>,
    sv: SnakeView,
) -> MoveOutcome {
    let nh = sv.next_head();
    let i = cell_idx(w, nh.position);
    if cells[i] {
        MoveOutcome { cells, foods, snake: sv }
    } else {
        let cells1 = cells.update(i, true);
        if cell_claimed(foods, nh.position) {
            let j = first_at(foods, nh.position);
            MoveOutcome {
                cells: cells1,
                foods: foods.remove(j),
                snake: SnakeView {
                    nodes: sv.nodes.push(SnakeNode { stuffed: true, ..nh }),
                    score: spec_add_score(sv.score, foods[j].weight),
                    ..sv
                },
            }
        } else {
            let tail = sv.nodes[0];
            MoveOutcome {
                cells: cells1.update(cell_idx(w, tail.position), false),
                foods,
                snake: SnakeView { nodes: sv.nodes.drop_first().push(nh), ..sv },
            }
        }
    }
}

/// The game after the snake at position `s` has moved.
pub open spec fn spec_crawl_step(g: GameView, s: int) -> GameView {
    let o = spec_move_snake(g.config.dim.0 as int, g.cells, g.food.foods, g.snakes[s]);
    GameView {
        cells: o.cells,
        food: FoodFieldView { foods: o.foods, ..g.food },
        snakes: g.snakes.update(s, o.snake),
        ..g
    }
}

/// The game after the first `n` snakes have moved, in list order.
pub open spec fn spec_crawl_upto(g: GameView, n: int) -> GameView
    decreases n,
{
    if n <= 0 {
        g
    } else {
        spec_crawl_step(spec_crawl_upto(g, n - 1), n - 1)
    }
}

/// The game after every snake has moved once.
pub open spec fn spec_crawl(g: GameView) -> GameView {
    spec_crawl_upto(g, g.snakes.len() as int)
}

/// One full tick: every snake moves, then special food expires. A game that
/// was quit no longer ticks.
pub open spec fn spec_tick(g: GameView) -> GameView {
    if g.state == GameState::Quit {
        g
    } else {
        let g1 = spec_crawl(g);
        GameView {
            food: FoodFieldView { foods: crate::food::spec_tick_foods(g1.food.foods), ..g1.food },
            ..g1
        }
    }
}

/// A toroidal step lands on the grid.
proof fn lemma_wrap_in_bounds(p: FieldPoint, d: WrappableDirection)
    requires
        d.max.x >= 1,
        d.max.y >= 1,
    ensures
        crate::types::spec_add_wrapping(p, d).x < d.max.x,
        crate::types::spec_add_wrapping(p, d).y < d.max.y,
{
    let mx = d.max.x as int;
    let my = d.max.y as int;
    vstd::arithmetic::div_mod::lemma_mod_bound(p.x + 1, mx);
    vstd::arithmetic::div_mod::lemma_mod_bound(p.x + mx - 1, mx);
    vstd::arithmetic::div_mod::lemma_mod_bound(p.x as int, mx);
    vstd::arithmetic::div_mod::lemma_mod_bound(p.y + 1, my);
    vstd::arithmetic::div_mod::lemma_mod_bound(p.y + my - 1, my);
    vstd::arithmetic::div_mod::lemma_mod_bound(p.y as int, my);
}

/// Moving one snake preserves the whole game invariant: the advanced snake
/// stays sound, bodies stay disjoint, occupancy stays exact, and food stays
/// on free cells.
proof fn lemma_move_preserves_wf(g: GameView, s: int)
    requires
        game_wf(g),
        0 <= s < g.snakes.len(),
    ensures
        game_wf(spec_crawl_step(g, s)),
        spec_crawl_step(g, s).config == g.config,
        spec_crawl_step(g, s).state == g.state,
        spec_crawl_step(g, s).snakes.len() == g.snakes.len(),
        spec_crawl_step(g, s).food.minimum == g.food.minimum,
        spec_crawl_step(g, s).food.bag == g.food.bag,
        spec_crawl_step(g, s).food.count == g.food.count,
        spec_crawl_step(g, s).cells.len() == g.cells.len(),
{
    let w = g.config.dim.0 as int;
    let h = g.config.dim.1 as int;
    let sv = g.snakes[s];
    assert(sv.wf());
    assert(sv.direction.max == (FieldPoint { x: g.config.dim.0, y: g.config.dim.1 }));
    let nh = sv.next_head();
    lemma_wrap_in_bounds(sv.head().position, sv.direction);
    assert(nh.position.x < w && nh.position.y < h);
    let i = cell_idx(w, nh.position);
    assert(0 <= nh.position.y * w + nh.position.x < w * h) by (nonlinear_arith)
        requires
            0 <= nh.position.x < w,
            0 <= nh.position.y < h,
    ;
    assert(0 <= i < w * h);
    let g2 = spec_crawl_step(g, s);
    let o = spec_move_snake(w, g.cells, g.food.foods, sv);

    if g.cells[i] {
        assert(g2.snakes =~= g.snakes);
        assert(g2 =~= g);
        return ;
    }

    // The candidate cell is unoccupied, so no body segment of any snake
    // (including the mover's own) lies on it.
    assert(!snakes_occupy(g.snakes, nh.position));
    assert forall|s2: int, k2: int|
        0 <= s2 < g.snakes.len() && 0 <= k2 < g.snakes[s2].nodes.len() implies (
    #[trigger] g.snakes[s2].nodes[k2]).position != nh.position by {
        if g.snakes[s2].nodes[k2].position == nh.position {
            assert(g.snakes[s2].occupies(nh.position));
            assert(snakes_occupy(g.snakes, nh.position));
        }
    };
    // Every body cell is occupied on the field.
    assert forall|s2: int, k2: int|
        0 <= s2 < g.snakes.len() && 0 <= k2 < g.snakes[s2].nodes.len() implies g.cells[cell_idx(
        w,
        (#[trigger] g.snakes[s2].nodes[k2]).position,
    )] by {
        let q = g.snakes[s2].nodes[k2].position;
        assert(g.snakes[s2].occupies(q)) by {
            assert(g.snakes[s2].nodes[k2].position == q);
        };
        assert(snakes_occupy(g.snakes, q));
    };
    crate::types::lemma_opposite_involutive(sv.direction.to);

    let sv2 = o.snake;
    let eats = cell_claimed(g.food.foods, nh.position);
    assert(g2.cells == o.cells);
    assert(g2.snakes == g.snakes.update(s, sv2));
    assert(g2.food.foods == o.foods);
    if eats {
        assert(o.cells == g.cells.update(i, true));
    } else {
        assert(o.cells == g.cells.update(i, true).update(
            cell_idx(w, sv.nodes[0].position),
            false,
        ));
        let t0 = sv.nodes[0].position;
        assert(t0.x < w && t0.y < h);
        assert(0 <= t0.y * w + t0.x < w * h) by (nonlinear_arith)
            requires
                0 <= t0.x < w,
                0 <= t0.y < h,
        ;
        assert(0 <= cell_idx(w, sv.nodes[0].position) < w * h);
    }

    // The moved snake is sound again.
    assert(sv2.wf()) by {
        if eats {
            assert(sv2.nodes =~= sv.nodes.push(SnakeNode { stuffed: true, ..nh }));
            assert forall|j: int, k: int|
                0 <= j < k < sv2.nodes.len() implies (#[trigger] sv2.nodes[j]).position != (
            #[trigger] sv2.nodes[k]).position by {
                if k == sv2.nodes.len() - 1 {
                    assert(sv2.nodes[j] == sv.nodes[j]);
                    assert(g.snakes[s].nodes[j].position != nh.position);
                } else {
                    assert(sv2.nodes[j] == sv.nodes[j]);
                    assert(sv2.nodes[k] == sv.nodes[k]);
                }
            };
        } else {
            assert(sv2.nodes =~= sv.nodes.drop_first().push(nh));
            assert forall|j: int, k: int|
                0 <= j < k < sv2.nodes.len() implies (#[trigger] sv2.nodes[j]).position != (
            #[trigger] sv2.nodes[k]).position by {
                assert(sv2.nodes[j] == sv.nodes[j + 1]);
                if k == sv2.nodes.len() - 1 {
                    assert(g.snakes[s].nodes[j + 1].position != nh.position);
                } else {
                    assert(sv2.nodes[k] == sv.nodes[k + 1]);
                }
            };
        }
    };

    // The moved snake's cells: the old ones (minus the tail on a plain
    // crawl) plus the new head cell.
    assert forall|p: FieldPoint| #[trigger] sv2.occupies(p) implies sv.occupies(p) || p
        == nh.position by {
        let k = choose|k: int| 0 <= k < sv2.nodes.len() && (#[trigger] sv2.nodes[k]).position == p;
        if eats {
            if k < sv2.nodes.len() - 1 {
                assert(sv.nodes[k].position == p);
            }
        } else {
            if k < sv2.nodes.len() - 1 {
                assert(sv.nodes[k + 1].position == p);
            }
        }
    };

    // Bodies of distinct snakes stay disjoint.
    assert forall|s1: int, s2: int, p: FieldPoint|
        #![trigger g2.snakes[s1].occupies(p), g2.snakes[s2].occupies(p)]
        0 <= s1 < s2 < g2.snakes.len() && g2.snakes[s1].occupies(p) implies !g2.snakes[s2].occupies(
        p,
    ) by {
        if s1 != s && s2 != s {
            assert(g2.snakes[s1] == g.snakes[s1]);
            assert(g2.snakes[s2] == g.snakes[s2]);
            assert(g.snakes[s1].occupies(p) ==> !g.snakes[s2].occupies(p));
        } else {
            let other = if s1 == s {
                s2
            } else {
                s1
            };
            assert(g2.snakes[other] == g.snakes[other]);
            assert(g2.snakes[s] == sv2);
            if g2.snakes[other].occupies(p) && sv2.occupies(p) {
                if p == nh.position {
                    let k2 = choose|k2: int|
                        0 <= k2 < g.snakes[other].nodes.len() && (
                        #[trigger] g.snakes[other].nodes[k2]).position == p;
                    assert(false);
                } else {
                    assert(sv.occupies(p));
                    if s1 == s {
                        assert(g.snakes[s].occupies(p) && s < s2 ==> !g.snakes[s2].occupies(p));
                        if s < s2 {
                            assert(!g.snakes[s2].occupies(p));
                        } else {
                            assert(g.snakes[s2].occupies(p) ==> !g.snakes[s].occupies(p));
                        }
                    } else {
                        if s1 < s {
                            assert(g.snakes[s1].occupies(p) ==> !g.snakes[s].occupies(p));
                        } else {
                            assert(g.snakes[s].occupies(p) ==> !g.snakes[s1].occupies(p));
                        }
                    }
                    assert(false);
                }
            }
        }
    };

    // Occupancy stays exact.
    assert forall|p: FieldPoint|
        p.x < w && p.y < h implies g2.cells[cell_idx(w, p)] == #[trigger] snakes_occupy(
        g2.snakes,
        p,
    ) by {
        let bold = snakes_occupy(g.snakes, p);
        assert(g.cells[cell_idx(w, p)] == snakes_occupy(g.snakes, p));
        assert(0 <= p.y * w + p.x < w * h) by (nonlinear_arith)
            requires
                0 <= p.x < w,
                0 <= p.y < h,
        ;
        assert(0 <= cell_idx(w, p) < w * h);
        if p == nh.position {
            if !eats {
                let tnode = g.snakes[s].nodes[0];
                assert(g.cells[cell_idx(w, tnode.position)]);
                assert(cell_idx(w, tnode.position) != i);
            }
            assert(g2.cells[cell_idx(w, p)]);
            assert(sv2.occupies(p)) by {
                assert(sv2.nodes.last().position == p);
            };
            assert(g2.snakes[s] == sv2);
            assert(snakes_occupy(g2.snakes, p));
        } else {
            lemma_cell_idx_injective(w, p, nh.position);
            if !eats && p == sv.nodes[0].position {
                // The vacated tail cell: now free and occupied by nobody.
                assert(!g2.cells[cell_idx(w, p)]);
                if snakes_occupy(g2.snakes, p) {
                    let s2 = choose|s2: int|
                        0 <= s2 < g2.snakes.len() && (#[trigger] g2.snakes[s2]).occupies(p);
                    if s2 == s {
                        let k = choose|k: int|
                            0 <= k < sv2.nodes.len() && (#[trigger] sv2.nodes[k]).position == p;
                        if k < sv2.nodes.len() - 1 {
                            assert(sv2.nodes[k] == sv.nodes[k + 1]);
                            assert(sv.nodes[0].position != sv.nodes[k + 1].position);
                        }
                        assert(false);
                    } else {
                        assert(g2.snakes[s2] == g.snakes[s2]);
                        assert(sv.occupies(p)) by {
                            assert(sv.nodes[0].position == p);
                        };
                        assert(g.snakes[s2].occupies(p));
                        if s < s2 {
                            assert(g.snakes[s].occupies(p) ==> !g.snakes[s2].occupies(p));
                        } else {
                            assert(g.snakes[s2].occupies(p) ==> !g.snakes[s].occupies(p));
                        }
                        assert(false);
                    }
                }
            } else {
                // Any other cell: both sides unchanged.
                lemma_cell_idx_injective(w, p, nh.position);
                if !eats {
                    lemma_cell_idx_injective(w, p, sv.nodes[0].position);
                }
                assert(g2.cells[cell_idx(w, p)] == g.cells[cell_idx(w, p)]);
                if snakes_occupy(g.snakes, p) {
                    let s2 = choose|s2: int|
                        0 <= s2 < g.snakes.len() && (#[trigger] g.snakes[s2]).occupies(p);
                    if s2 == s {
                        let k = choose|k: int|
                            0 <= k < sv.nodes.len() && (#[trigger] sv.nodes[k]).position == p;
                        assert(sv2.occupies(p)) by {
                            if eats {
                                assert(sv2.nodes[k].position == p);
                            } else {
                                assert(k != 0);
                                assert(sv2.nodes[k - 1] == sv.nodes[k]);
                            }
                        };
                        assert(g2.snakes[s] == sv2);
                        assert(snakes_occupy(g2.snakes, p));
                    } else {
                        assert(g2.snakes[s2] == g.snakes[s2]);
                        assert(snakes_occupy(g2.snakes, p));
                    }
                } else {
                    if snakes_occupy(g2.snakes, p) {
                        let s2 = choose|s2: int|
                            0 <= s2 < g2.snakes.len() && (#[trigger] g2.snakes[s2]).occupies(p);
                        if s2 == s {
                            assert(sv.occupies(p) || p == nh.position);
                            assert(snakes_occupy(g.snakes, p)) by {
                                assert(g.snakes[s].occupies(p));
                            };
                        } else {
                            assert(g2.snakes[s2] == g.snakes[s2]);
                            assert(snakes_occupy(g.snakes, p));
                        }
                        assert(false);
                    }
                }
            }
        }
    };

    // Remaining snakes and their headings are untouched.
    assert forall|j: int| 0 <= j < g2.snakes.len() implies (#[trigger] g2.snakes[j]).wf()
        && g2.snakes[j].direction.max == (FieldPoint { x: g.config.dim.0, y: g.config.dim.1 })
        by {
        if j != s {
            assert(g2.snakes[j] == g.snakes[j]);
        } else {
            assert(g2.snakes[j] == sv2);
        }
    };
    assert forall|s1: int, s2: int|
        0 <= s1 < s2 < g2.snakes.len() implies (#[trigger] g2.snakes[s1]).id != (
    #[trigger] g2.snakes[s2]).id by {
        assert(g2.snakes[s1].id == g.snakes[s1].id) by {
            if s1 != s {
                assert(g2.snakes[s1] == g.snakes[s1]);
            }
        };
        assert(g2.snakes[s2].id == g.snakes[s2].id) by {
            if s2 != s {
                assert(g2.snakes[s2] == g.snakes[s2]);
            }
        };
    };

    // Food: the eaten item disappears; the rest stays sound and keeps off
    // the updated occupancy.
    crate::food::lemma_first_at(g.food.foods, nh.position);
    let jf = first_at(g.food.foods, nh.position);
    assert forall|m: int|
        0 <= m < g2.food.foods.len() implies crate::food::food_shape_wf(
        #[trigger] g2.food.foods[m],
    ) && food_in_bounds(w, h, g2.food.foods[m]) && food_off_cells(w, g2.cells, g2.food.foods[m])
        by {
        let orig = if eats {
            if m < jf {
                m
            } else {
                m + 1
            }
        } else {
            m
        };
        let f = g.food.foods[orig];
        assert(g2.food.foods[m] == f);
        assert(crate::food::food_shape_wf(f));
        assert(food_in_bounds(w, h, f));
        assert(food_off_cells(w, g.cells, f));
        assert(0 <= f.location.y * w + f.location.x < w * h) by (nonlinear_arith)
            requires
                0 <= f.location.x < w,
                0 <= f.location.y < h,
        ;
        assert(0 <= cell_idx(w, f.location) < w * h);
        if f.shape != FoodType::Basic {
            let q0 = FieldPoint { x: (f.location.x + 1) as u16, y: f.location.y };
            assert(0 <= q0.y * w + q0.x < w * h) by (nonlinear_arith)
                requires
                    0 <= q0.x < w,
                    0 <= q0.y < h,
            ;
            assert(0 <= cell_idx(w, q0) < w * h);
        }
        // Neither of the item's cells is the new head cell: on an eating
        // move, that would make it overlap the eaten item; on a plain
        // crawl, the head cell carries no food at all.
        assert(!crate::types::spec_is_at(f, nh.position)) by {
            if eats {
                assert(crate::types::spec_is_at(g.food.foods[jf], nh.position));
                if orig < jf {
                    assert(crate::types::spec_is_at(g.food.foods[orig], nh.position)
                        ==> !crate::types::spec_is_at(g.food.foods[jf], nh.position));
                } else {
                    assert(orig > jf);
                    assert(crate::types::spec_is_at(g.food.foods[jf], nh.position)
                        ==> !crate::types::spec_is_at(g.food.foods[orig], nh.position));
                }
            }
        };
        assert(f.location != nh.position) by {
            if f.location == nh.position {
                assert(crate::types::spec_is_at(f, nh.position));
            }
        };
        lemma_cell_idx_injective(w, f.location, nh.position);
        if f.shape != FoodType::Basic {
            let q = FieldPoint { x: (f.location.x + 1) as u16, y: f.location.y };
            assert(q != nh.position) by {
                if q == nh.position {
                    assert(crate::types::spec_is_at(f, nh.position));
                }
            };
            lemma_cell_idx_injective(w, q, nh.position);
        }
    };
    assert(foods_disjoint(g2.food.foods)) by {
        assert forall|m1: int, m2: int, p: FieldPoint|
            #![trigger crate::types::spec_is_at(g2.food.foods[m1], p), crate::types::spec_is_at(g2.food.foods[m2], p)]
            0 <= m1 < m2 < g2.food.foods.len() && crate::types::spec_is_at(
                g2.food.foods[m1],
                p,
            ) implies !crate::types::spec_is_at(g2.food.foods[m2], p) by {
            let o1 = if eats && m1 >= jf {
                m1 + 1
            } else {
                m1
            };
            let o2 = if eats && m2 >= jf {
                m2 + 1
            } else {
                m2
            };
            assert(g2.food.foods[m1] == g.food.foods[o1]);
            assert(g2.food.foods[m2] == g.food.foods[o2]);
            assert(crate::types::spec_is_at(g.food.foods[o1], p) ==> !crate::types::spec_is_at(
                g.food.foods[o2],
                p,
            ));
        };
    };
    assert(g2.food.minimum == g2.snakes.len());
}

/// Folding the move over the first `n` snakes keeps the game invariant.
proof fn lemma_crawl_upto_preserves(g: GameView, n: int)
    requires
        game_wf(g),
        0 <= n <= g.snakes.len(),
    ensures
        game_wf(spec_crawl_upto(g, n)),
        spec_crawl_upto(g, n).config == g.config,
        spec_crawl_upto(g, n).state == g.state,
        spec_crawl_upto(g, n).snakes.len() == g.snakes.len(),
        spec_crawl_upto(g, n).food.minimum == g.food.minimum,
        spec_crawl_upto(g, n).food.bag == g.food.bag,
        spec_crawl_upto(g, n).food.count == g.food.count,
        spec_crawl_upto(g, n).cells.len() == g.cells.len(),
    decreases n,
{
    if n > 0 {
        lemma_crawl_upto_preserves(g, n - 1);
        lemma_move_preserves_wf(spec_crawl_upto(g, n - 1), n - 1);
    }
}

/// Every item of the ticked inventory is the aged version of an original
/// item, and aging moves no cell.
proof fn lemma_tick_foods_items(foods: Seq<crate::types::Food>)
    ensures
        forall|m: int|
            0 <= m < crate::food::spec_tick_foods(foods).len() ==> exists|j: int|
                0 <= j < foods.len() && #[trigger] crate::food::spec_tick_foods(foods)[m]
                    == crate::food::spec_food_age(foods[j]),
    decreases foods.len(),
{
    let ticked = crate::food::spec_tick_foods(foods);
    if foods.len() > 0 {
        let rest = foods.drop_last();
        lemma_tick_foods_items(rest);
        assert forall|m: int| 0 <= m < ticked.len() implies exists|j: int|
            0 <= j < foods.len() && #[trigger] ticked[m] == crate::food::spec_food_age(
                foods[j],
            ) by {
            if m < crate::food::spec_tick_foods(rest).len() {
                assert(ticked[m] == crate::food::spec_tick_foods(rest)[m]);
                let j = choose|j: int|
                    0 <= j < rest.len() && #[trigger] crate::food::spec_tick_foods(rest)[m]
                        == crate::food::spec_food_age(rest[j]);
                assert(foods[j] == rest[j]);
                assert(ticked[m] == crate::food::spec_food_age(foods[j]));
            } else {
                assert(ticked[m] == crate::food::spec_food_age(foods[foods.len() - 1]));
            }
        };
    }
}

/// Aging a food item covers exactly the same cells.
proof fn lemma_age_same_cells(f: crate::types::Food)
    ensures
        forall|p: FieldPoint|
            crate::types::spec_is_at(#[trigger] crate::food::spec_food_age(f), p)
                == crate::types::spec_is_at(f, p),
        crate::food::spec_food_age(f).shape == f.shape,
        crate::food::spec_food_age(f).location == f.location,
        crate::food::spec_food_age(f).size == f.size,
{
}

/// Expiring special food preserves the game invariant: surviving items keep
/// their cells, stay disjoint, and stay off the occupied cells.
proof fn lemma_tick_foods_preserves_wf(g: GameView)
    requires
        game_wf(g),
    ensures
        game_wf(
            GameView {
                food: FoodFieldView {
                    foods: crate::food::spec_tick_foods(g.food.foods),
                    ..g.food
                },
                ..g
            },
        ),
    decreases g.food.foods.len(),
{
    let w = g.config.dim.0 as int;
    let h = g.config.dim.1 as int;
    let foods = g.food.foods;
    let ticked = crate::food::spec_tick_foods(foods);
    let g2 = GameView { food: FoodFieldView { foods: ticked, ..g.food }, ..g };
    lemma_tick_foods_items(foods);
    assert forall|m: int|
        0 <= m < ticked.len() implies crate::food::food_shape_wf(#[trigger] ticked[m])
        && food_in_bounds(w, h, ticked[m]) && food_off_cells(w, g.cells, ticked[m]) by {
        let j = choose|j: int|
            0 <= j < foods.len() && #[trigger] ticked[m] == crate::food::spec_food_age(foods[j]);
        lemma_age_same_cells(foods[j]);
        assert(crate::food::food_shape_wf(foods[j]));
        assert(food_in_bounds(w, h, foods[j]));
        assert(food_off_cells(w, g.cells, foods[j]));
    };
    lemma_tick_foods_disjoint(foods);
    assert forall|p: FieldPoint|
        p.x < w && p.y < h implies g2.cells[cell_idx(w, p)] == #[trigger] snakes_occupy(
        g2.snakes,
        p,
    ) by {
        let b = snakes_occupy(g.snakes, p);
        assert(g.cells[cell_idx(w, p)] == snakes_occupy(g.snakes, p));
    };
    assert forall|s1: int, s2: int, p: FieldPoint|
        #![trigger g2.snakes[s1].occupies(p), g2.snakes[s2].occupies(p)]
        0 <= s1 < s2 < g2.snakes.len() && g2.snakes[s1].occupies(p) implies !g2.snakes[s2].occupies(
        p,
    ) by {
        assert(g.snakes[s1].occupies(p) ==> !g.snakes[s2].occupies(p));
    };
}

/// Survivors of an expiry tick still never share a cell.
proof fn lemma_tick_foods_disjoint(foods: Seq<crate::types::Food>)
    requires
        foods_disjoint(foods),
    ensures
        foods_disjoint(crate::food::spec_tick_foods(foods)),
    decreases foods.len(),
{
    let ticked = crate::food::spec_tick_foods(foods);
    if foods.len() > 0 {
        let rest = foods.drop_last();
        let last = foods.last();
        assert(foods_disjoint(rest)) by {
            assert forall|i: int, j: int, p: FieldPoint|
                #![trigger crate::types::spec_is_at(rest[i], p), crate::types::spec_is_at(rest[j], p)]
                0 <= i < j < rest.len() && crate::types::spec_is_at(rest[i], p) implies
                !crate::types::spec_is_at(rest[j], p) by {
                assert(rest[i] == foods[i]);
                assert(rest[j] == foods[j]);
                assert(crate::types::spec_is_at(foods[i], p) ==> !crate::types::spec_is_at(
                    foods[j],
                    p,
                ));
            };
        };
        lemma_tick_foods_disjoint(rest);
        lemma_tick_foods_items(rest);
        let tr = crate::food::spec_tick_foods(rest);
        assert forall|i: int, j: int, p: FieldPoint|
            #![trigger crate::types::spec_is_at(ticked[i], p), crate::types::spec_is_at(ticked[j], p)]
            0 <= i < j < ticked.len() && crate::types::spec_is_at(ticked[i], p) implies
            !crate::types::spec_is_at(ticked[j], p) by {
            if j < tr.len() {
                assert(ticked[i] == tr[i]);
                assert(ticked[j] == tr[j]);
                assert(crate::types::spec_is_at(tr[i], p) ==> !crate::types::spec_is_at(
                    tr[j],
                    p,
                ));
            } else {
                // `j` is the aged last item; `i` comes from the rest.
                assert(ticked[i] == tr[i]);
                assert(ticked[j] == crate::food::spec_food_age(last));
                let oj = choose|oj: int|
                    0 <= oj < rest.len() && #[trigger] tr[i] == crate::food::spec_food_age(
                        rest[oj],
                    );
                lemma_age_same_cells(rest[oj]);
                lemma_age_same_cells(last);
                assert(rest[oj] == foods[oj]);
                assert(crate::types::spec_is_at(foods[oj], p) ==> !crate::types::spec_is_at(
                    foods[foods.len() - 1],
                    p,
                ));
            }
        };
    }
}

impl Game {
    /// Saturating score gain on eating.
    fn add_score(score: u16, weight: u8) -> (r: u16)
        ensures
            r == spec_add_score(score, weight),
    {
        if score > u16::MAX - (weight as u16) {
            u16::MAX
        } else {
            score + (weight as u16)
        }
    }

    /// Resolves one tick of movement: each live snake, in list order, either
    /// stalls (candidate cell occupied), grows (candidate cell holds food),
    /// or crawls one cell forward.
    #[verifier::loop_isolation(false)]
    fn crawl(&mut self)
        requires
            old(self).wf(),
        ensures
            final(self).wf(),
            final(self)@ == spec_crawl(old(self)@),
            final(self).config == old(self).config,
            final(self).state == old(self).state,
            final(self).field.width == old(self).field.width,
            final(self).field.height == old(self).field.height,
    {
        let ghost gold = self@;
        let ghost w = self.config.dim.0 as int;
        let n = self.snakes.len();
        let mut s: usize = 0;
        while s < n
            invariant
                0 <= s <= n,
                n == gold.snakes.len(),
                self.config == old(self).config,
                self.state == old(self).state,
                self.field.wf(),
                self.field.width == old(self).field.width,
                self.field.height == old(self).field.height,
                self@ == spec_crawl_upto(gold, s as int),
                self.snakes@.len() == n,
            decreases n - s,
        {
            proof {
                lemma_crawl_upto_preserves(gold, s as int);
                lemma_crawl_upto_preserves(gold, s as int + 1);
            }
            let ghost gcur = self@;
            let ghost gnext = spec_crawl_step(gcur, s as int);
            let ghost vprev = self.snakes@;
            let mut snake = self.snakes.remove(s);
            proof {
                assert(snake@ == gcur.snakes[s as int]);
                assert(gcur.snakes[s as int].wf());
                lemma_wrap_in_bounds(snake@.head().position, snake@.direction);
            }
            let next_head = snake.next_head();
            proof {
                self.field.lemma_idx_bounds(next_head.position);
            }
            let ghost o = spec_move_snake(w, gcur.cells, gcur.food.foods, gcur.snakes[s as int]);
            if !self.field.filled(&next_head.position) {
                self.field.set(&next_head.position, true);
                let grabbed = self.food.grab(&next_head.position);
                match grabbed {
                    Some(food) => {
                        snake.score = Game::add_score(snake.score, food.weight);
                        snake.nodes.push_back(
                            SnakeNode {
                                direction: next_head.direction,
                                position: next_head.position,
                                stuffed: true,
                            },
                        );
                        proof {
                            assert(snake@ =~= o.snake);
                        }
                    },
                    Option::None => {
                        let popped = snake.nodes.pop_front();
                        let tail = match popped {
                            Some(t) => t,
                            Option::None => {
                                proof {
                                    assert(false);
                                }
                                next_head
                            },
                        };
                        proof {
                            assert(tail == gcur.snakes[s as int].nodes[0]);
                            self.field.lemma_idx_bounds(tail.position);
                        }
                        self.field.set(&tail.position, false);
                        snake.nodes.push_back(next_head);
                        proof {
                            assert(snake@.nodes =~= gcur.snakes[s as int].nodes.drop_first().push(
                                next_head,
                            ));
                            assert(snake@ =~= o.snake);
                        }
                    },
                }
            } else {
                proof {
                    assert(snake@ =~= o.snake);
                }
            }
            self.snakes.insert(s, snake);
            s = s + 1;
            proof {
                assert(self@.snakes =~= gnext.snakes) by {
                    assert(self.snakes@ == vprev.remove(s as int - 1).insert(s as int - 1, snake));
                    assert forall|j: int| 0 <= j < self@.snakes.len() implies self@.snakes[j]
                        == gnext.snakes[j] by {
                        if j < s - 1 {
                            assert(self.snakes@[j] == vprev[j]);
                            assert(gcur.snakes[j] == vprev[j]@);
                        } else if j > s - 1 {
                            assert(self.snakes@[j] == vprev.remove(s as int - 1)[j - 1]);
                            assert(vprev.remove(s as int - 1)[j - 1] == vprev[j]);
                            assert(gcur.snakes[j] == vprev[j]@);
                        } else {
                            assert(self.snakes@[j] == snake);
                        }
                    };
                };
                assert(self@ =~= gnext);
                assert(self@ == spec_crawl_upto(gold, s as int));
            }
        }
        proof {
            lemma_crawl_upto_preserves(gold, n as int);
            assert(self@ == spec_crawl(gold));
        }
    }

    /// Hands the whole visible state to a renderer: every snake, then every
    /// food item. The renderer is a pure sink; the game is untouched.
    pub fn draw<R: crate::render::GameRender>(&mut self, render: &mut R)
        requires
            old(self).wf(),
        ensures
            *final(self) == *old(self),
    {
        let mut i: usize = 0;
        while i < self.snakes.len()
            invariant
                *self == *old(self),
            decreases self.snakes@.len() - i,
        {
            render.snake_full(&self.snakes[i], &self.food);
            i = i + 1;
        }
        let mut j: usize = 0;
        while j < self.food.foods.len()
            invariant
                *self == *old(self),
            decreases self.food.foods@.len() - j,
        {
            render.added_food(&self.food.foods[j]);
            j = j + 1;
        }
    }

    /// Advances the simulation one tick: resolves every snake's movement,
    /// then expires special food. A quit game no longer ticks.
    pub fn tick(&mut self)
        requires
            old(self).wf(),
        ensures
            final(self).wf(),
            final(self)@ == spec_tick(old(self)@),
    {
        if let GameState::Quit = self.state {
            return ;
        }
        self.crawl();
        proof {
            lemma_crawl_upto_preserves(old(self)@, old(self)@.snakes.len() as int);
            lemma_tick_foods_preserves_wf(self@);
        }
        let ghost before_food = self@;
        self.food.tick();
        proof {
            assert(self@ =~= (GameView {
                food: FoodFieldView {
                    foods: crate::food::spec_tick_foods(before_food.food.foods),
                    ..before_food.food
                },
                ..before_food
            }));
        }
    }
}

/// The largest identifier in use, or 0 for an empty list.
pub open spec fn max_snake_id(snakes: Seq<SnakeView>) -> int
    decreases snakes.len(),
{
    if snakes.len() == 0 {
        0
    } else if max_snake_id(snakes.drop_last()) >= snakes.last().id {
        max_snake_id(snakes.drop_last())
    } else {
        snakes.last().id as int
    }
}

/// No identifier exceeds the maximum.
proof fn lemma_max_snake_id(snakes: Seq<SnakeView>)
    ensures
        0 <= max_snake_id(snakes),
        forall|j: int| 0 <= j < snakes.len() ==> (#[trigger] snakes[j]).id <= max_snake_id(snakes),
    decreases snakes.len(),
{
    if snakes.len() > 0 {
        lemma_max_snake_id(snakes.drop_last());
        assert forall|j: int| 0 <= j < snakes.len() implies (#[trigger] snakes[j]).id
            <= max_snake_id(snakes) by {
            if j < snakes.len() - 1 {
                assert(snakes.drop_last()[j] == snakes[j]);
            }
        };
    }
}

/// The start cell and heading of the snake seeded for player slot `row`.
pub open spec fn slot_start(g: GameView, row: int) -> FieldPoint {
    FieldPoint { x: 0, y: row as u16 }
}

/// The wrapping heading a new snake is seeded with.
pub open spec fn spawn_direction(g: GameView) -> WrappableDirection {
    WrappableDirection {
        to: g.config.direction,
        max: FieldPoint { x: g.config.dim.0, y: g.config.dim.1 },
    }
}

/// Whether the whole spawn row for the next snake is free: every seeded cell
/// unoccupied and unclaimed by food.
pub open spec fn spawn_cells_free(g: GameView) -> bool {
    forall|k: nat|
        k < g.config.size ==> !g.cells[cell_idx(
            g.config.dim.0 as int,
            #[trigger] crate::snake::seed_pos(
                slot_start(g, g.snakes.len() as int),
                spawn_direction(g),
                k,
            ),
        )] && !cell_claimed(
            g.food.foods,
            crate::snake::seed_pos(slot_start(g, g.snakes.len() as int), spawn_direction(g), k),
        )
}

/// Whether a new snake can join at all: a spawn row exists on the grid, it
/// is entirely free, and a fresh identifier is available.
pub open spec fn can_add_snake(g: GameView) -> bool {
    &&& g.snakes.len() < g.config.dim.1
    &&& max_snake_id(g.snakes) < u16::MAX
    &&& spawn_cells_free(g)
}

impl Game {
    /// Registers a new player: seeds a snake on the next free row (row index
    /// = current snake count) under a fresh identifier and raises the food
    /// minimum with the player count. Returns the new identifier, or nothing
    /// -- changing nothing -- when the spawn row is missing or blocked; a
    /// blocked spawn is refused rather than overlapped, keeping the
    /// occupancy invariant intact.
    #[verifier::loop_isolation(false)]
    pub fn add_snake(&mut self) -> (r: Option<u16>)
        requires
            old(self).wf(),
        ensures
            final(self).wf(),
            final(self)@.config == old(self)@.config,
            final(self)@.state == old(self)@.state,
            final(self)@.food.foods == old(self)@.food.foods,
            r is Some <==> can_add_snake(old(self)@),
            r is None ==> *final(self) == *old(self),
            r matches Some(id) ==> {
                &&& id == max_snake_id(old(self)@.snakes) + 1
                &&& final(self)@.snakes == old(self)@.snakes.push(
                    SnakeView {
                        nodes: crate::snake::seed_body(
                            slot_start(old(self)@, old(self)@.snakes.len() as int),
                            spawn_direction(old(self)@),
                            old(self)@.config.size as nat,
                        ),
                        direction: spawn_direction(old(self)@),
                        score: 0,
                        id,
                    },
                )
                &&& final(self)@.food.minimum == old(self)@.food.minimum + 1
            },
    {
        let ghost gold = self@;
        let ghost w = self.config.dim.0 as int;
        let ghost h = self.config.dim.1 as int;
        let row = self.snakes.len();
        if row >= self.config.dim.1 as usize {
            proof {
                assert(!can_add_snake(gold));
            }
            return None;
        }

        // A fresh identifier: one above the largest in use.
        let mut max_id: u16 = 0;
        let mut i: usize = 0;
        while i < self.snakes.len()
            invariant
                0 <= i <= self.snakes@.len(),
                *self == *old(self),
                max_id as int == max_snake_id(gold.snakes.take(i as int)),
            decreases self.snakes@.len() - i,
        {
            proof {
                assert(gold.snakes.take(i as int + 1).drop_last() =~= gold.snakes.take(i as int));
                assert(gold.snakes.take(i as int + 1).last() == gold.snakes[i as int]);
            }
            if self.snakes[i].id > max_id {
                max_id = self.snakes[i].id;
            }
            i = i + 1;
        }
        proof {
            assert(gold.snakes.take(gold.snakes.len() as int) =~= gold.snakes);
        }
        if max_id == u16::MAX {
            proof {
                assert(!can_add_snake(gold));
            }
            return None;
        }
        let id = max_id + 1;

        // The spawn row must be entirely free: occupied or food-claimed
        // cells refuse the spawn instead of being overwritten.
        let start = FieldPoint { x: 0, y: row as u16 };
        let to = WrappableDirection {
            to: self.config.direction,
            max: FieldPoint { x: self.config.dim.0, y: self.config.dim.1 },
        };
        let size = self.config.size;
        let mut p = start;
        let mut k: u16 = 0;
        proof {
            assert(to == spawn_direction(gold));
            assert(start == slot_start(gold, gold.snakes.len() as int));
            assert(crate::snake::seed_pos(start, to, 0) == start);
        }
        while k < size
            invariant
                0 <= k <= size,
                *self == *old(self),
                p == crate::snake::seed_pos(start, to, k as nat),
                p.x < self.config.dim.0,
                p.y < self.config.dim.1,
                forall|j: nat|
                    j < k ==> !gold.cells[cell_idx(
                        w,
                        #[trigger] crate::snake::seed_pos(start, to, j),
                    )] && !cell_claimed(
                        gold.food.foods,
                        crate::snake::seed_pos(start, to, j),
                    ),
            decreases size - k,
        {
            proof {
                self.field.lemma_idx_bounds(p);
            }
            if self.field.filled(&p) {
                proof {
                    assert(!spawn_cells_free(gold)) by {
                        let kk = k as nat;
                        assert(gold.cells[cell_idx(w, crate::snake::seed_pos(start, to, kk))]);
                    };
                }
                return None;
            }
            if self.food.has_at(&p).is_some() {
                proof {
                    assert(!spawn_cells_free(gold)) by {
                        let kk = k as nat;
                        assert(cell_claimed(
                            gold.food.foods,
                            crate::snake::seed_pos(start, to, kk),
                        ));
                    };
                }
                return None;
            }
            p = p.add_wrapping(to);
            k = k + 1;
            proof {
                assert forall|j: nat| j < k implies !gold.cells[cell_idx(
                    w,
                    #[trigger] crate::snake::seed_pos(start, to, j),
                )] && !cell_claimed(gold.food.foods, crate::snake::seed_pos(start, to, j)) by {
                    let b = crate::snake::seed_pos(start, to, j);
                }
            }
        }
        proof {
            assert(spawn_cells_free(gold));
            assert(can_add_snake(gold));
        }

        // Seed the body and register the snake.
        let mut spawn_config = self.config;
        spawn_config.start = (0, row as u16);
        let snake = Snake::new(&mut self.field, &spawn_config, id);
        let ghost svnew = snake@;
        self.snakes.push(snake);
        self.food.minimum = self.food.minimum + 1;
        proof {
            assert(self@.snakes =~= gold.snakes.push(svnew));
            lemma_max_snake_id(gold.snakes);
            lemma_add_reestablishes_wf(gold, svnew, *self);
        }
        Some(id)
    }
}

/// After seeding one new snake on free, unclaimed cells, the game invariant
/// holds again.
proof fn lemma_add_reestablishes_wf(g: GameView, sv: SnakeView, game2: Game)
    requires
        game_wf(g),
        can_add_snake(g),
        sv.wf(),
        sv.id == max_snake_id(g.snakes) + 1,
        sv.direction == spawn_direction(g),
        sv.nodes == crate::snake::seed_body(
            slot_start(g, g.snakes.len() as int),
            spawn_direction(g),
            g.config.size as nat,
        ),
        game2.field.wf(),
        game2.field.width == g.config.dim.0,
        game2.field.height == g.config.dim.1,
        game2.config == g.config,
        game2.state == g.state,
        game2@.snakes == g.snakes.push(sv),
        game2@.food.minimum == g.food.minimum + 1,
        game2@.food.foods == g.food.foods,
        game2@.food.bag == g.food.bag,
        game2@.cells.len() == g.cells.len(),
        forall|i: int|
            0 <= i < g.cells.len() ==> game2@.cells[i] == (g.cells[i] || exists|k: nat|
                k < g.config.size && i == cell_idx(
                    g.config.dim.0 as int,
                    #[trigger] crate::snake::seed_pos(
                        slot_start(g, g.snakes.len() as int),
                        spawn_direction(g),
                        k,
                    ),
                )),
    ensures
        game2.wf(),
{
    let w = g.config.dim.0 as int;
    let h = g.config.dim.1 as int;
    let g2 = game2@;
    let start = slot_start(g, g.snakes.len() as int);
    let d = spawn_direction(g);
    let size = g.config.size as nat;
    lemma_max_snake_id(g.snakes);

    // The new snake's cells are exactly the seeded cells.
    assert forall|p: FieldPoint| #[trigger] sv.occupies(p) implies exists|k: nat|
        k < size && #[trigger] crate::snake::seed_pos(start, d, k) == p by {
        let j = choose|j: int| 0 <= j < sv.nodes.len() && (#[trigger] sv.nodes[j]).position == p;
        assert(sv.nodes[j] == crate::snake::seed_node(start, d, j as nat));
        assert(crate::snake::seed_pos(start, d, j as nat) == p);
    };
    assert forall|k: nat| k < size implies sv.occupies(
        #[trigger] crate::snake::seed_pos(start, d, k),
    ) by {
        assert(sv.nodes[k as int].position == crate::snake::seed_pos(start, d, k));
    };

    // Seeded cells were unoccupied, so no old snake stands on them.
    assert forall|p: FieldPoint| p.x < w && p.y < h && #[trigger] sv.occupies(p) implies !(
    #[trigger] snakes_occupy(g.snakes, p)) by {
        let k = choose|k: nat| k < size && #[trigger] crate::snake::seed_pos(start, d, k) == p;
        assert(!g.cells[cell_idx(w, crate::snake::seed_pos(start, d, k))]);
        assert(!g.cells[cell_idx(w, p)]);
    };

    assert forall|j: int| 0 <= j < g2.snakes.len() implies (#[trigger] g2.snakes[j]).wf()
        && g2.snakes[j].direction.max == (FieldPoint { x: g.config.dim.0, y: g.config.dim.1 })
        by {
        if j < g.snakes.len() {
            assert(g2.snakes[j] == g.snakes[j]);
        } else {
            assert(g2.snakes[j] == sv);
        }
    };
    assert forall|s1: int, s2: int|
        0 <= s1 < s2 < g2.snakes.len() implies (#[trigger] g2.snakes[s1]).id != (
    #[trigger] g2.snakes[s2]).id by {
        if s2 < g.snakes.len() {
            assert(g2.snakes[s1] == g.snakes[s1]);
            assert(g2.snakes[s2] == g.snakes[s2]);
        } else {
            assert(g2.snakes[s1] == g.snakes[s1]);
            assert(g2.snakes[s2] == sv);
            assert(g.snakes[s1].id <= max_snake_id(g.snakes));
        }
    };
    assert forall|s1: int, s2: int, p: FieldPoint|
        #![trigger g2.snakes[s1].occupies(p), g2.snakes[s2].occupies(p)]
        0 <= s1 < s2 < g2.snakes.len() && g2.snakes[s1].occupies(p) implies !g2.snakes[s2].occupies(
        p,
    ) by {
        if s2 < g.snakes.len() {
            assert(g2.snakes[s1] == g.snakes[s1]);
            assert(g2.snakes[s2] == g.snakes[s2]);
            assert(g.snakes[s1].occupies(p) ==> !g.snakes[s2].occupies(p));
        } else {
            assert(g2.snakes[s1] == g.snakes[s1]);
            assert(g2.snakes[s2] == sv);
            if sv.occupies(p) {
                assert(g.snakes[s1].wf());
                assert(p.x < w && p.y < h) by {
                    let k = choose|k: nat|
                        k < size && #[trigger] crate::snake::seed_pos(start, d, k) == p;
                    crate::snake::lemma_seed_distinct(start, d, size);
                };
                assert(!snakes_occupy(g.snakes, p));
                assert(!g.snakes[s1].occupies(p)) by {
                    if g.snakes[s1].occupies(p) {
                        assert(snakes_occupy(g.snakes, p));
                    }
                };
            }
        }
    };
    assert forall|p: FieldPoint|
        p.x < w && p.y < h implies g2.cells[cell_idx(w, p)] == #[trigger] snakes_occupy(
        g2.snakes,
        p,
    ) by {
        let bold = snakes_occupy(g.snakes, p);
        let bnew = sv.occupies(p);
        assert(g.cells[cell_idx(w, p)] == snakes_occupy(g.snakes, p));
        assert(0 <= cell_idx(w, p) < g.cells.len()) by (nonlinear_arith)
            requires
                0 <= p.x < w,
                0 <= p.y < h,
                g.cells.len() == w * h,
        ;
        assert(g2.cells[cell_idx(w, p)] == (g.cells[cell_idx(w, p)] || exists|k: nat|
            cell_idx(w, p) == cell_idx(
                w,
                #[trigger] crate::snake::seed_pos(start, d, k),
            ) && k < size));
        if g2.cells[cell_idx(w, p)] {
            if g.cells[cell_idx(w, p)] {
                let i = choose|i: int|
                    0 <= i < g.snakes.len() && (#[trigger] g.snakes[i]).occupies(p);
                assert(g2.snakes[i] == g.snakes[i]);
                assert(snakes_occupy(g2.snakes, p));
            } else {
                let k = choose|k: nat|
                    cell_idx(w, p) == cell_idx(
                        w,
                        #[trigger] crate::snake::seed_pos(start, d, k),
                    ) && k < size;
                let q = crate::snake::seed_pos(start, d, k);
                crate::snake::lemma_seed_distinct(start, d, size);
                assert(q.x < w && q.y < h);
                assert(p == q) by {
                    if p != q {
                        lemma_cell_idx_injective(w, p, q);
                    }
                };
                assert(sv.occupies(p));
                assert(g2.snakes[g.snakes.len() as int] == sv);
                assert(snakes_occupy(g2.snakes, p));
            }
        } else {
            if snakes_occupy(g2.snakes, p) {
                let i = choose|i: int|
                    0 <= i < g2.snakes.len() && (#[trigger] g2.snakes[i]).occupies(p);
                if i < g.snakes.len() {
                    assert(g.snakes[i].occupies(p));
                    assert(snakes_occupy(g.snakes, p));
                    assert(g.cells[cell_idx(w, p)]);
                } else {
                    assert(g2.snakes[i] == sv);
                    let k = choose|k: nat|
                        k < size && #[trigger] crate::snake::seed_pos(start, d, k) == p;
                    assert(g2.cells[cell_idx(w, p)]);
                }
                assert(false);
            }
        }
    };
    assert forall|i: int|
        0 <= i < g2.food.foods.len() implies food_off_cells(
        w,
        g2.cells,
        #[trigger] g2.food.foods[i],
    ) by {
        let f = g.food.foods[i];
        assert(food_off_cells(w, g.cells, f));
        assert(food_in_bounds(w, h, f));
        lemma_food_cell_stays_clear(g, g2.cells, f.location, i);
        if f.shape != FoodType::Basic {
            let q = FieldPoint { x: (f.location.x + 1) as u16, y: f.location.y };
            lemma_food_cell_stays_clear(g, g2.cells, q, i);
        }
    };
}

/// A cell covered by food item `i` stays unoccupied after the spawn: the
/// seeded cells were unclaimed, so none of them is a food cell.
proof fn lemma_food_cell_stays_clear(g: GameView, cells2: Seq<bool>, q: FieldPoint, i: int)
    requires
        game_wf(g),
        can_add_snake(g),
        0 <= i < g.food.foods.len(),
        crate::types::spec_is_at(g.food.foods[i], q),
        q.x < g.config.dim.0,
        q.y < g.config.dim.1,
        !g.cells[cell_idx(g.config.dim.0 as int, q)],
        cells2.len() == g.cells.len(),
        forall|j: int|
            0 <= j < g.cells.len() ==> cells2[j] == (g.cells[j] || exists|k: nat|
                k < g.config.size && j == cell_idx(
                    g.config.dim.0 as int,
                    #[trigger] crate::snake::seed_pos(
                        slot_start(g, g.snakes.len() as int),
                        spawn_direction(g),
                        k,
                    ),
                )),
    ensures
        !cells2[cell_idx(g.config.dim.0 as int, q)],
{
    let w = g.config.dim.0 as int;
    let h = g.config.dim.1 as int;
    let start = slot_start(g, g.snakes.len() as int);
    let d = spawn_direction(g);
    assert(0 <= cell_idx(w, q) < g.cells.len()) by (nonlinear_arith)
        requires
            0 <= q.x < w,
            0 <= q.y < h,
            g.cells.len() == w * h,
    ;
    if cells2[cell_idx(w, q)] {
        let k = choose|k: nat|
            k < g.config.size && cell_idx(w, q) == cell_idx(
                w,
                #[trigger] crate::snake::seed_pos(start, d, k),
            );
        let sp = crate::snake::seed_pos(start, d, k);
        crate::snake::lemma_seed_distinct(start, d, g.config.size as nat);
        assert(sp.x < w && sp.y < h);
        assert(q == sp) by {
            if q != sp {
                lemma_cell_idx_injective(w, q, sp);
            }
        };
        assert(!cell_claimed(g.food.foods, sp));
        assert(crate::types::spec_is_at(g.food.foods[i], sp));
        assert(false);
    }
}

/// A point of the grid survives the round trip through its linear index.
proof fn lemma_point_roundtrip(field: Field, p: FieldPoint)
    requires
        field.wf(),
        field.in_bounds(p),
    ensures
        0 <= cell_idx(field.width as int, p) < field.width * field.height,
        crate::food::spec_from_idx(field, cell_idx(field.width as int, p)) == p,
{
    let w = field.width as int;
    field.lemma_idx_bounds(p);
    vstd::arithmetic::div_mod::lemma_fundamental_div_mod_converse(
        p.y * w + p.x,
        w,
        p.y as int,
        p.x as int,
    );
}

/// Under the game invariant, the items of the inventory claim at least
/// `foods_total` distinct cell indices.
proof fn lemma_claimed_card_lower(field: Field, foods: Seq<crate::types::Food>)
    requires
        field.wf(),
        foods_shape_wf(foods),
        foods_disjoint(foods),
        forall|i: int|
            0 <= i < foods.len() ==> food_in_bounds(
                field.width as int,
                field.height as int,
                #[trigger] foods[i],
            ),
    ensures
        crate::food::claimed_idx_set(field, foods).finite(),
        crate::food::claimed_idx_set(field, foods).len() >= foods_total(foods),
    decreases foods.len(),
{
    let w = field.width as int;
    let claimed = crate::food::claimed_idx_set(field, foods);
    if foods.len() == 0 {
        assert(claimed =~= Set::<int>::empty());
    } else {
        let rest = foods.drop_last();
        let last = foods.last();
        assert(foods_shape_wf(rest) && foods_disjoint(rest)) by {
            assert(forall|i: int| 0 <= i < rest.len() ==> #[trigger] rest[i] == foods[i]);
            assert forall|i: int, j: int, p: FieldPoint|
                #![trigger crate::types::spec_is_at(rest[i], p), crate::types::spec_is_at(rest[j], p)]
                0 <= i < j < rest.len() && crate::types::spec_is_at(rest[i], p) implies
                !crate::types::spec_is_at(rest[j], p) by {
                assert(crate::types::spec_is_at(foods[i], p) ==> !crate::types::spec_is_at(
                    foods[j],
                    p,
                ));
            };
        };
        lemma_claimed_card_lower(field, rest);
        let prev = crate::food::claimed_idx_set(field, rest);
        let a = cell_idx(w, last.location);
        lemma_point_roundtrip(field, last.location);
        assert(crate::types::spec_is_at(last, last.location));
        // No earlier item shares the last item's cells.
        assert forall|q: FieldPoint|
            crate::types::spec_is_at(last, q) implies !cell_claimed(rest, q) by {
            if cell_claimed(rest, q) {
                let j = choose|j: int|
                    0 <= j < rest.len() && crate::types::spec_is_at(#[trigger] rest[j], q);
                assert(rest[j] == foods[j]);
                assert(crate::types::spec_is_at(foods[j], q) ==> !crate::types::spec_is_at(
                    foods[foods.len() - 1],
                    q,
                ));
            }
        };
        // Transfer between `claimed(foods)` and `claimed(rest)` plus the
        // last item's one or two cells.
        if last.shape == FoodType::Basic {
            assert(claimed =~= prev.insert(a)) by {
                assert forall|i: int| claimed.contains(i) implies prev.insert(a).contains(i) by {
                    let p = crate::food::spec_from_idx(field, i);
                    let j = choose|j: int|
                        0 <= j < foods.len() && crate::types::spec_is_at(#[trigger] foods[j], p);
                    if j < foods.len() - 1 {
                        assert(rest[j] == foods[j]);
                        assert(cell_claimed(rest, p));
                    } else {
                        assert(p == last.location);
                        crate::food::lemma_idx_roundtrip(field, i);
                        assert(i == a);
                    }
                };
                assert forall|i: int| prev.insert(a).contains(i) implies claimed.contains(i) by {
                    if i == a {
                        assert(crate::types::spec_is_at(
                            last,
                            crate::food::spec_from_idx(field, a),
                        ));
                        assert(cell_claimed(foods, crate::food::spec_from_idx(field, a))) by {
                            assert(crate::types::spec_is_at(
                                foods[foods.len() - 1],
                                crate::food::spec_from_idx(field, a),
                            ));
                        };
                    } else {
                        let p = crate::food::spec_from_idx(field, i);
                        let j = choose|j: int|
                            0 <= j < rest.len() && crate::types::spec_is_at(
                                #[trigger] rest[j],
                                p,
                            );
                        assert(foods[j] == rest[j]);
                        assert(cell_claimed(foods, p));
                    }
                };
            };
            assert(!prev.contains(a)) by {
                if prev.contains(a) {
                    assert(cell_claimed(rest, crate::food::spec_from_idx(field, a)));
                }
            };
            assert(foods_total(foods) == foods_total(rest) + 1);
        } else {
            let bq = FieldPoint { x: (last.location.x + 1) as u16, y: last.location.y };
            let b = cell_idx(w, bq);
            lemma_point_roundtrip(field, bq);
            assert(crate::types::spec_is_at(last, bq));
            assert(a != b) by {
                lemma_cell_idx_injective(w, last.location, bq);
            };
            assert(claimed =~= prev.insert(a).insert(b)) by {
                assert forall|i: int| claimed.contains(i) implies prev.insert(a).insert(
                    b,
                ).contains(i) by {
                    let p = crate::food::spec_from_idx(field, i);
                    let j = choose|j: int|
                        0 <= j < foods.len() && crate::types::spec_is_at(#[trigger] foods[j], p);
                    if j < foods.len() - 1 {
                        assert(rest[j] == foods[j]);
                        assert(cell_claimed(rest, p));
                    } else {
                        crate::food::lemma_idx_roundtrip(field, i);
                        if p == last.location {
                            assert(i == a);
                        } else {
                            assert(p == bq);
                            assert(i == b);
                        }
                    }
                };
                assert forall|i: int| prev.insert(a).insert(b).contains(i) implies claimed.contains(
                    i,
                ) by {
                    if i == a || i == b {
                        let p = crate::food::spec_from_idx(field, i);
                        assert(crate::types::spec_is_at(last, p));
                        assert(cell_claimed(foods, p)) by {
                            assert(crate::types::spec_is_at(foods[foods.len() - 1], p));
                        };
                    } else {
                        let p = crate::food::spec_from_idx(field, i);
                        let j = choose|j: int|
                            0 <= j < rest.len() && crate::types::spec_is_at(
                                #[trigger] rest[j],
                                p,
                            );
                        assert(foods[j] == rest[j]);
                        assert(cell_claimed(foods, p));
                    }
                };
            };
            assert(!prev.contains(a)) by {
                if prev.contains(a) {
                    assert(cell_claimed(rest, crate::food::spec_from_idx(field, a)));
                }
            };
            assert(!prev.insert(a).contains(b)) by {
                if prev.contains(b) {
                    assert(cell_claimed(rest, crate::food::spec_from_idx(field, b)));
                }
            };
            assert(foods_total(foods) == foods_total(rest) + 2);
        }
    }
}

/// The central counting consequence of the invariant: occupied cells and
/// food-reserved cells together never exceed the grid.
pub proof fn lemma_game_counts(field: Field, g: GameView)
    requires
        field.wf(),
        field@ == g.cells,
        field.width == g.config.dim.0,
        field.height == g.config.dim.1,
        game_wf(g),
    ensures
        count_trues(g.cells) + foods_total(g.food.foods) <= g.cells.len(),
{
    let w = field.width as int;
    let foods = g.food.foods;
    crate::food::lemma_free_idx_card(g.cells);
    lemma_claimed_card_lower(field, foods);
    let free = crate::food::free_idx_set(g.cells);
    let claimed = crate::food::claimed_idx_set(field, foods);
    assert(claimed.subset_of(free)) by {
        assert forall|i: int| claimed.contains(i) implies free.contains(i) by {
            let p = crate::food::spec_from_idx(field, i);
            let j = choose|j: int|
                0 <= j < foods.len() && crate::types::spec_is_at(#[trigger] foods[j], p);
            let f = foods[j];
            assert(food_off_cells(w, g.cells, f));
            assert(food_in_bounds(w, field.height as int, f));
            crate::food::lemma_idx_roundtrip(field, i);
            if p == f.location {
                assert(i == cell_idx(w, p)) by {
                    lemma_point_roundtrip(field, p);
                };
                assert(!g.cells[i]);
            } else {
                assert(f.location.x + 1 == p.x && f.location.y == p.y);
                assert(p == (FieldPoint { x: (f.location.x + 1) as u16, y: f.location.y }));
                assert(i == cell_idx(w, p)) by {
                    lemma_point_roundtrip(field, p);
                };
                assert(!g.cells[i]);
            }
        };
    };
    vstd::set_lib::lemma_len_subset(claimed, free);
}

impl Game {
    /// Tops the food inventory back up to the per-player minimum: when fewer
    /// cells are reserved than players are owed and the field is not
    /// saturated, exactly one basic item appears on a free, unclaimed cell
    /// (every fifth spawn also attempts a special); on a saturated field
    /// nothing happens and nothing fails.
    pub fn add_food(&mut self)
        requires
            old(self).wf(),
        ensures
            final(self).wf(),
            final(self)@.config == old(self)@.config,
            final(self)@.state == old(self)@.state,
            final(self)@.snakes == old(self)@.snakes,
            final(self)@.cells == old(self)@.cells,
            final(self).field == old(self).field,
            crate::food::spec_topped_up(old(self).field, old(self)@.food, final(self)@.food),
    {
        proof {
            lemma_game_counts(self.field, self@);
            crate::food::lemma_free_idx_card(self@.cells);
        }
        let ghost gold = self@;
        self.food.add_food(&self.field);
        proof {
            lemma_top_up_reestablishes_wf(gold, old(self).field, self@.food.foods);
            assert(self@.cells == gold.cells);
            assert(self@.snakes == gold.snakes);
            assert(self@.config == gold.config);
            assert(game_wf(self@)) by {
                assert forall|p: FieldPoint|
                    p.x < self.config.dim.0 && p.y < self.config.dim.1 implies self@.cells[cell_idx(
                    self.config.dim.0 as int,
                    p,
                )] == #[trigger] snakes_occupy(self@.snakes, p) by {
                    let b = snakes_occupy(gold.snakes, p);
                    assert(gold.cells[cell_idx(self.config.dim.0 as int, p)] == snakes_occupy(
                        gold.snakes,
                        p,
                    ));
                };
            };
        }
    }

    /// The per-tick food top-up the driver runs after `tick`: when fewer
    /// cells are reserved than players are owed and a free cell remains, one
    /// basic item is guaranteed to appear (possibly followed by one
    /// special); otherwise nothing changes.
    pub fn add_missing_food(&mut self)
        requires
            old(self).wf(),
        ensures
            final(self).wf(),
            final(self)@.config == old(self)@.config,
            final(self)@.state == old(self)@.state,
            final(self)@.snakes == old(self)@.snakes,
            final(self)@.cells == old(self)@.cells,
            final(self).field == old(self).field,
            crate::food::spec_topped_up(old(self).field, old(self)@.food, final(self)@.food),
    {
        self.add_food()
    }
}

/// Whatever the top-up spawned satisfies the food clauses of the game
/// invariant again.
proof fn lemma_top_up_reestablishes_wf(
    g: GameView,
    field: Field,
    foods2: Seq<crate::types::Food>,
)
    requires
        game_wf(g),
        field.wf(),
        field@ == g.cells,
        field.width == g.config.dim.0,
        field.height == g.config.dim.1,
        foods2 == g.food.foods || (exists|q: FieldPoint|
            {
                let basic = crate::types::spec_food_new(FoodType::Basic, q);
                &&& #[trigger] crate::food::spec_free_cell(field, g.food.foods, q)
                &&& (foods2 == g.food.foods.push(basic) || exists|f2: crate::types::Food|
                    {
                        &&& foods2 == g.food.foods.push(basic).push(f2)
                        &&& crate::food::spec_is_special(f2.shape)
                        &&& f2 == #[trigger] crate::types::spec_food_new(f2.shape, f2.location)
                        &&& crate::food::spec_special_fits(
                            field,
                            g.food.foods.push(basic),
                            f2.location,
                        )
                    })
            }),
    ensures
        foods_shape_wf(foods2),
        forall|i: int|
            0 <= i < foods2.len() ==> food_in_bounds(
                g.config.dim.0 as int,
                g.config.dim.1 as int,
                #[trigger] foods2[i],
            ),
        forall|i: int|
            0 <= i < foods2.len() ==> food_off_cells(
                g.config.dim.0 as int,
                g.cells,
                #[trigger] foods2[i],
            ),
        foods_disjoint(foods2),
{
    let w = g.config.dim.0 as int;
    let h = g.config.dim.1 as int;
    let foods = g.food.foods;
    if foods2 == foods {
        return ;
    }
    let q = choose|q: FieldPoint|
        {
            let basic = crate::types::spec_food_new(FoodType::Basic, q);
            &&& #[trigger] crate::food::spec_free_cell(field, foods, q)
            &&& (foods2 == foods.push(basic) || exists|f2: crate::types::Food|
                {
                    &&& foods2 == foods.push(basic).push(f2)
                    &&& crate::food::spec_is_special(f2.shape)
                    &&& f2 == #[trigger] crate::types::spec_food_new(f2.shape, f2.location)
                    &&& crate::food::spec_special_fits(field, foods.push(basic), f2.location)
                })
        };
    let basic = crate::types::spec_food_new(FoodType::Basic, q);
    assert(crate::food::spec_free_cell(field, foods, q));
    assert(basic.location == q && basic.shape == FoodType::Basic && basic.size == 1);
    assert(field.spec_idx(q) == cell_idx(w, q));
    assert(forall|p: FieldPoint| crate::types::spec_is_at(basic, p) == (p == q));
    let with_basic = foods.push(basic);
    assert(foods_shape_wf(with_basic) && foods_disjoint(with_basic) && forall|i: int|
        0 <= i < with_basic.len() ==> food_in_bounds(w, h, #[trigger] with_basic[i])
            && food_off_cells(w, g.cells, with_basic[i])) by {
        assert(forall|i: int| 0 <= i < foods.len() ==> #[trigger] with_basic[i] == foods[i]);
        assert(with_basic[foods.len() as int] == basic);
        assert(food_in_bounds(w, h, basic));
        assert(food_off_cells(w, g.cells, basic));
        assert forall|i: int, j: int, p: FieldPoint|
            #![trigger crate::types::spec_is_at(with_basic[i], p), crate::types::spec_is_at(with_basic[j], p)]
            0 <= i < j < with_basic.len() && crate::types::spec_is_at(with_basic[i], p) implies
            !crate::types::spec_is_at(with_basic[j], p) by {
            if j < foods.len() {
                assert(crate::types::spec_is_at(foods[i], p) ==> !crate::types::spec_is_at(
                    foods[j],
                    p,
                ));
            } else {
                if crate::types::spec_is_at(with_basic[j], p) {
                    assert(p == q);
                    assert(!cell_claimed(foods, q));
                    assert(with_basic[i] == foods[i]);
                    if crate::types::spec_is_at(foods[i], q) {
                        assert(cell_claimed(foods, q));
                    }
                }
            }
        };
    };
    if foods2 == with_basic {
        return ;
    }
    let f2 = choose|f2: crate::types::Food|
        {
            &&& foods2 == foods.push(basic).push(f2)
            &&& crate::food::spec_is_special(f2.shape)
            &&& f2 == #[trigger] crate::types::spec_food_new(f2.shape, f2.location)
            &&& crate::food::spec_special_fits(field, foods.push(basic), f2.location)
        };
    let q2 = f2.location;
    let q2r = FieldPoint { x: (q2.x + 1) as u16, y: q2.y };
    assert(crate::food::spec_special_fits(field, with_basic, q2));
    assert(f2.size == 2 && f2.shape != FoodType::Basic);
    assert(field.spec_idx(q2) == cell_idx(w, q2));
    assert(field.spec_idx(q2r) == cell_idx(w, q2r));
    assert(forall|p: FieldPoint|
        crate::types::spec_is_at(f2, p) == (p == q2 || p == q2r));
    assert(forall|i: int| 0 <= i < with_basic.len() ==> #[trigger] foods2[i] == with_basic[i]);
    assert(foods2[with_basic.len() as int] == f2);
    assert(food_in_bounds(w, h, f2));
    assert(food_off_cells(w, g.cells, f2));
    assert forall|i: int, j: int, p: FieldPoint|
        #![trigger crate::types::spec_is_at(foods2[i], p), crate::types::spec_is_at(foods2[j], p)]
        0 <= i < j < foods2.len() && crate::types::spec_is_at(foods2[i], p) implies
        !crate::types::spec_is_at(foods2[j], p) by {
        if j < with_basic.len() {
            assert(crate::types::spec_is_at(with_basic[i], p) ==> !crate::types::spec_is_at(
                with_basic[j],
                p,
            ));
        } else {
            if crate::types::spec_is_at(foods2[j], p) {
                assert(p == q2 || p == q2r);
                assert(!cell_claimed(with_basic, p));
                assert(foods2[i] == with_basic[i]);
                if crate::types::spec_is_at(with_basic[i], p) {
                    assert(cell_claimed(with_basic, p));
                }
            }
        }
    };
}

/// After clearing exactly one snake's cells and dropping it from the list,
/// the game invariant holds again.
proof fn lemma_remove_reestablishes_wf(g: GameView, s: int, game2: Game)
    requires
        game_wf(g),
        0 <= s < g.snakes.len(),
        game2.field.wf(),
        game2.field.width == g.config.dim.0,
        game2.field.height == g.config.dim.1,
        game2.config == g.config,
        game2.state == g.state,
        game2@.snakes == g.snakes.remove(s),
        game2@.food.minimum == g.food.minimum - 1,
        game2@.food.foods == g.food.foods,
        game2@.food.bag == g.food.bag,
        game2@.cells == clear_prefix(
            g.cells,
            g.config.dim.0 as int,
            g.snakes[s],
            g.snakes[s].nodes.len() as int,
        ),
    ensures
        game2.wf(),
{
    let w = g.config.dim.0 as int;
    let h = g.config.dim.1 as int;
    let g2 = game2@;
    let sv = g.snakes[s];
    assert(sv.wf());
    assert(sv.direction.max == (FieldPoint { x: g.config.dim.0, y: g.config.dim.1 }));
    lemma_clear_prefix_char(g.cells, w, h, sv, sv.nodes.len() as int);
    assert forall|j: int| 0 <= j < g2.snakes.len() implies (#[trigger] g2.snakes[j]).wf()
        && g2.snakes[j].direction.max == (FieldPoint { x: g.config.dim.0, y: g.config.dim.1 })
        by {
        if j < s {
            assert(g2.snakes[j] == g.snakes[j]);
        } else {
            assert(g2.snakes[j] == g.snakes[j + 1]);
        }
    };
    assert forall|s1: int, s2: int|
        0 <= s1 < s2 < g2.snakes.len() implies (#[trigger] g2.snakes[s1]).id != (
    #[trigger] g2.snakes[s2]).id by {
        let o1 = if s1 < s {
            s1
        } else {
            s1 + 1
        };
        let o2 = if s2 < s {
            s2
        } else {
            s2 + 1
        };
        assert(g2.snakes[s1] == g.snakes[o1]);
        assert(g2.snakes[s2] == g.snakes[o2]);
    };
    assert forall|s1: int, s2: int, p: FieldPoint|
        #![trigger g2.snakes[s1].occupies(p), g2.snakes[s2].occupies(p)]
        0 <= s1 < s2 < g2.snakes.len() && g2.snakes[s1].occupies(p) implies !g2.snakes[s2].occupies(
        p,
    ) by {
        let o1 = if s1 < s {
            s1
        } else {
            s1 + 1
        };
        let o2 = if s2 < s {
            s2
        } else {
            s2 + 1
        };
        assert(g2.snakes[s1] == g.snakes[o1]);
        assert(g2.snakes[s2] == g.snakes[o2]);
        assert(g.snakes[o1].occupies(p) ==> !g.snakes[o2].occupies(p));
    };
    assert forall|p: FieldPoint|
        p.x < w && p.y < h implies g2.cells[cell_idx(w, p)] == #[trigger] snakes_occupy(
        g2.snakes,
        p,
    ) by {
        let b = prefix_occupies(sv, sv.nodes.len() as int, p);
        let bocc = snakes_occupy(g.snakes, p);
        assert(g.cells[cell_idx(w, p)] == snakes_occupy(g.snakes, p));
        assert(g2.cells[cell_idx(w, p)] == (g.cells[cell_idx(w, p)] && !prefix_occupies(
            sv,
            sv.nodes.len() as int,
            p,
        )));
        assert(prefix_occupies(sv, sv.nodes.len() as int, p) == sv.occupies(p));
        if snakes_occupy(g2.snakes, p) {
            let i = choose|i: int|
                0 <= i < g2.snakes.len() && (#[trigger] g2.snakes[i]).occupies(p);
            let o = if i < s {
                i
            } else {
                i + 1
            };
            assert(g2.snakes[i] == g.snakes[o]);
            assert(snakes_occupy(g.snakes, p));
            assert(!sv.occupies(p)) by {
                if o < s {
                    assert(g.snakes[o].occupies(p) ==> !g.snakes[s].occupies(p));
                } else {
                    assert(g.snakes[s].occupies(p) ==> !g.snakes[o].occupies(p));
                }
            };
            assert(g2.cells[cell_idx(w, p)]);
        } else {
            if g2.cells[cell_idx(w, p)] {
                assert(g.cells[cell_idx(w, p)] && !sv.occupies(p));
                let i = choose|i: int|
                    0 <= i < g.snakes.len() && (#[trigger] g.snakes[i]).occupies(p);
                assert(i != s);
                let i2 = if i < s {
                    i
                } else {
                    i - 1
                };
                assert(g2.snakes[i2] == g.snakes[i]);
                assert(snakes_occupy(g2.snakes, p));
                assert(false);
            }
        }
    };
    assert forall|i: int|
        0 <= i < g2.food.foods.len() implies food_off_cells(
        w,
        g2.cells,
        #[trigger] g2.food.foods[i],
    ) by {
        let f = g.food.foods[i];
        assert(food_off_cells(w, g.cells, f));
        assert(food_in_bounds(w, h, f));
        assert(f.location.x < w && f.location.y < h);
        let b1 = prefix_occupies(sv, sv.nodes.len() as int, f.location);
        assert(g2.cells[cell_idx(w, f.location)] == (g.cells[cell_idx(w, f.location)]
            && !prefix_occupies(sv, sv.nodes.len() as int, f.location)));
        if f.shape != FoodType::Basic {
            let q = FieldPoint { x: (f.location.x + 1) as u16, y: f.location.y };
            assert(q.x < w && q.y < h);
            let b2 = prefix_occupies(sv, sv.nodes.len() as int, q);
            assert(g2.cells[cell_idx(w, q)] == (g.cells[cell_idx(w, q)] && !prefix_occupies(
                sv,
                sv.nodes.len() as int,
                q,
            )));
        }
    };
}

/// Removing the one snake that carries an identifier leaves no snake with
/// it: a second removal finds nothing and has no effect.
pub proof fn lemma_remove_snake_idempotent(snakes: Seq<SnakeView>, id: u16)
    requires
        forall|s1: int, s2: int|
            0 <= s1 < s2 < snakes.len() ==> (#[trigger] snakes[s1]).id != (
            #[trigger] snakes[s2]).id,
        find_snake(snakes, id) < snakes.len(),
    ensures
        find_snake(snakes.remove(find_snake(snakes, id)), id) == snakes.len() - 1,
{
    let f = find_snake(snakes, id);
    lemma_find_snake(snakes, id);
    let rest = snakes.remove(f);
    lemma_find_snake(rest, id);
    if find_snake(rest, id) < rest.len() {
        let j = find_snake(rest, id);
        let o = if j < f {
            j
        } else {
            j + 1
        };
        assert(rest[j] == snakes[o]);
        assert(snakes[o].id == id);
        assert(snakes[f].id == id);
        assert(o != f);
        assert(false);
    }
}

/// A prefix without the identifier pins `find_snake` to the first hit.
proof fn lemma_find_snake_at(snakes: Seq<SnakeView>, id: u16, s: int)
    requires
        0 <= s < snakes.len(),
        snakes[s].id == id,
        forall|j: int| 0 <= j < s ==> (#[trigger] snakes[j]).id != id,
    ensures
        find_snake(snakes, id) == s,
    decreases s,
{
    lemma_find_snake(snakes, id);
    if s > 0 {
        assert(forall|j: int|
            0 <= j < snakes.drop_first().len() ==> #[trigger] snakes.drop_first()[j] == snakes[j
                + 1]);
        lemma_find_snake_at(snakes.drop_first(), id, s - 1);
    }
}

/// Changing one snake's heading moves no body segment, so every part of the
/// game invariant survives.
proof fn lemma_head_to_preserves_wf(g: GameView, s: int, to: Direction)
    requires
        game_wf(g),
        0 <= s < g.snakes.len(),
    ensures
        game_wf(
            GameView { snakes: g.snakes.update(s, g.snakes[s].head_to(to)), ..g },
        ),
{
    let g2 = GameView { snakes: g.snakes.update(s, g.snakes[s].head_to(to)), ..g };
    let w = g.config.dim.0 as int;
    let h = g.config.dim.1 as int;
    assert(g.snakes[s].wf());
    assert(g2.snakes[s].wf());
    assert forall|p: FieldPoint|
        p.x < w && p.y < h implies g2.cells[cell_idx(w, p)] == #[trigger] snakes_occupy(
        g2.snakes,
        p,
    ) by {
        assert(g.cells[cell_idx(w, p)] == snakes_occupy(g.snakes, p));
        if snakes_occupy(g2.snakes, p) {
            let i = choose|i: int|
                0 <= i < g2.snakes.len() && (#[trigger] g2.snakes[i]).occupies(p);
            assert(g.snakes[i].occupies(p));
            assert(snakes_occupy(g.snakes, p));
        }
        if snakes_occupy(g.snakes, p) {
            let i = choose|i: int| 0 <= i < g.snakes.len() && (#[trigger] g.snakes[i]).occupies(p);
            assert(g2.snakes[i].occupies(p));
            assert(snakes_occupy(g2.snakes, p));
        }
    };
    assert forall|s1: int, s2: int, p: FieldPoint|
        #![trigger g2.snakes[s1].occupies(p), g2.snakes[s2].occupies(p)]
        0 <= s1 < s2 < g2.snakes.len() && g2.snakes[s1].occupies(p) implies !g2.snakes[s2].occupies(
        p,
    ) by {
        assert(g.snakes[s1].occupies(p) ==> !g.snakes[s2].occupies(p));
    };
}

} // verus!
