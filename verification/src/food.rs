//! Food inventory: overlap testing and consumption, expiry ticking for
//! special items, and constrained-random placement of new food on free
//! cells.

use vstd::prelude::*;

use crate::field::{count_trues, Field};
use crate::types::{spec_food_new, spec_is_at, FieldPoint, Food, FoodType};

verus! {

/// How many cells the items of `foods` reserve in total (basics one each,
/// specials two each).
pub open spec fn foods_total(foods: Seq<Food>) -> int
    decreases foods.len(),
{
    if foods.len() == 0 {
        0
    } else {
        foods_total(foods.drop_last()) + foods.last().size
    }
}

/// Whether some item of `foods` occupies the cell `p`.
pub open spec fn cell_claimed(foods: Seq<Food>, p: FieldPoint) -> bool {
    exists|i: int| 0 <= i < foods.len() && spec_is_at(#[trigger] foods[i], p)
}

/// The position of the first item of `foods` occupying `p`, or `foods.len()`
/// when there is none.
pub open spec fn first_at(foods: Seq<Food>, p: FieldPoint) -> int
    decreases foods.len(),
{
    if foods.len() == 0 {
        0
    } else if spec_is_at(foods[0], p) {
        0
    } else {
        1 + first_at(foods.drop_first(), p)
    }
}

/// `first_at` points at the first occupying item: nothing before it
/// occupies `p`, and it occupies `p` unless it equals the length.
pub proof fn lemma_first_at(foods: Seq<Food>, p: FieldPoint)
    ensures
        0 <= first_at(foods, p) <= foods.len(),
        first_at(foods, p) < foods.len() ==> spec_is_at(foods[first_at(foods, p)], p),
        forall|j: int| 0 <= j < first_at(foods, p) ==> !spec_is_at(#[trigger] foods[j], p),
        (first_at(foods, p) < foods.len()) == cell_claimed(foods, p),
    decreases foods.len(),
{
    if foods.len() > 0 && !spec_is_at(foods[0], p) {
        lemma_first_at(foods.drop_first(), p);
        assert(forall|j: int|
            0 <= j < foods.drop_first().len() ==> #[trigger] foods.drop_first()[j] == foods[j + 1]);
        assert forall|j: int| 0 <= j < first_at(foods, p) implies !spec_is_at(
            #[trigger] foods[j],
            p,
        ) by {
            if j > 0 {
                assert(foods[j] == foods.drop_first()[j - 1]);
            }
        };
        if first_at(foods.drop_first(), p) < foods.drop_first().len() {
            assert(cell_claimed(foods, p)) by {
                let i = first_at(foods.drop_first(), p);
                assert(spec_is_at(foods[i + 1], p));
            };
        } else {
            if cell_claimed(foods, p) {
                let i = choose|i: int| 0 <= i < foods.len() && spec_is_at(#[trigger] foods[i], p);
                assert(spec_is_at(foods.drop_first()[i - 1], p));
            }
        }
    }
}

/// A food item after one expiry tick: specials count down, basics stay.
pub open spec fn spec_food_age(food: Food) -> Food {
    if food.ticks_left > 1 {
        Food { ticks_left: (food.ticks_left - 1) as u16, ..food }
    } else {
        food
    }
}

/// The inventory after one expiry tick: items whose countdown reached its
/// last tick disappear, the remaining specials count down, order is kept.
pub open spec fn spec_tick_foods(foods: Seq<Food>) -> Seq<Food>
    decreases foods.len(),
{
    if foods.len() == 0 {
        Seq::empty()
    } else {
        spec_tick_foods(foods.drop_last()) + if foods.last().ticks_left == 1 {
            Seq::empty()
        } else {
            seq![spec_food_age(foods.last())]
        }
    }
}

/// The six special shapes, in the fixed order a fresh rotating bag holds
/// them.
pub open spec fn spec_full_bag() -> Seq<FoodType> {
    seq![
        FoodType::Whale,
        FoodType::Turtle,
        FoodType::Chameleon,
        FoodType::Elephant,
        FoodType::Alien,
        FoodType::Caterpillar,
    ]
}

/// Whether `shape` is one of the two-cell special shapes.
pub open spec fn spec_is_special(shape: FoodType) -> bool {
    shape != FoodType::Basic
}

/// The food inventory of a game: the live items, the number of basic items
/// owed to the players (`minimum` tracks the number of live players), a
/// running spawn counter driving the special-spawn cadence, and the rotating
/// bag of special shapes still to be drawn in the current cycle.
#[derive(Debug, Clone)]
pub struct FoodField {
    pub foods: Vec<Food>,
    pub minimum: u16,
    pub count: u16,
    pub bag: Vec<FoodType>,
}

/// The mathematical value of a food inventory.
#[verifier::ext_equal]
pub ghost struct FoodFieldView {
    pub foods: Seq<Food>,
    pub minimum: u16,
    pub count: u16,
    pub bag: Seq<FoodType>,
}

impl View for FoodField {
    type V = FoodFieldView;

    open spec fn view(&self) -> FoodFieldView {
        FoodFieldView {
            foods: self.foods@,
            minimum: self.minimum,
            count: self.count,
            bag: self.bag@,
        }
    }
}

impl FoodField {
    /// The rotating bag always holds at most one cycle of special shapes and
    /// nothing else.
    pub open spec fn bag_wf(self) -> bool {
        &&& self.bag@.len() <= 6
        &&& forall|i: int| 0 <= i < self.bag@.len() ==> spec_is_special(#[trigger] self.bag@[i])
    }

    /// The shapes still waiting in the rotating bag, newest draw last.
    pub open spec fn spec_bag(self) -> Seq<FoodType> {
        self.bag@
    }

    /// An empty inventory with a full rotating bag.
    pub fn new() -> (r: FoodField)
        ensures
            r.foods@ == Seq::<Food>::empty(),
            r.minimum == 0,
            r.count == 0,
            r.spec_bag() == spec_full_bag(),
            r.bag_wf(),
    {
        let mut bag: Vec<FoodType> = Vec::new();
        bag.push(FoodType::Whale);
        bag.push(FoodType::Turtle);
        bag.push(FoodType::Chameleon);
        bag.push(FoodType::Elephant);
        bag.push(FoodType::Alien);
        bag.push(FoodType::Caterpillar);
        proof {
            assert(bag@ =~= spec_full_bag());
        }
        FoodField { foods: Vec::new(), count: 0, minimum: 0, bag }
    }

    /// How many cells the current items reserve in total.
    pub fn total_filled(&self) -> (r: u16)
        requires
            foods_total(self.foods@) <= u16::MAX,
        ensures
            r == foods_total(self.foods@),
    {
        let mut total: u16 = 0;
        let mut i: usize = 0;
        while i < self.foods.len()
            invariant
                0 <= i <= self.foods@.len(),
                total == foods_total(self.foods@.take(i as int)),
                foods_total(self.foods@) <= u16::MAX,
            decreases self.foods@.len() - i,
        {
            proof {
                lemma_foods_total_take_step(self.foods@, i as int);
                lemma_foods_total_take_bound(self.foods@, i + 1);
            }
            total = total + (self.foods[i].size as u16);
            i = i + 1;
        }
        proof {
            assert(self.foods@.take(self.foods@.len() as int) =~= self.foods@);
        }
        total
    }

    /// The position of the first item occupying `p`, if any.
    pub fn has_at(&self, p: &FieldPoint) -> (r: Option<usize>)
        ensures
            r == if cell_claimed(self.foods@, *p) {
                Some(first_at(self.foods@, *p) as usize)
            } else {
                Option::<usize>::None
            },
    {
        proof {
            lemma_first_at(self.foods@, *p);
        }
        let mut i: usize = 0;
        while i < self.foods.len()
            invariant
                0 <= i <= self.foods@.len(),
                forall|j: int| 0 <= j < i ==> !spec_is_at(#[trigger] self.foods@[j], *p),
                first_at(self.foods@, *p) >= i,
            decreases self.foods@.len() - i,
        {
            if self.foods[i].is_at(p) {
                proof {
                    lemma_first_at(self.foods@, *p);
                }
                return Some(i);
            }
            proof {
                lemma_first_at_above(self.foods@, *p, i as int + 1);
            }
            i = i + 1;
        }
        None
    }

    /// Removes and returns the first item occupying `p`, if any: the
    /// consumption hook the game calls on every head movement.
    pub fn grab(&mut self, p: &FieldPoint) -> (r: Option<Food>)
        ensures
            final(self).minimum == old(self).minimum,
            final(self).count == old(self).count,
            final(self).spec_bag() == old(self).spec_bag(),
            cell_claimed(old(self).foods@, *p) ==> {
                &&& r == Some(old(self).foods@[first_at(old(self).foods@, *p)])
                &&& final(self).foods@ == old(self).foods@.remove(first_at(old(self).foods@, *p))
            },
            !cell_claimed(old(self).foods@, *p) ==> r == Option::<Food>::None && final(self).foods@
                == old(self).foods@,
    {
        proof {
            lemma_first_at(self.foods@, *p);
        }
        let i = self.has_at(p);
        if let Some(i) = i {
            let food = self.foods.remove(i);
            return Some(food);
        }
        None
    }

    /// Appends a freshly spawned item and advances the spawn counter (which
    /// wraps around rather than overflowing).
    pub fn set_food(&mut self, food: Food)
        ensures
            final(self).foods@ == old(self).foods@.push(food),
            final(self).minimum == old(self).minimum,
            final(self).spec_bag() == old(self).spec_bag(),
            final(self).count == if old(self).count == u16::MAX {
                0u16
            } else {
                (old(self).count + 1) as u16
            },
    {
        self.foods.push(food);
        self.count = if self.count == u16::MAX {
            0
        } else {
            self.count + 1
        };
    }

    /// Ages every special item by one tick and drops those whose lifespan
    /// ends; basic food is unaffected.
    pub fn tick(&mut self)
        ensures
            final(self).foods@ == spec_tick_foods(old(self).foods@),
            final(self).minimum == old(self).minimum,
            final(self).count == old(self).count,
            final(self).spec_bag() == old(self).spec_bag(),
    {
        let mut kept: Vec<Food> = Vec::new();
        let mut i: usize = 0;
        while i < self.foods.len()
            invariant
                0 <= i <= self.foods@.len(),
                kept@ == spec_tick_foods(self.foods@.take(i as int)),
            decreases self.foods@.len() - i,
        {
            proof {
                assert(self.foods@.take(i as int + 1).drop_last() =~= self.foods@.take(i as int));
                assert(self.foods@.take(i as int + 1).last() == self.foods@[i as int]);
            }
            let food = self.foods[i];
            if food.ticks_left != 1 {
                if food.ticks_left > 1 {
                    kept.push(Food { ticks_left: food.ticks_left - 1, ..food });
                } else {
                    kept.push(food);
                }
                proof {
                    assert(kept@ =~= spec_tick_foods(self.foods@.take(i as int)).push(
                        spec_food_age(self.foods@[i as int]),
                    ));
                    assert(spec_tick_foods(self.foods@.take(i as int + 1)) =~= spec_tick_foods(
                        self.foods@.take(i as int),
                    ).push(spec_food_age(self.foods@[i as int])));
                }
            } else {
                proof {
                    assert(spec_tick_foods(self.foods@.take(i as int + 1)) =~= spec_tick_foods(
                        self.foods@.take(i as int),
                    ));
                }
            }
            i = i + 1;
        }
        proof {
            assert(self.foods@.take(self.foods@.len() as int) =~= self.foods@);
        }
        self.foods = kept;
    }
}

// ---------------------------------------------------------------------------
// Constrained-random placement.
// ---------------------------------------------------------------------------

/// Relies on rand: `thread_rng().gen_range(0..max)` draws a value below
/// `max`; the call panics on an empty range, which `max >= 1` rules out.
#[verifier::external_body]
fn rand_below(max: u16) -> (r: u16)
    requires
        max >= 1,
    ensures
        r < max,
{
    rand::Rng::gen_range(&mut rand::thread_rng(), 0..max)
}

/// Relies on rand's `SliceRandom::shuffle`: an in-place Fisher-Yates
/// permutation, so the entries are only reordered.
#[verifier::external_body]
fn shuffle_shapes(v: &mut Vec<FoodType>)
    ensures
        final(v)@.to_multiset() == old(v)@.to_multiset(),
{
    rand::seq::SliceRandom::shuffle(v.as_mut_slice(), &mut rand::thread_rng());
}

/// The size and score recorded on an item agree with its shape.
pub open spec fn food_shape_wf(f: Food) -> bool {
    if f.shape == FoodType::Basic {
        f.size == 1 && f.weight == crate::types::BASIC_FOOD_WEIGHT
    } else {
        f.size == 2 && f.weight == crate::types::SPECIAL_FOOD_WEIGHT
    }
}

/// Every item of the inventory records the size and score its shape
/// dictates.
pub open spec fn foods_shape_wf(foods: Seq<Food>) -> bool {
    forall|i: int| 0 <= i < foods.len() ==> food_shape_wf(#[trigger] foods[i])
}

/// The point with linear index `i` on `field`.
pub open spec fn spec_from_idx(field: Field, i: int) -> FieldPoint {
    FieldPoint { x: (i % (field.width as int)) as u16, y: (i / (field.width as int)) as u16 }
}

/// The cell at `p` is on the grid, not occupied by a snake, and not claimed
/// by any food item: a legal spot for a new basic food.
pub open spec fn spec_free_cell(field: Field, foods: Seq<Food>, p: FieldPoint) -> bool {
    &&& field.in_bounds(p)
    &&& !field@[field.spec_idx(p)]
    &&& !cell_claimed(foods, p)
}

/// The two cells `p` and its right neighbour are on the same row of the
/// grid, unoccupied, and unclaimed: a legal spot for a new special food.
pub open spec fn spec_special_fits(field: Field, foods: Seq<Food>, p: FieldPoint) -> bool {
    &&& p.x + 1 < field.width
    &&& p.y < field.height
    &&& !field@[field.spec_idx(p)]
    &&& !field@[field.spec_idx(FieldPoint { x: (p.x + 1) as u16, y: p.y })]
    &&& !cell_claimed(foods, p)
    &&& !cell_claimed(foods, FieldPoint { x: (p.x + 1) as u16, y: p.y })
}

/// A cell that a spawn scan must skip: occupied by a snake or claimed by an
/// existing item.
pub open spec fn spec_blocked(field: Field, foods: Seq<Food>, i: int) -> bool {
    field@[i] || cell_claimed(foods, spec_from_idx(field, i))
}

/// The spawn counter after one more item: it advances by one, wrapping
/// around instead of overflowing.
pub open spec fn spec_next_count(c: u16) -> u16 {
    if c == u16::MAX {
        0u16
    } else {
        (c + 1) as u16
    }
}

/// What one top-up pass leaves of the inventory, over the occupancy `field`
/// it ran against. When enough cells are already reserved, or the field is
/// saturated, nothing changes. Otherwise exactly one basic item appears on a
/// free, unclaimed cell and the spawn counter advances once -- and the pass
/// may additionally place one well-fitting special item, advancing the
/// counter again.
pub open spec fn spec_topped_up(
    field: Field,
    before: FoodFieldView,
    after: FoodFieldView,
) -> bool {
    let total = foods_total(before.foods);
    let free = field@.len() - count_trues(field@);
    &&& after.minimum == before.minimum
    &&& (total >= before.minimum ==> after.foods == before.foods && after.count == before.count)
    &&& (total < before.minimum && free < total + 1 ==> after.foods == before.foods && after.count
        == before.count)
    &&& (total < before.minimum && free >= total + 1 ==> exists|q: FieldPoint|
        {
            let basic = spec_food_new(FoodType::Basic, q);
            &&& #[trigger] spec_free_cell(field, before.foods, q)
            &&& ((after.foods == before.foods.push(basic) && after.count == spec_next_count(
                before.count,
            )) || exists|f2: Food|
                {
                    &&& after.foods == before.foods.push(basic).push(f2)
                    &&& after.count == spec_next_count(spec_next_count(before.count))
                    &&& spec_is_special(f2.shape)
                    &&& f2 == #[trigger] spec_food_new(f2.shape, f2.location)
                    &&& spec_special_fits(field, before.foods.push(basic), f2.location)
                })
        })
}

impl FoodField {
    /// Draws the next special shape from the rotating bag, reshuffling a
    /// full cycle of the six shapes once the bag runs out.
    fn draw_shape(&mut self) -> (r: FoodType)
        requires
            old(self).bag_wf(),
        ensures
            spec_is_special(r),
            final(self).bag_wf(),
            final(self).foods@ == old(self).foods@,
            final(self).minimum == old(self).minimum,
            final(self).count == old(self).count,
    {
        broadcast use vstd::seq_lib::group_to_multiset_ensures;

        if self.bag.len() == 0 {
            let mut fresh: Vec<FoodType> = Vec::new();
            fresh.push(FoodType::Whale);
            fresh.push(FoodType::Turtle);
            fresh.push(FoodType::Chameleon);
            fresh.push(FoodType::Elephant);
            fresh.push(FoodType::Alien);
            fresh.push(FoodType::Caterpillar);
            proof {
                assert(fresh@ =~= spec_full_bag());
            }
            shuffle_shapes(&mut fresh);
            proof {
                assert(fresh@.to_multiset().len() == fresh@.len());
                assert(spec_full_bag().to_multiset().len() == spec_full_bag().len());
                assert(fresh@.len() == 6);
                assert forall|i: int| 0 <= i < fresh@.len() implies spec_is_special(
                    #[trigger] fresh@[i],
                ) by {
                    let x = fresh@[i];
                    assert(fresh@.contains(x));
                    assert(fresh@.to_multiset().count(x) > 0);
                    assert(spec_full_bag().to_multiset().count(x) > 0);
                    assert(spec_full_bag().contains(x));
                    let j = choose|j: int|
                        0 <= j < spec_full_bag().len() && spec_full_bag()[j] == x;
                    assert(spec_is_special(spec_full_bag()[j]));
                };
            }
            self.bag = fresh;
        }
        let popped = self.bag.pop();
        match popped {
            Some(shape) => shape,
            None => {
                proof {
                    assert(false);
                }
                FoodType::Whale
            },
        }
    }

    /// Attempts to place one special food item: scans candidate two-cell
    /// spots in steps of two (so a candidate never straddles a row edge),
    /// skipping a random number of legal spots first, and draws its shape
    /// from the rotating bag. Returns nothing when the guards or the scan
    /// find no room -- a deliberate "skip this spawn attempt", not an error.
    pub fn random_special(&mut self, max: u16, field: &Field) -> (r: Option<Food>)
        requires
            old(self).bag_wf(),
            field.wf(),
            foods_shape_wf(old(self).foods@),
            foods_total(old(self).foods@) <= u16::MAX,
        ensures
            final(self).foods@ == old(self).foods@,
            final(self).minimum == old(self).minimum,
            final(self).count == old(self).count,
            final(self).bag_wf(),
            (max as int) / 2 < 1 || 2 * old(self).foods@.len() >= (max as int) / 2 - 1 ==> r
                is None,
            match r {
                Some(f) => {
                    &&& spec_is_special(f.shape)
                    &&& f == spec_food_new(f.shape, f.location)
                    &&& spec_special_fits(*field, old(self).foods@, f.location)
                },
                None => true,
            },
    {
        proof {
            lemma_foods_total_ge_len(self.foods@);
        }
        let required: u16 = {
            let len = self.foods.len() as u16;
            if len > u16::MAX / 2 {
                return None;
            }
            len * 2
        };
        let max2 = max / 2;
        if max2 < 1 || required >= max2 - 1 {
            return None;
        }
        let cap = max2 - 1 - required;
        let mut n = rand_below(cap);
        let cells: u32 = (field.width as u32) * (field.height as u32);
        let mut idx: u32 = (field.width % 2) as u32;
        let mut found: Option<u16> = None;
        while idx + 1 < cells
            invariant
                field.wf(),
                cells == (field.width as int) * (field.height as int),
                cells <= u16::MAX,
                idx <= cells + 1,
                found matches Some(fi) ==> {
                    &&& fi < cells
                    &&& spec_special_fits(*field, self.foods@, spec_from_idx(*field, fi as int))
                },
                found matches Some(fi) ==> fi as int == field.spec_idx(
                    spec_from_idx(*field, fi as int),
                ),
            decreases cells - idx,
        {
            let p1 = field.from_idx(idx as u16);
            if p1.x + 1 < field.width {
                let p2 = FieldPoint { x: p1.x + 1, y: p1.y };
                if !field.filled(&p1) && !field.filled(&p2) && self.has_at(&p1).is_none()
                    && self.has_at(&p2).is_none() {
                    if n == 0 {
                        found = Some(idx as u16);
                        proof {
                            assert(spec_from_idx(*field, idx as int) == p1);
                        }
                        break ;
                    }
                    n = n - 1;
                }
            }
            idx = idx + 2;
        }
        match found {
            Option::None => None,
            Some(fi) => {
                let shape = self.draw_shape();
                let location = field.from_idx(fi);
                Some(Food::new(shape, location))
            },
        }
    }
}

impl FoodField {
    /// Maintains the basic-food minimum. When fewer cells are reserved than
    /// `minimum` and the field is not saturated, this spawns exactly one
    /// basic item on a free, unclaimed cell, picked by a rejection-free
    /// counting scan from a uniformly random ordinal; every fifth spawn
    /// additionally attempts a special spawn. On a saturated field it does
    /// nothing, never failing.
    #[verifier::loop_isolation(false)]
    pub fn add_food(&mut self, field: &Field)
        requires
            old(self).bag_wf(),
            field.wf(),
            foods_shape_wf(old(self).foods@),
            count_trues(field@) + foods_total(old(self).foods@) <= field@.len(),
        ensures
            final(self).bag_wf(),
            foods_shape_wf(final(self).foods@),
            spec_topped_up(*field, old(self)@, final(self)@),
            foods_total(old(self).foods@) >= old(self).minimum ==> *final(self) == *old(self),
            foods_total(old(self).foods@) < old(self).minimum && field@.len() - count_trues(
                field@,
            ) < foods_total(old(self).foods@) + 1 ==> *final(self) == *old(self),
    {
        proof {
            lemma_free_idx_card(field@);
            lemma_foods_total_nonneg(self.foods@);
        }
        let total = self.total_filled();
        if total >= self.minimum {
            return ;
        }
        let cells: u16 = field.width * field.height;
        let occupied = field.total_occupied();
        let free: u16 = cells - (occupied as u16);
        if free <= total {
            return ;
        }
        let max = free - total;
        let nth = rand_below(max);

        // First pass: walk the cell indices in order until the random
        // ordinal's worth of unoccupied cells has been seen.
        let mut idx: u16 = 0;
        let mut n = nth;
        while n > 0 && idx < cells
            invariant
                idx <= cells,
            decreases cells - idx,
        {
            if !field.idx_filled(idx) {
                n = n - 1;
            }
            idx = idx + 1;
        }

        // Second pass: advance, wrapping around, past every cell that is
        // occupied or already claimed by an existing item.
        let start: u16 = if idx == cells {
            0
        } else {
            idx
        };
        let mut pos: u16 = start;
        let mut steps: u16 = 0;
        let mut found = false;
        while steps < cells
            invariant
                start < cells,
                steps <= cells,
                pos < cells,
                pos as int == if start + steps < cells {
                    (start + steps) as int
                } else {
                    start + steps - cells
                },
                !found ==> forall|j: int|
                    #![trigger spec_blocked(*field, self.foods@, j)]
                    0 <= j < cells && (if start + steps <= cells {
                        start <= j < start + steps
                    } else {
                        j >= start || j < start + steps - cells
                    }) ==> spec_blocked(*field, self.foods@, j),
                found ==> spec_free_cell(*field, self.foods@, spec_from_idx(*field, pos as int))
                    && pos as int == field.spec_idx(spec_from_idx(*field, pos as int)),
            decreases cells - steps,
        {
            let p = field.from_idx(pos);
            proof {
                assert(p == spec_from_idx(*field, pos as int));
            }
            if !field.idx_filled(pos) && self.has_at(&p).is_none() {
                found = true;
                break ;
            }
            proof {
                assert(spec_blocked(*field, self.foods@, pos as int));
            }
            pos = if pos + 1 == cells {
                0
            } else {
                pos + 1
            };
            steps = steps + 1;
        }
        if !found {
            proof {
                lemma_exists_free_cell(*field, self.foods@);
                let i = choose|i: int|
                    0 <= i < field@.len() && !field@[i] && !cell_claimed(
                        self.foods@,
                        #[trigger] spec_from_idx(*field, i),
                    );
                assert(spec_blocked(*field, self.foods@, i));
                assert(false);
            }
            return ;
        }
        let p = field.from_idx(pos);
        proof {
            assert(p == spec_from_idx(*field, pos as int));
        }
        let food = Food::new(FoodType::Basic, p);
        let ghost before = self.foods@;
        self.set_food(food);
        let ghost with_basic = self.foods@;
        proof {
            assert(self.foods@.drop_last() =~= before);
            assert(foods_total(self.foods@) == foods_total(before) + 1);
        }
        if self.count % 5 == 0 {
            let sp = self.random_special(max - 1, field);
            if let Some(sp_food) = sp {
                self.set_food(sp_food);
                proof {
                    assert(spec_free_cell(*field, old(self).foods@, p));
                    assert(sp_food == spec_food_new(sp_food.shape, sp_food.location));
                    assert(final(self).foods@ == old(self).foods@.push(food).push(sp_food));
                }
            }
        }
        proof {
            assert(spec_free_cell(*field, old(self).foods@, p));
            assert(food == spec_food_new(FoodType::Basic, p));
        }
    }
}

// ---------------------------------------------------------------------------
// Counting free and claimed cells.
// ---------------------------------------------------------------------------

/// The indices of the unoccupied cells of `s`.
pub open spec fn free_idx_set(s: Seq<bool>) -> Set<int> {
    Set::new(|i: int| 0 <= i < s.len() && !s[i])
}

/// The indices of the cells claimed by some item of `foods`.
pub open spec fn claimed_idx_set(field: Field, foods: Seq<Food>) -> Set<int> {
    Set::new(
        |i: int|
            0 <= i < field@.len() && cell_claimed(foods, spec_from_idx(field, i)),
    )
}

/// There are exactly `len - count_trues` unoccupied cells.
pub proof fn lemma_free_idx_card(s: Seq<bool>)
    ensures
        free_idx_set(s).finite(),
        free_idx_set(s).len() == s.len() - count_trues(s),
        count_trues(s) <= s.len(),
    decreases s.len(),
{
    if s.len() == 0 {
        assert(free_idx_set(s) =~= Set::empty());
    } else {
        let rest = s.drop_last();
        lemma_free_idx_card(rest);
        let n = s.len() - 1;
        if s.last() {
            assert(free_idx_set(s) =~= free_idx_set(rest));
        } else {
            assert(free_idx_set(s) =~= free_idx_set(rest).insert(n));
            assert(!free_idx_set(rest).contains(n));
        }
    }
}

/// An index below `width * height` names the same cell going back and forth
/// between points and linear indices.
pub proof fn lemma_idx_roundtrip(field: Field, i: int)
    requires
        field.wf(),
        0 <= i < field.width * field.height,
    ensures
        field.in_bounds(spec_from_idx(field, i)),
        field.spec_idx(spec_from_idx(field, i)) == i,
{
    let w = field.width as int;
    let h = field.height as int;
    vstd::arithmetic::div_mod::lemma_fundamental_div_mod(i, w);
    assert(i == (i / w) * w + (i % w)) by (nonlinear_arith)
        requires
            i == w * (i / w) + (i % w),
    ;
    assert(i / w < h) by (nonlinear_arith)
        requires
            i < w * h,
            w >= 1,
            i == (i / w) * w + (i % w),
            0 <= i % w < w,
    ;
    assert(i / w >= 0) by (nonlinear_arith)
        requires
            i >= 0,
            w >= 1,
            i == (i / w) * w + (i % w),
            0 <= i % w < w,
            i / w < h,
    ;
}

/// The cells of one item, as indices: at most `size` of them.
proof fn lemma_one_food_cells(field: Field, f: Food)
    requires
        field.wf(),
        food_shape_wf(f),
    ensures
        ({
            let cells = Set::new(
                |i: int|
                    0 <= i < field@.len() && spec_is_at(f, spec_from_idx(field, i)),
            );
            cells.finite() && cells.len() <= f.size
        }),
{
    let cells = Set::new(
        |i: int| 0 <= i < field@.len() && spec_is_at(f, spec_from_idx(field, i)),
    );
    let a = field.spec_idx(f.location);
    let b = a + 1;
    let pair = Set::empty().insert(a).insert(b);
    assert(cells.subset_of(pair)) by {
        assert forall|i: int| cells.contains(i) implies pair.contains(i) by {
            lemma_idx_roundtrip(field, i);
            let p = spec_from_idx(field, i);
            if p == f.location {
                assert(i == a);
            } else {
                assert(f.location.x + 1 == p.x && f.location.y == p.y);
                assert(field.spec_idx(p) == f.location.y * field.width + f.location.x + 1);
            }
        };
    };
    assert(pair.len() <= 2) by {
        assert(Set::<int>::empty().len() == 0);
        assert(Set::<int>::empty().insert(a).len() == 1);
    };
    vstd::set_lib::lemma_len_subset(cells, pair);
    if f.shape == FoodType::Basic {
        assert(cells.subset_of(Set::empty().insert(a))) by {
            assert forall|i: int| cells.contains(i) implies Set::empty().insert(a).contains(
                i,
            ) by {
                lemma_idx_roundtrip(field, i);
            };
        };
        assert(Set::<int>::empty().insert(a).len() == 1);
        vstd::set_lib::lemma_len_subset(cells, Set::empty().insert(a));
    }
}

/// The items of `foods` claim at most `foods_total` cells.
proof fn lemma_claimed_idx_card(field: Field, foods: Seq<Food>)
    requires
        field.wf(),
        foods_shape_wf(foods),
    ensures
        claimed_idx_set(field, foods).finite(),
        claimed_idx_set(field, foods).len() <= foods_total(foods),
    decreases foods.len(),
{
    if foods.len() == 0 {
        assert(claimed_idx_set(field, foods) =~= Set::empty());
    } else {
        let rest = foods.drop_last();
        let f = foods.last();
        assert(foods_shape_wf(rest));
        lemma_claimed_idx_card(field, rest);
        let last_cells = Set::new(
            |i: int| 0 <= i < field@.len() && spec_is_at(f, spec_from_idx(field, i)),
        );
        lemma_one_food_cells(field, f);
        assert(claimed_idx_set(field, foods).subset_of(
            claimed_idx_set(field, rest).union(last_cells),
        )) by {
            assert forall|i: int| claimed_idx_set(field, foods).contains(i) implies claimed_idx_set(
                field,
                rest,
            ).union(last_cells).contains(i) by {
                let p = spec_from_idx(field, i);
                let j = choose|j: int| 0 <= j < foods.len() && spec_is_at(#[trigger] foods[j], p);
                if j < foods.len() - 1 {
                    assert(rest[j] == foods[j]);
                    assert(cell_claimed(rest, p));
                }
            };
        };
        vstd::set_lib::lemma_len_union(claimed_idx_set(field, rest), last_cells);
        vstd::set_lib::lemma_len_subset(
            claimed_idx_set(field, foods),
            claimed_idx_set(field, rest).union(last_cells),
        );
    }
}

/// When the unoccupied cells outnumber the cells food reserves, some
/// unoccupied cell is also unclaimed: a spawn spot exists.
proof fn lemma_exists_free_cell(field: Field, foods: Seq<Food>)
    requires
        field.wf(),
        foods_shape_wf(foods),
        count_trues(field@) + foods_total(foods) < field@.len(),
    ensures
        exists|i: int|
            0 <= i < field@.len() && !field@[i] && !cell_claimed(
                foods,
                #[trigger] spec_from_idx(field, i),
            ),
{
    lemma_free_idx_card(field@);
    lemma_claimed_idx_card(field, foods);
    let free = free_idx_set(field@);
    let claimed = claimed_idx_set(field, foods);
    if forall|i: int|
        0 <= i < field@.len() && !field@[i] ==> cell_claimed(
            foods,
            #[trigger] spec_from_idx(field, i),
        ) {
        assert(free.subset_of(claimed)) by {
            assert forall|i: int| free.contains(i) implies claimed.contains(i) by {
                assert(0 <= i < field@.len() && !field@[i]);
                assert(cell_claimed(foods, spec_from_idx(field, i)));
            };
        };
        vstd::set_lib::lemma_len_subset(free, claimed);
        assert(false);
    }
}

/// With sizes matching shapes, an inventory reserves at least one cell per
/// item.
pub proof fn lemma_foods_total_ge_len(foods: Seq<Food>)
    requires
        foods_shape_wf(foods),
    ensures
        foods_total(foods) >= foods.len(),
    decreases foods.len(),
{
    if foods.len() > 0 {
        assert(food_shape_wf(foods.last()));
        assert(foods_shape_wf(foods.drop_last()));
        lemma_foods_total_ge_len(foods.drop_last());
    }
}

/// `first_at` cannot point below a prefix free of occupying items.
proof fn lemma_first_at_above(foods: Seq<Food>, p: FieldPoint, k: int)
    requires
        0 <= k <= foods.len(),
        forall|j: int| 0 <= j < k ==> !spec_is_at(#[trigger] foods[j], p),
    ensures
        first_at(foods, p) >= k,
    decreases k,
{
    lemma_first_at(foods, p);
    if k > 0 {
        assert(!spec_is_at(foods[0], p));
        assert forall|j: int| 0 <= j < k - 1 implies !spec_is_at(
            #[trigger] foods.drop_first()[j],
            p,
        ) by {
            assert(foods.drop_first()[j] == foods[j + 1]);
        };
        lemma_first_at_above(foods.drop_first(), p, k - 1);
        assert(first_at(foods, p) == 1 + first_at(foods.drop_first(), p));
    }
}

/// Extending a prefix by one item adds that item's size to the total.
proof fn lemma_foods_total_take_step(foods: Seq<Food>, i: int)
    requires
        0 <= i < foods.len(),
    ensures
        foods_total(foods.take(i + 1)) == foods_total(foods.take(i)) + foods[i].size,
{
    assert(foods.take(i + 1).drop_last() =~= foods.take(i));
}

/// A prefix never reserves more cells than the whole sequence.
proof fn lemma_foods_total_take_bound(foods: Seq<Food>, k: int)
    requires
        0 <= k <= foods.len(),
    ensures
        foods_total(foods.take(k)) <= foods_total(foods),
        foods_total(foods.take(k)) >= 0,
    decreases foods.len() - k,
{
    lemma_foods_total_nonneg(foods.take(k));
    if k == foods.len() {
        assert(foods.take(k) =~= foods);
        lemma_foods_total_nonneg(foods);
    } else {
        lemma_foods_total_take_step(foods, k);
        lemma_foods_total_take_bound(foods, k + 1);
    }
}

/// Cell totals are never negative.
pub proof fn lemma_foods_total_nonneg(foods: Seq<Food>)
    ensures
        foods_total(foods) >= 0,
    decreases foods.len(),
{
    if foods.len() > 0 {
        lemma_foods_total_nonneg(foods.drop_last());
    }
}

} // verus!
