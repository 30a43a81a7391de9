//! Snake bodies: an ordered double-ended sequence of segments (front = tail,
//! back = head), directional movement with toroidal wraparound, and the turn
//! rules that forbid reversing into the own neck.

use std::collections::VecDeque;
use vstd::prelude::*;

use crate::field::Field;
use crate::types::{
    config_wf, spec_add_wrapping, spec_opposite, Direction, FieldPoint, GameConfig,
    WrappableDirection,
};

verus! {

/// One body segment: the cell it occupies, the heading it was moving in when
/// it occupied that cell, and whether it was created by eating (a stuffed
/// segment causes growth instead of a same-length crawl).
#[derive(Clone, Copy, Debug, PartialEq, Eq, Structural)]
pub struct SnakeNode {
    pub direction: Direction,
    pub position: FieldPoint,
    pub stuffed: bool,
}

/// A snake: its body segments, current heading (with the grid bounds used
/// for wraparound), score, and player identifier.
#[derive(Debug, Clone)]
pub struct Snake {
    pub nodes: VecDeque<SnakeNode>,
    pub direction: WrappableDirection,
    pub score: u16,
    pub id: u16,
}

/// The body cell reached after `k` forward steps from `start` along `d`.
pub open spec fn seed_pos(start: FieldPoint, d: WrappableDirection, k: nat) -> FieldPoint
    decreases k,
{
    if k == 0 {
        start
    } else {
        spec_add_wrapping(seed_pos(start, d, (k - 1) as nat), d)
    }
}

/// The segment seeded `k` steps from `start`.
pub open spec fn seed_node(start: FieldPoint, d: WrappableDirection, k: nat) -> SnakeNode {
    SnakeNode { direction: d.to, position: seed_pos(start, d, k), stuffed: false }
}

/// The full body seeded from `start`: `size` segments, tail first.
pub open spec fn seed_body(start: FieldPoint, d: WrappableDirection, size: nat) -> Seq<SnakeNode> {
    Seq::new(size, |k: int| seed_node(start, d, k as nat))
}

/// Where the seeded body cell `k` lies on each axis: stepping moves one
/// coordinate by one per step, modulo the bounds, and leaves the other
/// coordinate alone.
proof fn lemma_seed_char(start: FieldPoint, d: WrappableDirection, k: nat)
    requires
        d.max.x >= 1,
        d.max.y >= 1,
        start.x < d.max.x,
        start.y < d.max.y,
    ensures
        seed_pos(start, d, k).x == match d.to {
            Direction::Right => (start.x + k) % (d.max.x as int),
            Direction::Left => (start.x - k) % (d.max.x as int),
            _ => start.x as int,
        },
        seed_pos(start, d, k).y == match d.to {
            Direction::Down => (start.y + k) % (d.max.y as int),
            Direction::Up => (start.y - k) % (d.max.y as int),
            _ => start.y as int,
        },
        seed_pos(start, d, k).x < d.max.x,
        seed_pos(start, d, k).y < d.max.y,
    decreases k,
{
    let w = d.max.x as int;
    let h = d.max.y as int;
    if k == 0 {
        vstd::arithmetic::div_mod::lemma_small_mod(start.x as nat, d.max.x as nat);
        vstd::arithmetic::div_mod::lemma_small_mod(start.y as nat, d.max.y as nat);
    } else {
        lemma_seed_char(start, d, (k - 1) as nat);
        let p = seed_pos(start, d, (k - 1) as nat);
        vstd::arithmetic::div_mod::lemma_small_mod(p.x as nat, d.max.x as nat);
        vstd::arithmetic::div_mod::lemma_small_mod(p.y as nat, d.max.y as nat);
        match d.to {
            Direction::Right => {
                vstd::arithmetic::div_mod::lemma_add_mod_noop(p.x as int, 1, w);
                vstd::arithmetic::div_mod::lemma_add_mod_noop(start.x + k - 1, 1, w);
                vstd::arithmetic::div_mod::lemma_mod_twice(start.x + k - 1, w);
            },
            Direction::Left => {
                vstd::arithmetic::div_mod::lemma_add_mod_noop(p.x as int, w - 1, w);
                vstd::arithmetic::div_mod::lemma_add_mod_noop(start.x - (k - 1), w - 1, w);
                vstd::arithmetic::div_mod::lemma_mod_twice(start.x - (k - 1), w);
                vstd::arithmetic::div_mod::lemma_mod_add_multiples_vanish(start.x - k, w);
            },
            Direction::Down => {
                vstd::arithmetic::div_mod::lemma_add_mod_noop(p.y as int, 1, h);
                vstd::arithmetic::div_mod::lemma_add_mod_noop(start.y + k - 1, 1, h);
                vstd::arithmetic::div_mod::lemma_mod_twice(start.y + k - 1, h);
            },
            Direction::Up => {
                vstd::arithmetic::div_mod::lemma_add_mod_noop(p.y as int, h - 1, h);
                vstd::arithmetic::div_mod::lemma_add_mod_noop(start.y - (k - 1), h - 1, h);
                vstd::arithmetic::div_mod::lemma_mod_twice(start.y - (k - 1), h);
                vstd::arithmetic::div_mod::lemma_mod_add_multiples_vanish(start.y - k, h);
            },
        }
    }
}

/// Two residues of points less than one modulus apart differ.
proof fn lemma_mod_injective(u: int, v: int, m: int)
    requires
        m >= 1,
        u < v,
        v - u < m,
    ensures
        u % m != v % m,
{
    vstd::arithmetic::div_mod::lemma_fundamental_div_mod(u, m);
    vstd::arithmetic::div_mod::lemma_fundamental_div_mod(v, m);
    if u % m == v % m {
        let qu = u / m;
        let qv = v / m;
        assert(v - u == m * (qv - qu)) by (nonlinear_arith)
            requires
                u == m * qu + u % m,
                v == m * qv + v % m,
                u % m == v % m,
        ;
        assert(false) by (nonlinear_arith)
            requires
                v - u == m * (qv - qu),
                0 < v - u < m,
        ;
    }
}

/// The seeded body stays on the grid and never overlaps itself, as long as
/// it is no longer than either axis.
pub proof fn lemma_seed_distinct(start: FieldPoint, d: WrappableDirection, size: nat)
    requires
        d.max.x >= 1,
        d.max.y >= 1,
        start.x < d.max.x,
        start.y < d.max.y,
        size <= d.max.x,
        size <= d.max.y,
    ensures
        forall|k: nat|
            k < size ==> (#[trigger] seed_pos(start, d, k)).x < d.max.x && seed_pos(
                start,
                d,
                k,
            ).y < d.max.y,
        forall|j: nat, k: nat|
            j < k < size ==> #[trigger] seed_pos(start, d, j) != #[trigger] seed_pos(start, d, k),
{
    assert forall|k: nat| k < size implies (#[trigger] seed_pos(start, d, k)).x < d.max.x
        && seed_pos(start, d, k).y < d.max.y by {
        lemma_seed_char(start, d, k);
    };
    assert forall|j: nat, k: nat| j < k < size implies #[trigger] seed_pos(start, d, j)
        != #[trigger] seed_pos(start, d, k) by {
        lemma_seed_char(start, d, j);
        lemma_seed_char(start, d, k);
        match d.to {
            Direction::Right => lemma_mod_injective(
                start.x + j,
                start.x + k,
                d.max.x as int,
            ),
            Direction::Left => lemma_mod_injective(start.x - k, start.x - j, d.max.x as int),
            Direction::Down => lemma_mod_injective(start.y + j, start.y + k, d.max.y as int),
            Direction::Up => lemma_mod_injective(start.y - k, start.y - j, d.max.y as int),
        }
    };
}

/// The mathematical value of a snake: its body segments in order (tail
/// first), heading, score, and identifier.
#[verifier::ext_equal]
pub ghost struct SnakeView {
    pub nodes: Seq<SnakeNode>,
    pub direction: WrappableDirection,
    pub score: u16,
    pub id: u16,
}

impl SnakeView {
    /// The head segment: the back of the body sequence.
    pub open spec fn head(self) -> SnakeNode {
        self.nodes.last()
    }

    /// A turn request is ignored when it repeats the head's heading or would
    /// reverse it.
    pub open spec fn should_ignore(self, to: Direction) -> bool {
        spec_opposite(self.head().direction) == to || self.head().direction == to
    }

    /// The snake after a turn request: unchanged when the request is
    /// ignored, otherwise only the heading moves to `to`.
    pub open spec fn head_to(self, to: Direction) -> SnakeView {
        if self.should_ignore(to) {
            self
        } else {
            SnakeView { direction: WrappableDirection { to, max: self.direction.max }, ..self }
        }
    }

    /// The candidate next head: one wrapping step from the current head
    /// along the current heading.
    pub open spec fn next_head(self) -> SnakeNode {
        SnakeNode {
            direction: self.direction.to,
            position: spec_add_wrapping(self.head().position, self.direction),
            stuffed: false,
        }
    }

    /// Whether some body segment occupies the cell `p`.
    pub open spec fn occupies(self, p: FieldPoint) -> bool {
        exists|k: int| 0 <= k < self.nodes.len() && (#[trigger] self.nodes[k]).position == p
    }

    /// Structural soundness of a live snake: a non-empty body of in-bounds,
    /// pairwise distinct cells; positive wrapping bounds; and a heading that
    /// never reverses the head segment.
    pub open spec fn wf(self) -> bool {
        &&& self.nodes.len() >= 1
        &&& self.direction.max.x >= 1
        &&& self.direction.max.y >= 1
        &&& forall|k: int|
            0 <= k < self.nodes.len() ==> (#[trigger] self.nodes[k]).position.x
                < self.direction.max.x && self.nodes[k].position.y < self.direction.max.y
        &&& forall|j: int, k: int|
            0 <= j < k < self.nodes.len() ==> (#[trigger] self.nodes[j]).position != (
            #[trigger] self.nodes[k]).position
        &&& self.direction.to != spec_opposite(self.head().direction)
    }
}

impl View for Snake {
    type V = SnakeView;

    open spec fn view(&self) -> SnakeView {
        SnakeView {
            nodes: self.nodes@,
            direction: self.direction,
            score: self.score,
            id: self.id,
        }
    }
}

impl Snake {
    /// Requests a heading change; the turn is rejected (returning false and
    /// changing nothing) when it repeats or reverses the head segment's
    /// direction, so a snake can never be told to run into its own neck.
    pub fn head_to(&mut self, to: Direction) -> (r: bool)
        requires
            old(self).nodes@.len() >= 1,
        ensures
            final(self)@ == old(self)@.head_to(to),
            r == !old(self)@.should_ignore(to),
            final(self).nodes@ == old(self).nodes@,
            old(self)@.wf() ==> final(self)@.wf(),
    {
        if self.should_ignore_turn(to) {
            return false;
        }
        self.direction.to = to;
        true
    }

    /// The candidate next head cell, computed without mutating the snake.
    pub fn next_head(&self) -> (r: SnakeNode)
        requires
            self.nodes@.len() >= 1,
            self.direction.max.x >= 1,
            self.direction.max.y >= 1,
        ensures
            r == self@.next_head(),
            r.position.x < self.direction.max.x,
            r.position.y < self.direction.max.y,
    {
        let head = &self.nodes[self.nodes.len() - 1];
        let position = head.position.add_wrapping(self.direction);
        SnakeNode { direction: self.direction.to, position, stuffed: false }
    }

    /// Seeds a body of `size` segments: starting from a single node at
    /// `location`, successive forward positions are computed and every
    /// seeded cell is marked occupied on the field.
    #[verifier::loop_isolation(false)]
    pub fn egg_hatch(&mut self, field: &mut Field, location: FieldPoint, size: u16)
        requires
            old(self).nodes@.len() == 0,
            old(field).wf(),
            old(self).direction.max.x == old(field).width,
            old(self).direction.max.y == old(field).height,
            old(field).in_bounds(location),
            1 <= size,
            size <= old(field).width,
            size <= old(field).height,
            forall|k: nat|
                k < size ==> !old(field)@[old(field).spec_idx(
                    #[trigger] seed_pos(location, old(self).direction, k),
                )],
        ensures
            final(self).nodes@ == seed_body(location, old(self).direction, size as nat),
            final(self).direction == old(self).direction,
            final(self).score == old(self).score,
            final(self).id == old(self).id,
            final(self)@.wf(),
            final(field).wf(),
            final(field).width == old(field).width,
            final(field).height == old(field).height,
            forall|i: int|
                0 <= i < old(field)@.len() ==> final(field)@[i] == (old(field)@[i] || exists|k: nat|
                    k < size && i == old(field).spec_idx(
                        #[trigger] seed_pos(location, old(self).direction, k),
                    )),
    {
        let ghost d = self.direction;
        proof {
            lemma_seed_distinct(location, d, size as nat);
            crate::types::lemma_opposite_involutive(d.to);
        }
        self.nodes.push_back(SnakeNode { direction: self.direction.to, position: location, stuffed: false });
        field.set(&location, true);
        proof {
            field.lemma_idx_bounds(location);
            assert(seed_pos(location, d, 0) == location);
            assert forall|i: int| 0 <= i < old(field)@.len() implies field@[i] == (old(field)@[i]
                || exists|j: nat|
                j < 1 && i == old(field).spec_idx(#[trigger] seed_pos(location, d, j))) by {
                if i == old(field).spec_idx(location) {
                    assert(i == old(field).spec_idx(seed_pos(location, d, 0)));
                } else {
                    if exists|j: nat|
                        j < 1 && i == old(field).spec_idx(#[trigger] seed_pos(location, d, j)) {
                        let j = choose|j: nat|
                            j < 1 && i == old(field).spec_idx(#[trigger] seed_pos(location, d, j));
                        assert(j == 0);
                    }
                }
            };
        }
        let mut k: u16 = 1;
        while k < size
            invariant
                1 <= k <= size,
                self.nodes@ =~= seed_body(location, d, k as nat),
                self.direction == d,
                self.score == old(self).score,
                self.id == old(self).id,
                field.wf(),
                field.width == old(field).width,
                field.height == old(field).height,
                forall|i: int|
                    0 <= i < old(field)@.len() ==> field@[i] == (old(field)@[i] || exists|j: nat|
                        j < k && i == old(field).spec_idx(#[trigger] seed_pos(location, d, j))),
            decreases size - k,
        {
            let next = self.next_head();
            assert(next == seed_node(location, d, k as nat));
            self.nodes.push_back(next);
            proof {
                field.lemma_idx_bounds(next.position);
            }
            field.set(&next.position, true);
            k = k + 1;
            assert(self.nodes@ =~= seed_body(location, d, k as nat));
            assert forall|i: int| 0 <= i < old(field)@.len() implies field@[i] == (old(field)@[i]
                || exists|j: nat|
                j < k && i == old(field).spec_idx(#[trigger] seed_pos(location, d, j))) by {
                let ni = old(field).spec_idx(seed_pos(location, d, (k - 1) as nat));
                if i == ni {
                    assert(seed_pos(location, d, (k - 1) as nat) == seed_pos(
                        location,
                        d,
                        (k - 1) as nat,
                    ));
                } else {
                    if exists|j: nat|
                        j < k && i == old(field).spec_idx(
                            #[trigger] seed_pos(location, d, j),
                        ) {
                        let j = choose|j: nat|
                            j < k && i == old(field).spec_idx(#[trigger] seed_pos(location, d, j));
                        assert(j < k - 1);
                    }
                }
            };
        }
        assert forall|j: int, kk: int|
            0 <= j < kk < self.nodes@.len() implies (#[trigger] self.nodes@[j]).position != (
        #[trigger] self.nodes@[kk]).position by {
            assert(seed_pos(location, d, j as nat) != seed_pos(location, d, kk as nat));
        };
    }

    /// A freshly hatched snake: seeded from the configured start cell along
    /// the configured heading, with score zero.
    pub fn new(field: &mut Field, config: &GameConfig, id: u16) -> (r: Snake)
        requires
            old(field).wf(),
            config_wf(*config),
            config.dim.0 == old(field).width,
            config.dim.1 == old(field).height,
            forall|k: nat|
                k < config.size ==> !old(field)@[old(field).spec_idx(
                    #[trigger] seed_pos(
                        FieldPoint { x: config.start.0, y: config.start.1 },
                        WrappableDirection {
                            to: config.direction,
                            max: FieldPoint { x: config.dim.0, y: config.dim.1 },
                        },
                        k,
                    ),
                )],
        ensures
            r.id == id,
            r.score == 0,
            r.direction == (WrappableDirection {
                to: config.direction,
                max: FieldPoint { x: config.dim.0, y: config.dim.1 },
            }),
            r.nodes@ == seed_body(
                FieldPoint { x: config.start.0, y: config.start.1 },
                r.direction,
                config.size as nat,
            ),
            r@.wf(),
            final(field).wf(),
            final(field).width == old(field).width,
            final(field).height == old(field).height,
            forall|i: int|
                0 <= i < old(field)@.len() ==> final(field)@[i] == (old(field)@[i] || exists|k: nat|
                    k < config.size && i == old(field).spec_idx(
                        #[trigger] seed_pos(
                            FieldPoint { x: config.start.0, y: config.start.1 },
                            r.direction,
                            k,
                        ),
                    )),
    {
        let (width, height) = config.dim;
        let max = FieldPoint { x: width, y: height };
        let (x, y) = config.start;
        let start = FieldPoint { x, y };
        let to = config.direction;
        let mut snake = Snake {
            id,
            nodes: VecDeque::new(),
            direction: WrappableDirection { to, max },
            score: 0,
        };
        snake.egg_hatch(field, start, config.size);
        snake
    }

    /// Whether a turn request towards `to` would be ignored.
    pub fn should_ignore_turn(&self, to: Direction) -> (r: bool)
        requires
            self.nodes@.len() >= 1,
        ensures
            r == self@.should_ignore(to),
    {
        let direction = self.nodes[self.nodes.len() - 1].direction;
        crate::types::opposite_of(direction) == to || direction == to
    }
}

/// A turn request never sets the heading to the reverse of the head
/// segment's direction, so a snake can never be steered straight into its
/// own neck.
pub proof fn lemma_head_to_never_reverses(sv: SnakeView, to: Direction)
    requires
        sv.wf(),
    ensures
        sv.head_to(to).direction.to != spec_opposite(sv.head().direction),
        sv.head_to(to).wf(),
{
    crate::types::lemma_opposite_involutive(sv.head().direction);
}

/// A burst of alternating left/right requests at a horizontally moving head
/// (or up/down requests at a vertical one) is rejected wholesale: each
/// request repeats or reverses the head segment, so the snake is unchanged.
pub proof fn lemma_alternating_turns_ignored(sv: SnakeView, a: Direction, b: Direction)
    requires
        sv.nodes.len() >= 1,
        a == sv.head().direction || a == spec_opposite(sv.head().direction),
        b == sv.head().direction || b == spec_opposite(sv.head().direction),
    ensures
        sv.head_to(a) == sv,
        sv.head_to(a).head_to(b) == sv,
{
}

/// Assembles a snake from explicit `(x, y, direction)` segments, tail first;
/// the heading is taken from the last (head) segment. Meant for clients and
/// tests that need a body in a known shape.
#[verifier::loop_isolation(false)]
pub fn build_snake(positions: Vec<(u16, u16, Direction)>, max: &FieldPoint) -> (r: Snake)
    requires
        positions@.len() >= 1,
    ensures
        r.nodes@.len() == positions@.len(),
        forall|k: int|
            0 <= k < positions@.len() ==> #[trigger] r.nodes@[k] == (SnakeNode {
                direction: positions@[k].2,
                position: FieldPoint { x: positions@[k].0, y: positions@[k].1 },
                stuffed: false,
            }),
        r.direction == (WrappableDirection { to: positions@.last().2, max: *max }),
        r.score == 0,
        r.id == 0,
{
    let to = positions[positions.len() - 1].2;
    let direction = WrappableDirection { to, max: *max };
    let mut snake = Snake { nodes: VecDeque::new(), direction, score: 0, id: 0 };
    let mut i: usize = 0;
    while i < positions.len()
        invariant
            0 <= i <= positions@.len(),
            snake.nodes@.len() == i,
            forall|k: int|
                0 <= k < i ==> #[trigger] snake.nodes@[k] == (SnakeNode {
                    direction: positions@[k].2,
                    position: FieldPoint { x: positions@[k].0, y: positions@[k].1 },
                    stuffed: false,
                }),
            snake.direction == direction,
            snake.score == 0,
            snake.id == 0,
        decreases positions@.len() - i,
    {
        let (x, y, node_direction) = positions[i];
        snake.nodes.push_back(
            SnakeNode { direction: node_direction, position: FieldPoint { x, y }, stuffed: false },
        );
        i = i + 1;
    }
    snake
}

} // verus!
