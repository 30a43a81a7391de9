//! The render interface and the binary renderer: the core reports state
//! changes through `GameRender`, a pure sink that never mutates game state;
//! `BinaryRender` turns them into bit-packed sprite writes on an abstract
//! `Screen`, walking the doubled pixel grid with the same toroidal
//! arithmetic the simulation uses.

use vstd::prelude::*;

use crate::food::FoodField;
use crate::snake::{Snake, SnakeNode};
use crate::sprites::SpritesBinary;
use crate::types::{
    spec_add_wrapping, spec_opposite, Direction, FieldPoint, Food, FoodType, WrappableDirection,
};

verus! {

/// What the core tells a renderer. A renderer is a pure sink: it draws and
/// never feeds anything back into the simulation.
pub trait GameRender {
    /// Draws one snake from scratch.
    fn snake_full(&mut self, snake: &Snake, food_field: &FoodField);

    /// Redraws a snake after a same-length crawl.
    fn crawl(&mut self, snake: &Snake, food_field: &FoodField);

    /// Redraws a snake after it grew by one segment.
    fn grow(&mut self, snake: &Snake, food_field: &FoodField);

    /// Announces a food item that appeared.
    fn added_food(&mut self, food: &Food);

    /// Announces a food item that disappeared.
    fn removed_food(&mut self, food: &Food);

    /// Updates the score panel.
    fn update_score(&mut self, score: u16);
}

/// The drawing surface a binary renderer writes sprites to, implemented per
/// target platform. A pure output port: nothing is read back.
pub trait Screen {
    /// Prepares a surface of the given pixel dimensions.
    fn setup(&self, width: u16, height: u16);

    /// Draws a 4x2 sprite at a field position.
    fn field_sprite_4x2(&self, sprite: u8, p: &FieldPoint);

    /// Draws a 2x4 sprite at a field position.
    fn field_sprite_2x4(&self, sprite: u8, p: &FieldPoint);

    /// Draws a 3x3 sprite at a field position.
    fn field_sprite_3x3(&self, sprite: u8, p: &FieldPoint);

    /// Draws an 8x4 sprite at a field position.
    fn field_sprite_8x4(&self, sprite: u32, p: &FieldPoint);

    /// Draws a 3x5 sprite on the side panel.
    fn panel_sprite_3x5(&self, sprite: u16, px: i16);

    /// Draws an 8x4 sprite on the side panel.
    fn panel_sprite_8x4(&self, sprite: u32, x_off_pixels: i16, y_off_pixels: u16);
}

/// Ten to the `e`-th power.
pub open spec fn ten_pow(e: nat) -> int
    decreases e,
{
    if e == 0 {
        1
    } else {
        10 * ten_pow((e - 1) as nat)
    }
}

/// The decimal digits of `n`, most significant first, padded (or truncated)
/// to exactly `digits` places.
pub fn to_base_10_array(n: u16, digits: u8) -> (r: Vec<u8>)
    ensures
        r@.len() == digits,
        forall|k: int|
            0 <= k < digits ==> #[trigger] r@[k] == (n as int / ten_pow(
                (digits - 1 - k) as nat,
            )) % 10,
{
    let mut rev: Vec<u8> = Vec::new();
    let mut nn = n;
    let mut j: u8 = 0;
    while j < digits
        invariant
            0 <= j <= digits,
            rev@.len() == j,
            nn as int == n as int / ten_pow(j as nat),
            forall|m: int|
                0 <= m < j ==> #[trigger] rev@[m] == (n as int / ten_pow(m as nat)) % 10,
        decreases digits - j,
    {
        rev.push((nn % 10) as u8);
        proof {
            lemma_ten_pow_step(n as int, j as nat);
        }
        nn = nn / 10;
        j = j + 1;
    }
    let mut out: Vec<u8> = Vec::new();
    let mut k: u8 = 0;
    while k < digits
        invariant
            0 <= k <= digits,
            out@.len() == k,
            rev@.len() == digits,
            forall|m: int|
                0 <= m < digits ==> #[trigger] rev@[m] == (n as int / ten_pow(m as nat)) % 10,
            forall|m: int|
                0 <= m < k ==> #[trigger] out@[m] == (n as int / ten_pow(
                    (digits - 1 - m) as nat,
                )) % 10,
        decreases digits - k,
    {
        out.push(rev[(digits - 1 - k) as usize]);
        k = k + 1;
    }
    out
}

/// Dividing by the next power of ten is dividing once more by ten.
proof fn lemma_ten_pow_step(n: int, j: nat)
    requires
        n >= 0,
    ensures
        (n / ten_pow(j)) / 10 == n / ten_pow(j + 1),
        ten_pow(j) >= 1,
    decreases j,
{
    lemma_ten_pow_pos(j);
    vstd::arithmetic::div_mod::lemma_div_denominator(n, ten_pow(j), 10);
    assert(ten_pow(j) * 10 == ten_pow(j + 1)) by {
        assert(ten_pow(j + 1) == 10 * ten_pow(j));
        vstd::arithmetic::mul::lemma_mul_is_commutative(10, ten_pow(j));
    };
}

/// Powers of ten are positive.
proof fn lemma_ten_pow_pos(j: nat)
    ensures
        ten_pow(j) >= 1,
    decreases j,
{
    if j > 0 {
        lemma_ten_pow_pos((j - 1) as nat);
    }
}

/// A renderer that draws bit-packed sprites on a doubled pixel grid: each
/// field cell is two sprite blocks wide and tall, and the cursor walks the
/// doubled grid with the simulation's own toroidal stepping.
pub struct BinaryRender<S: Screen> {
    pub tail: Option<SnakeNode>,
    pub head: Option<SnakeNode>,
    pub pos: FieldPoint,
    pub to: WrappableDirection,
    pub screen: S,
}

impl<S: Screen> BinaryRender<S> {
    /// The cursor bounds are positive, so every walk stays on the doubled
    /// grid.
    pub open spec fn wf(self) -> bool {
        self.to.max.x >= 1 && self.to.max.y >= 1
    }

    /// A renderer over a `width` x `height` cell grid.
    pub fn new(width: u16, height: u16, screen: S) -> (r: BinaryRender<S>)
        requires
            1 <= width <= u16::MAX / 2,
            1 <= height <= u16::MAX / 2,
        ensures
            r.wf(),
            r.to.max == (FieldPoint { x: (2 * width) as u16, y: (2 * height) as u16 }),
            r.to.to == Direction::Right,
            r.tail is None,
            r.head is None,
    {
        let max = FieldPoint { x: width * 2, y: height * 2 };
        screen.setup(max.x, max.y);
        let to = Direction::Right;
        let to = WrappableDirection { max, to };
        BinaryRender { screen, pos: max, to, tail: None, head: None }
    }

    /// Draws one snake block at the cursor, oriented by the cursor heading.
    fn draw_snake_sprite(&mut self, sprite: u8)
        ensures
            *final(self) == *old(self),
    {
        let p = self.pos;
        match self.to.to {
            Direction::Left | Direction::Right => self.screen.field_sprite_2x4(sprite, &p),
            Direction::Up | Direction::Down => self.screen.field_sprite_4x2(sprite, &p),
        }
    }

    /// Draws a segment's two blocks, walking one step between them.
    fn draw_snake_sprites(&mut self, sprites: [u8; 2])
        requires
            old(self).wf(),
        ensures
            final(self).wf(),
            final(self).pos == spec_add_wrapping(old(self).pos, old(self).to),
            final(self).to == old(self).to,
            final(self).tail == old(self).tail,
            final(self).head == old(self).head,
    {
        self.draw_snake_sprite(sprites[0]);
        self.walk();
        self.draw_snake_sprite(sprites[1]);
    }

    /// Draws `digits` decimal digits of `n` on the panel starting at `x0`.
    fn draw_panel_digits(&mut self, n: u16, digits: u8, x0: i16)
        requires
            x0 + digits <= i16::MAX,
        ensures
            *final(self) == *old(self),
    {
        let score_digits = to_base_10_array(n, digits);
        let mut x: usize = 0;
        while x < score_digits.len()
            invariant
                score_digits@.len() == digits,
                *self == *old(self),
                x0 + digits <= i16::MAX,
            decreases score_digits@.len() - x,
        {
            let digit = score_digits[x];
            let sprite = SpritesBinary::digit(digit);
            self.screen.panel_sprite_3x5(sprite, x0 + (x as i16));
            x = x + 1;
        }
    }

    /// Blanks `digits` panel digit slots starting at `x0`.
    fn clear_panel_digits(&mut self, digits: u8, x0: i16)
        requires
            x0 + digits <= i16::MAX,
        ensures
            *final(self) == *old(self),
    {
        let mut x: u8 = 0;
        while x < digits
            invariant
                0 <= x <= digits,
                *self == *old(self),
                x0 + digits <= i16::MAX,
            decreases digits - x,
    {
            self.screen.panel_sprite_3x5(0, x0 + (x as i16));
            x = x + 1;
        }
    }

    /// Moves the cursor onto a segment's position and heading.
    fn go_to(&mut self, node: &SnakeNode)
        ensures
            final(self).pos == node.position,
            final(self).to == (WrappableDirection { to: node.direction, max: old(self).to.max }),
            final(self).tail == old(self).tail,
            final(self).head == old(self).head,
            old(self).wf() ==> final(self).wf(),
    {
        self.pos = node.position;
        self.turn(node.direction);
    }

    /// Turns the cursor.
    fn turn(&mut self, direction: Direction)
        ensures
            *final(self) == (BinaryRender {
                to: WrappableDirection { to: direction, max: old(self).to.max },
                ..*old(self)
            }),
    {
        self.to.to = direction;
    }

    /// One toroidal step along the cursor heading.
    fn walk(&mut self)
        requires
            old(self).wf(),
        ensures
            final(self).wf(),
            *final(self) == (BinaryRender {
                pos: spec_add_wrapping(old(self).pos, old(self).to),
                ..*old(self)
            }),
    {
        self.pos = self.pos.add_wrapping(self.to);
    }

    /// One toroidal step backwards.
    fn step_back(&mut self)
        requires
            old(self).wf(),
        ensures
            final(self).wf(),
            *final(self) == (BinaryRender {
                pos: spec_add_wrapping(
                    old(self).pos,
                    WrappableDirection {
                        max: old(self).to.max,
                        to: spec_opposite(old(self).to.to),
                    },
                ),
                ..*old(self)
            }),
    {
        let opposite = WrappableDirection {
            max: self.to.max,
            to: crate::types::opposite_of(self.to.to),
        };
        self.pos = self.pos.add_wrapping(opposite);
    }

    /// Remembers the cursor as the drawn tail position.
    fn save_tail(&mut self)
        ensures
            *final(self) == (BinaryRender {
                tail: Some(
                    SnakeNode {
                        direction: old(self).to.to,
                        position: old(self).pos,
                        stuffed: false,
                    },
                ),
                ..*old(self)
            }),
    {
        self.tail = Some(SnakeNode { direction: self.to.to, position: self.pos, stuffed: false });
    }

    /// Remembers the cursor as the drawn head position.
    fn save_head(&mut self)
        ensures
            *final(self) == (BinaryRender {
                head: Some(
                    SnakeNode {
                        direction: old(self).to.to,
                        position: old(self).pos,
                        stuffed: false,
                    },
                ),
                ..*old(self)
            }),
    {
        self.head = Some(SnakeNode { direction: self.to.to, position: self.pos, stuffed: false });
    }

    /// Draws one interior segment: turns onto it and draws its two blocks,
    /// with the food bulge when the segment is stuffed.
    pub fn node(&mut self, node: &SnakeNode, next: &SnakeNode, has_food: bool)
        requires
            old(self).wf(),
        ensures
            final(self).wf(),
    {
        self.turn(node.direction);
        let sprites = SpritesBinary::full_node(node.direction, next.direction, has_food);
        self.draw_snake_sprites(sprites);
    }

    /// Draws the head ahead of the last body segment, mouth open when food
    /// lies on the candidate next cell.
    pub fn draw_head(&mut self, snake: &Snake, food_field: &FoodField)
        requires
            old(self).wf(),
        ensures
            final(self).wf(),
    {
        if snake.nodes.len() == 0 || snake.direction.max.x == 0 || snake.direction.max.y == 0 {
            return ;
        }
        let head = snake.nodes[snake.nodes.len() - 1];
        let next_position = snake.next_head().position;
        let open = food_field.has_at(&next_position).is_some();
        self.turn(head.direction);
        self.walk();
        self.save_head();
        self.draw_snake_sprites(SpritesBinary::full_head(head.direction, open));
    }

    /// Redraws neck and head after a move.
    fn replace_head(&mut self, snake: &Snake, food_field: &FoodField, has_food: bool)
        requires
            old(self).wf(),
        ensures
            final(self).wf(),
    {
        let prev = self.head;
        if let Some(prev) = prev {
            self.go_to(&prev);
        }
        if snake.nodes.len() < 2 {
            return ;
        }
        let head = snake.nodes[snake.nodes.len() - 1];
        let neck = snake.nodes[snake.nodes.len() - 2];
        self.node(&neck, &head, has_food);
        self.draw_head(snake, food_field);
    }

    /// Blanks the previously drawn tail blocks.
    fn clear_tail(&mut self)
        requires
            old(self).wf(),
        ensures
            final(self).wf(),
    {
        let tail = self.tail;
        if let Some(tail) = tail {
            self.go_to(&tail);
            self.draw_snake_sprites([0, 0]);
        }
    }

    /// Moves the drawn tail one step: blanks the old tip and draws the new
    /// one, bridging a corner when the tail turns.
    fn update_tail(&mut self, tail: &SnakeNode, next_to: Direction)
        requires
            old(self).wf(),
            tail.position.x <= u16::MAX / 2 - 1,
            tail.position.y <= u16::MAX / 2 - 1,
        ensures
            final(self).wf(),
    {
        self.clear_tail();
        self.turn(tail.direction);
        match self.tail {
            Some(_) => self.walk(),
            Option::None => {
                let p = tail.position;
                let (off_x, off_y): (u16, u16) = match tail.direction {
                    Direction::Right => (0, 1),
                    Direction::Left => (2, 1),
                    Direction::Down => (1, 0),
                    Direction::Up => (1, 2),
                };
                self.go_to(
                    &SnakeNode {
                        direction: tail.direction,
                        position: FieldPoint { x: (p.x * 2) + off_x, y: (p.y * 2) + off_y },
                        stuffed: false,
                    },
                )
            },
        }
        self.save_tail();
        if tail.direction == next_to {
            let d = self.to.to;
            self.draw_snake_sprites(SpritesBinary::full_tail(d));
        } else {
            self.draw_snake_sprite(0);
            self.walk();
            self.turn(next_to);
            self.step_back();
            self.draw_snake_sprites(SpritesBinary::full_tail(next_to));
        }
    }

    /// Moves the cursor onto a head drawn at a doubled cell centre.
    fn head_at(&mut self, head: &SnakeNode)
        requires
            old(self).wf(),
            head.position.x <= u16::MAX / 2 - 1,
            head.position.y <= u16::MAX / 2 - 1,
        ensures
            final(self).wf(),
    {
        let p = head.position;
        self.go_to(
            &SnakeNode {
                direction: head.direction,
                stuffed: false,
                position: FieldPoint { x: (p.x * 2) + 1, y: (p.y * 2) + 1 },
            },
        );
    }

    /// Draws one special food item's countdown panel: its sprite and the
    /// ticks it has left.
    pub fn draw_food_ticker(&mut self, food: &Food, idx: u8)
        requires
            old(self).wf(),
            idx <= 100,
        ensures
            final(self).wf(),
    {
        let sprite = SpritesBinary::special_food(food.shape);
        self.screen.panel_sprite_8x4(sprite, -(14 + 20 * (idx as i16)), 2);
        self.draw_panel_digits(food.ticks_left, 2, -(2 + (idx as i16) * 5));
    }
}

impl<S: Screen> GameRender for BinaryRender<S> {
    fn snake_full(&mut self, snake: &Snake, food_field: &FoodField) {
        if self.to.max.x == 0 || self.to.max.y == 0 {
            return ;
        }
        if snake.nodes.len() == 0 {
            return ;
        }
        let tail = snake.nodes[0];
        if !(tail.position.x <= u16::MAX / 2 - 1 && tail.position.y <= u16::MAX / 2 - 1) {
            return ;
        }
        self.update_tail(&tail, tail.direction);
        if snake.nodes.len() == 1 {
            return ;
        }
        let mut i: usize = 1;
        while i < snake.nodes.len() - 1
            invariant
                1 <= i <= snake.nodes@.len(),
                snake.nodes@.len() >= 2,
                self.wf(),
            decreases snake.nodes@.len() - i,
        {
            let node = snake.nodes[i];
            let next = snake.nodes[i + 1];
            self.walk();
            self.node(&node, &next, false);
            i = i + 1;
        }
        self.draw_head(snake, food_field);
        self.update_score(0);
    }

    fn crawl(&mut self, snake: &Snake, food_field: &FoodField) {
        if self.to.max.x == 0 || self.to.max.y == 0 {
            return ;
        }
        if snake.nodes.len() < 2 {
            return ;
        }
        let tail = snake.nodes[0];
        let next = snake.nodes[1];
        if !(tail.position.x <= u16::MAX / 2 - 1 && tail.position.y <= u16::MAX / 2 - 1) {
            return ;
        }
        self.update_tail(&tail, next.direction);
        self.replace_head(snake, food_field, false);
    }

    fn grow(&mut self, snake: &Snake, food_field: &FoodField) {
        if self.to.max.x == 0 || self.to.max.y == 0 {
            return ;
        }
        self.replace_head(snake, food_field, true);
    }

    fn added_food(&mut self, food: &Food) {
        let p = food.location;
        match food.shape {
            FoodType::Basic => self.screen.field_sprite_3x3(SpritesBinary::food(), &p),
            x => {
                let sprite = SpritesBinary::special_food(x);
                self.screen.field_sprite_8x4(sprite, &p);
                self.screen.panel_sprite_8x4(sprite, -14, 2);
            },
        }
    }

    fn removed_food(&mut self, food: &Food) {
        match food.shape {
            FoodType::Basic => self.screen.field_sprite_3x3(0, &food.location),
            _ => {
                self.screen.field_sprite_8x4(0, &food.location);
                self.screen.panel_sprite_8x4(0, -14, 2);
                self.clear_panel_digits(2, -2)
            },
        }
    }

    fn update_score(&mut self, score: u16) {
        self.draw_panel_digits(score, 4, 0);
    }
}

} // verus!
