//! Bit-packed sprites for the binary renderers: snake segments are drawn as
//! 2x4 / 4x2 pixel blocks, special food as 8x4 blocks, and panel digits as
//! 3x5 blocks, all encoded as the bits of an integer.

use vstd::prelude::*;

use crate::types::{Direction, FoodType};

verus! {

/// The basic-food sprite on its 3x3 cell.
pub open spec fn spec_food_sprite() -> u8 {
    0b010_101_01u8
}

/// The 8x4 sprite of each special shape.
pub open spec fn spec_special_food_sprite(element: FoodType) -> u32 {
    match element {
        FoodType::Whale => 0b00001100_10011010_10111110_01111111u32,
        FoodType::Turtle => 0b11000100_11001110_00111111_00001010u32,
        FoodType::Alien => 0b01010100_11111111_10111101_10100101u32,
        FoodType::Chameleon => 0b01010100_10111110_11111111_00100100u32,
        FoodType::Elephant => 0b00011000_00101101_01111111_00011110u32,
        FoodType::Caterpillar => 0b00000000_10000000_11111111_01010101u32,
        _ => 0b11111111_11111111_11111111_11111111u32,
    }
}

/// The 3x5 sprite of a decimal digit (anything above 9 is blank).
pub open spec fn spec_digit_sprite(digit: u8) -> u16 {
    if digit == 0 {
        0b111_101_101_101_111_0u16
    } else if digit == 1 {
        0b010_110_010_010_010_0u16
    } else if digit == 2 {
        0b111_001_111_100_111_0u16
    } else if digit == 3 {
        0b111_001_111_001_111_0u16
    } else if digit == 4 {
        0b101_101_111_001_001_0u16
    } else if digit == 5 {
        0b111_100_111_001_111_0u16
    } else if digit == 6 {
        0b111_100_111_101_111_0u16
    } else if digit == 7 {
        0b111_001_010_010_010_0u16
    } else if digit == 8 {
        0b111_101_111_101_111_0u16
    } else if digit == 9 {
        0b111_101_111_001_111_0u16
    } else {
        0u16
    }
}

/// The eye pixels of a head looking towards `direction`.
pub open spec fn spec_eyes_sprite(direction: Direction) -> u8 {
    match direction {
        Direction::Right => 0b0110_1100u8,
        Direction::Left => 0b1001_1100u8,
        Direction::Up => 0b1010_0110u8,
        Direction::Down => 0b0110_1010u8,
    }
}

/// The straight body block along `direction`.
pub open spec fn spec_block_sprite(direction: Direction) -> u8 {
    match direction {
        Direction::Up | Direction::Down => 0b0110_0110u8,
        Direction::Left | Direction::Right => 0b0011_1100u8,
    }
}

/// A forward dash along `direction`.
pub open spec fn spec_dash_sprite(direction: Direction) -> u8 {
    match direction {
        Direction::Right | Direction::Left => 0b0001_1000u8,
        Direction::Up | Direction::Down => 0b0010_0100u8,
    }
}

/// A backward dash along `direction`.
pub open spec fn spec_back_dash_sprite(direction: Direction) -> u8 {
    match direction {
        Direction::Up | Direction::Down => 0b0100_0010u8,
        Direction::Left | Direction::Right => 0b0010_0100u8,
    }
}

/// The open mouth of a head about to eat.
pub open spec fn spec_mouth_open_sprite(direction: Direction) -> u8 {
    match direction {
        Direction::Left | Direction::Up => 0b1001_0110u8,
        Direction::Right | Direction::Down => 0b0110_1001u8,
    }
}

/// The tapering tail tip.
pub open spec fn spec_tail_sprite(direction: Direction) -> u8 {
    match direction {
        Direction::Left => 0b0010_1100u8,
        Direction::Right => 0b0001_1100u8,
        Direction::Up => 0b0110_0010u8,
        Direction::Down => 0b0010_0110u8,
    }
}

/// The single trailing dot behind the tail.
pub open spec fn spec_dot_sprite(direction: Direction) -> u8 {
    match direction {
        Direction::Left => 0b0000_1000u8,
        Direction::Right => 0b0000_0100u8,
        Direction::Up => 0b0010_0000u8,
        Direction::Down => 0b0000_0010u8,
    }
}

/// The connector drawn between a block and a corner.
pub open spec fn spec_node_dash_sprite(direction: Direction) -> u8 {
    match direction {
        Direction::Down | Direction::Right => spec_back_dash_sprite(direction),
        Direction::Up | Direction::Left => spec_dash_sprite(direction),
    }
}

/// The corner piece for a segment entering along `from` and leaving along
/// `to`; a straight pair falls back to the connector.
pub open spec fn spec_corner_sprite(from: Direction, to: Direction) -> u8 {
    match (from, to) {
        (Direction::Right, Direction::Up) => spec_dash_sprite(from),
        (Direction::Left, Direction::Down) => spec_dash_sprite(from),
        (Direction::Down, Direction::Left) => spec_dash_sprite(from),
        (Direction::Up, Direction::Right) => spec_dash_sprite(from),
        (Direction::Right, Direction::Down) => spec_back_dash_sprite(from),
        (Direction::Left, Direction::Up) => spec_back_dash_sprite(from),
        (Direction::Down, Direction::Right) => spec_back_dash_sprite(from),
        (Direction::Up, Direction::Left) => spec_back_dash_sprite(from),
        (direction, _) => spec_node_dash_sprite(direction),
    }
}

/// The extra pixels marking a swallowed food item inside a corner block.
pub open spec fn spec_block_food_mask(from: Direction, to: Direction) -> u8 {
    match (from, to) {
        (Direction::Right, Direction::Up) => 0b0100_0000u8,
        (Direction::Left, Direction::Down) => 0b1000_0000u8,
        (Direction::Down, Direction::Left) => 0b0000_1000u8,
        (Direction::Up, Direction::Right) => 0b0001_0000u8,
        (Direction::Right, Direction::Down) => 0b0000_0001u8,
        (Direction::Left, Direction::Up) => 0b1000_0000u8,
        (Direction::Down, Direction::Right) => 0b0000_0001u8,
        (Direction::Up, Direction::Left) => 0b1000_0000u8,
        (_, _) => 0u8,
    }
}

/// The pure sprite tables shared by every binary renderer.
pub struct SpritesBinary {}

impl SpritesBinary {
    /// The basic-food sprite.
    pub fn food() -> (r: u8)
        ensures
            r == spec_food_sprite(),
    {
        0b010_101_01
    }

    /// The 8x4 sprite of a special shape.
    pub fn special_food(element: FoodType) -> (r: u32)
        ensures
            r == spec_special_food_sprite(element),
    {
        match element {
            FoodType::Whale => 0b00001100_10011010_10111110_01111111,
            FoodType::Turtle => 0b11000100_11001110_00111111_00001010,
            FoodType::Alien => 0b01010100_11111111_10111101_10100101,
            FoodType::Chameleon => 0b01010100_10111110_11111111_00100100,
            FoodType::Elephant => 0b00011000_00101101_01111111_00011110,
            FoodType::Caterpillar => 0b00000000_10000000_11111111_01010101,
            _ => 0b11111111_11111111_11111111_11111111,
        }
    }

    /// The 3x5 sprite of a decimal digit.
    pub fn digit(digit: u8) -> (r: u16)
        ensures
            r == spec_digit_sprite(digit),
    {
        match digit {
            0 => 0b111_101_101_101_111_0,
            1 => 0b010_110_010_010_010_0,
            2 => 0b111_001_111_100_111_0,
            3 => 0b111_001_111_001_111_0,
            4 => 0b101_101_111_001_001_0,
            5 => 0b111_100_111_001_111_0,
            6 => 0b111_100_111_101_111_0,
            7 => 0b111_001_010_010_010_0,
            8 => 0b111_101_111_101_111_0,
            9 => 0b111_101_111_001_111_0,
            _ => 0,
        }
    }

    /// The eye pixels of a head.
    pub fn eyes(direction: Direction) -> (r: u8)
        ensures
            r == spec_eyes_sprite(direction),
    {
        match direction {
            Direction::Right => 0b0110_1100,
            Direction::Left => 0b1001_1100,
            Direction::Up => 0b1010_0110,
            Direction::Down => 0b0110_1010,
        }
    }

    /// The full two-block head: eyes, then the mouth (open when food lies
    /// ahead).
    pub fn full_head(from: Direction, open: bool) -> (r: [u8; 2])
        ensures
            r@ == seq![spec_eyes_sprite(from), Self::spec_mouth(from, open)],
    {
        let r = [SpritesBinary::eyes(from), SpritesBinary::mouth(from, open)];
        proof {
            assert(r@ =~= seq![spec_eyes_sprite(from), Self::spec_mouth(from, open)]);
        }
        r
    }

    /// A dash with the food pixels of a straight stuffed segment.
    pub fn dash_with_food(sprite: u8, direction: Direction) -> (r: u8)
        ensures
            r == match direction {
                Direction::Down | Direction::Up => sprite | 0b1001_1001u8,
                Direction::Left | Direction::Right => sprite | 0b1100_0011u8,
            },
    {
        match direction {
            Direction::Down | Direction::Up => sprite | 0b1001_1001,
            Direction::Left | Direction::Right => sprite | 0b1100_0011,
        }
    }

    /// The two blocks of an interior segment entering along `from` and
    /// leaving along `to`, with the food bulge when the segment is stuffed.
    pub fn full_node(from: Direction, to: Direction, has_food: bool) -> (r: [u8; 2])
        ensures
            !has_food ==> r@ == seq![
                spec_block_sprite(from),
                spec_corner_sprite(from, to),
            ],
            has_food && from == to ==> r@ == seq![
                spec_block_sprite(from),
                spec_corner_sprite(from, to) | (match from {
                    Direction::Down | Direction::Up => 0b1001_1001u8,
                    Direction::Left | Direction::Right => 0b1100_0011u8,
                }),
            ],
            has_food && from != to ==> r@ == seq![
                spec_block_sprite(from) | spec_block_food_mask(from, to),
                spec_corner_sprite(from, to),
            ],
    {
        let sprites = [SpritesBinary::block(from), SpritesBinary::corner(from, to)];
        if has_food == false {
            proof {
                assert(sprites@ =~= seq![spec_block_sprite(from), spec_corner_sprite(from, to)]);
            }
            return sprites;
        }
        if from == to {
            let r = [sprites[0], SpritesBinary::dash_with_food(sprites[1], from)];
            proof {
                assert(r@ =~= seq![
                    spec_block_sprite(from),
                    spec_corner_sprite(from, to) | (match from {
                        Direction::Down | Direction::Up => 0b1001_1001u8,
                        Direction::Left | Direction::Right => 0b1100_0011u8,
                    }),
                ]);
            }
            return r;
        }
        let r = [SpritesBinary::block_with_food(from, to, sprites[0]), sprites[1]];
        proof {
            assert(r@ =~= seq![
                spec_block_sprite(from) | spec_block_food_mask(from, to),
                spec_corner_sprite(from, to),
            ]);
        }
        r
    }

    /// The two blocks of the tail: the trailing dot, then the tapering tip.
    pub fn full_tail(direction: Direction) -> (r: [u8; 2])
        ensures
            r@ == seq![spec_dot_sprite(direction), spec_tail_sprite(direction)],
    {
        let r = [SpritesBinary::dot(direction), SpritesBinary::tail(direction)];
        proof {
            assert(r@ =~= seq![spec_dot_sprite(direction), spec_tail_sprite(direction)]);
        }
        r
    }

    /// The tapering tail tip.
    pub fn tail(direction: Direction) -> (r: u8)
        ensures
            r == spec_tail_sprite(direction),
    {
        match direction {
            Direction::Left => 0b0010_1100,
            Direction::Right => 0b0001_1100,
            Direction::Up => 0b0110_0010,
            Direction::Down => 0b0010_0110,
        }
    }

    /// The straight body block.
    pub fn block(direction: Direction) -> (r: u8)
        ensures
            r == spec_block_sprite(direction),
    {
        match direction {
            Direction::Up | Direction::Down => 0b0110_0110,
            Direction::Left | Direction::Right => 0b0011_1100,
        }
    }

    /// The backward dash.
    pub fn back_dash(direction: Direction) -> (r: u8)
        ensures
            r == spec_back_dash_sprite(direction),
    {
        match direction {
            Direction::Up | Direction::Down => 0b0100_0010,
            Direction::Left | Direction::Right => 0b0010_0100,
        }
    }

    /// The forward dash.
    pub fn dash(direction: Direction) -> (r: u8)
        ensures
            r == spec_dash_sprite(direction),
    {
        match direction {
            Direction::Right | Direction::Left => 0b0001_1000,
            Direction::Up | Direction::Down => 0b0010_0100,
        }
    }

    /// The open mouth.
    pub fn mouth_open(direction: Direction) -> (r: u8)
        ensures
            r == spec_mouth_open_sprite(direction),
    {
        match direction {
            Direction::Left | Direction::Up => 0b1001_0110,
            Direction::Right | Direction::Down => 0b0110_1001,
        }
    }

    /// The mouth: open when food lies directly ahead, a plain block
    /// otherwise.
    pub open spec fn spec_mouth(direction: Direction, mouth_open: bool) -> u8 {
        if mouth_open {
            spec_mouth_open_sprite(direction)
        } else {
            spec_block_sprite(direction)
        }
    }

    /// The mouth block of the head.
    pub fn mouth(direction: Direction, mouth_open: bool) -> (r: u8)
        ensures
            r == Self::spec_mouth(direction, mouth_open),
    {
        match mouth_open {
            true => SpritesBinary::mouth_open(direction),
            false => SpritesBinary::block(direction),
        }
    }

    /// The trailing dot.
    pub fn dot(direction: Direction) -> (r: u8)
        ensures
            r == spec_dot_sprite(direction),
    {
        match direction {
            Direction::Left => 0b0000_1000,
            Direction::Right => 0b0000_0100,
            Direction::Up => 0b0010_0000,
            Direction::Down => 0b0000_0010,
        }
    }

    /// The corner piece between two headings.
    pub fn corner(from: Direction, to: Direction) -> (r: u8)
        ensures
            r == spec_corner_sprite(from, to),
    {
        let dash = SpritesBinary::dash(from);
        let back_dash = SpritesBinary::back_dash(from);
        match (from, to) {
            (Direction::Right, Direction::Up) => dash,
            (Direction::Left, Direction::Down) => dash,
            (Direction::Down, Direction::Left) => dash,
            (Direction::Up, Direction::Right) => dash,
            (Direction::Right, Direction::Down) => back_dash,
            (Direction::Left, Direction::Up) => back_dash,
            (Direction::Down, Direction::Right) => back_dash,
            (Direction::Up, Direction::Left) => back_dash,
            (direction, _) => SpritesBinary::node_dash(direction),
        }
    }

    /// A block with the food bulge for a stuffed corner segment.
    pub fn block_with_food(from: Direction, to: Direction, sprite: u8) -> (r: u8)
        ensures
            r == (sprite | spec_block_food_mask(from, to)),
    {
        let mask: u8 = match (from, to) {
            (Direction::Right, Direction::Up) => 0b0100_0000,
            (Direction::Left, Direction::Down) => 0b1000_0000,
            (Direction::Down, Direction::Left) => 0b0000_1000,
            (Direction::Up, Direction::Right) => 0b0001_0000,
            (Direction::Right, Direction::Down) => 0b0000_0001,
            (Direction::Left, Direction::Up) => 0b1000_0000,
            (Direction::Down, Direction::Right) => 0b0000_0001,
            (Direction::Up, Direction::Left) => 0b1000_0000,
            (_, _) => 0,
        };
        sprite | mask
    }

    /// The connector between block and corner.
    pub fn node_dash(direction: Direction) -> (r: u8)
        ensures
            r == spec_node_dash_sprite(direction),
    {
        match direction {
            Direction::Down | Direction::Right => SpritesBinary::back_dash(direction),
            Direction::Up | Direction::Left => SpritesBinary::dash(direction),
        }
    }
}

} // verus!
