//! End-to-end checks of the simulation core: seeding, movement, wraparound,
//! eating, spawning, and player lifecycle.

use snake_core::field::Field;
use snake_core::game::Game;
use snake_core::snake::build_snake;
use snake_core::types::{Direction, FieldPoint, Food, FoodType, GameConfig, GameState};

fn ten_by_ten() -> GameConfig {
    GameConfig { size: 4, start: (1, 0), dim: (10, 10), direction: Direction::Right }
}

/// Every occupied field cell belongs to some snake body, and every body
/// cell is occupied: no orphaned occupancy after growth and removal.
fn assert_occupancy_matches(game: &Game) {
    let (w, h) = game.config.dim;
    for x in 0..w {
        for y in 0..h {
            let p = FieldPoint { x, y };
            let mut occupied = false;
            for snake in game.snakes.iter() {
                for node in snake.nodes.iter() {
                    if node.position == p {
                        occupied = true;
                    }
                }
            }
            assert_eq!(game.field.filled(&p), occupied, "cell ({x},{y})");
        }
    }
}

#[test]
fn field_set_and_filled() {
    let mut field = Field::new(10, 10);
    let p = FieldPoint { x: 3, y: 7 };
    assert!(!field.filled(&p));
    field.set(&p, true);
    assert!(field.filled(&p));
    assert!(!field.filled(&FieldPoint { x: 7, y: 3 }));
    assert_eq!(field.to_idx(&p), 73);
    let q = field.from_idx(73);
    assert_eq!(q, p);
    field.set(&p, false);
    assert!(!field.filled(&p));
}

#[test]
fn wrapping_covers_all_corners() {
    let max = FieldPoint { x: 10, y: 8 };
    let corners = [
        FieldPoint { x: 0, y: 0 },
        FieldPoint { x: 9, y: 0 },
        FieldPoint { x: 0, y: 7 },
        FieldPoint { x: 9, y: 7 },
    ];
    for corner in corners {
        for to in [Direction::Up, Direction::Right, Direction::Down, Direction::Left] {
            let d = snake_core::types::WrappableDirection { to, max };
            let stepped = corner.add_wrapping(d);
            let expected_x = match to {
                Direction::Right => (corner.x + 1) % max.x,
                Direction::Left => (corner.x + max.x - 1) % max.x,
                _ => corner.x,
            };
            let expected_y = match to {
                Direction::Down => (corner.y + 1) % max.y,
                Direction::Up => (corner.y + max.y - 1) % max.y,
                _ => corner.y,
            };
            assert_eq!(stepped, FieldPoint { x: expected_x, y: expected_y });
        }
    }
    // Stepping off an edge wraps to 0 (or max - 1) on that axis.
    let left_edge = FieldPoint { x: 0, y: 3 };
    let d = snake_core::types::WrappableDirection { to: Direction::Left, max };
    assert_eq!(left_edge.add_wrapping(d).x, 9);
    let right_edge = FieldPoint { x: 9, y: 3 };
    let d = snake_core::types::WrappableDirection { to: Direction::Right, max };
    assert_eq!(right_edge.add_wrapping(d).x, 0);
}

#[test]
fn crawl_keeps_length_and_vacates_tail_in_order() {
    let mut game = Game::new(ten_by_ten());
    // Seeding walks forward from (1,0): body (1,0)..(4,0), head at (4,0).
    let mut snake = snake_core::snake::Snake::new(&mut game.field, &game.config, 1);
    assert_eq!(snake.nodes.len(), 4);
    assert_eq!(snake.nodes[3].position, FieldPoint { x: 4, y: 0 });
    game.snakes.push(snake);
    game.food.minimum += 1;
    let vacated = [
        FieldPoint { x: 1, y: 0 },
        FieldPoint { x: 2, y: 0 },
        FieldPoint { x: 3, y: 0 },
    ];
    for expect in vacated {
        assert!(game.field.filled(&expect));
        game.tick();
        assert!(!game.field.filled(&expect), "tail cell should be vacated");
        assert_eq!(game.snakes[0].nodes.len(), 4, "length stays 4");
        assert_occupancy_matches(&game);
    }
    let head = game.snakes[0].nodes[3].position;
    assert_eq!(head, FieldPoint { x: 7, y: 0 });
}

#[test]
fn eating_basic_food_grows_and_scores() {
    let mut game = Game::new(GameConfig {
        size: 4,
        start: (0, 0),
        dim: (10, 10),
        direction: Direction::Right,
    });
    let id = game.add_snake().expect("room for one snake");
    // Body (0,0)..(3,0), head at (3,0): food directly ahead at (4,0).
    game.food.set_food(Food::new(FoodType::Basic, FieldPoint { x: 4, y: 0 }));
    assert_eq!(game.food.foods.len(), 1);
    game.tick();
    let snake = &game.snakes[0];
    assert_eq!(snake.id, id);
    assert_eq!(snake.nodes.len(), 5, "snake grew by one");
    assert_eq!(snake.score, 8, "basic food is worth 8");
    assert!(snake.nodes[4].stuffed, "the new head is a stuffed segment");
    assert_eq!(game.food.foods.len(), 0, "the item was consumed");
    assert_occupancy_matches(&game);
}

#[test]
fn special_food_is_worth_45_and_expires() {
    let food = Food::new(FoodType::Whale, FieldPoint { x: 2, y: 2 });
    assert_eq!(food.weight, 45);
    assert_eq!(food.size, 2);
    assert!(food.ticks_left > 0);
    assert!(food.is_at(&FieldPoint { x: 2, y: 2 }));
    assert!(food.is_at(&FieldPoint { x: 3, y: 2 }), "a special covers two cells");
    assert!(!food.is_at(&FieldPoint { x: 4, y: 2 }));

    let basic = Food::new(FoodType::Basic, FieldPoint { x: 5, y: 5 });
    assert_eq!(basic.weight, 8);
    assert_eq!(basic.size, 1);
    assert_eq!(basic.ticks_left, 0, "basics never expire");

    let mut inventory = snake_core::food::FoodField::new();
    inventory.set_food(Food { ticks_left: 2, ..food });
    inventory.set_food(basic);
    inventory.tick();
    assert_eq!(inventory.foods.len(), 2);
    assert_eq!(inventory.foods[0].ticks_left, 1, "specials count down");
    inventory.tick();
    assert_eq!(inventory.foods.len(), 1, "an expired special disappears");
    assert_eq!(inventory.foods[0].shape, FoodType::Basic);
    inventory.tick();
    assert_eq!(inventory.foods.len(), 1, "basic food is unaffected");
}

#[test]
fn add_food_on_saturated_field_does_nothing() {
    // A 1x1 grid: the single snake covers the whole field.
    let mut game = Game::new(GameConfig {
        size: 1,
        start: (0, 0),
        dim: (1, 1),
        direction: Direction::Right,
    });
    game.add_snake().expect("the single cell is free");
    assert_eq!(game.food.minimum, 1);
    game.add_missing_food();
    assert_eq!(game.food.foods.len(), 0, "no free cell, no food, no failure");
}

#[test]
fn add_food_places_one_basic_item_on_a_free_cell() {
    let mut game = Game::new(ten_by_ten());
    game.add_snake().expect("room");
    assert_eq!(game.food.foods.len(), 0);
    game.add_missing_food();
    assert_eq!(game.food.foods.len(), 1, "exactly one basic item restores the minimum");
    assert_eq!(game.food.count, 1, "the spawn counter advanced once");
    let item = game.food.foods[0];
    assert_eq!(item.shape, FoodType::Basic);
    assert!(!game.field.filled(&item.location), "food sits on a free cell");
    game.add_missing_food();
    assert_eq!(game.food.foods.len(), 1, "the minimum is already met");
    assert_eq!(game.food.count, 1, "and the counter did not move");
}

#[test]
fn special_spawn_guards_skip_without_room() {
    let field = Field::new(4, 4);
    let mut inventory = snake_core::food::FoodField::new();
    assert!(inventory.random_special(0, &field).is_none(), "no budget, no special");
    assert!(inventory.random_special(3, &field).is_none(), "a two-cell budget is too tight");
    assert_eq!(inventory.foods.len(), 0);
}

#[test]
fn minimum_tracks_players_and_never_over_spawns() {
    let mut game = Game::new(ten_by_ten());
    let first = game.add_snake().expect("room for the first player");
    let second = game.add_snake().expect("room for the second player");
    assert_ne!(first, second);
    assert_eq!(game.food.minimum, 2);
    game.remove_snake(second);
    assert_eq!(game.food.minimum, 1);
    assert_eq!(game.snakes.len(), 1);
    game.tick();
    game.add_missing_food();
    assert_eq!(game.food.foods.len(), 1, "one player, one guaranteed basic item");
    game.tick();
    game.add_missing_food();
    assert!(game.food.foods.len() <= 1, "a later tick does not over-spawn");
    assert_occupancy_matches(&game);
}

#[test]
fn remove_snake_twice_is_harmless() {
    let mut game = Game::new(ten_by_ten());
    let id = game.add_snake().expect("room");
    assert_eq!(game.snakes.len(), 1);
    game.remove_snake(id);
    assert_eq!(game.snakes.len(), 0);
    assert_eq!(game.food.minimum, 0);
    assert_occupancy_matches(&game);
    game.remove_snake(id);
    assert_eq!(game.snakes.len(), 0, "the second removal finds nothing");
    assert_eq!(game.food.minimum, 0, "and changes nothing");
}

#[test]
fn head_to_rejects_reversal_and_repetition() {
    let max = FieldPoint { x: 10, y: 10 };
    let mut snake = build_snake(
        vec![(1, 1, Direction::Right), (2, 1, Direction::Right), (3, 1, Direction::Right)],
        &max,
    );
    assert!(snake.should_ignore_turn(Direction::Left));
    assert!(snake.should_ignore_turn(Direction::Right));
    assert!(!snake.should_ignore_turn(Direction::Up));
    assert!(!snake.head_to(Direction::Left), "reversal is rejected");
    assert_eq!(snake.direction.to, Direction::Right);
    assert!(!snake.head_to(Direction::Right), "repeating the heading is a no-op");
    assert_eq!(snake.direction.to, Direction::Right);
    assert!(snake.head_to(Direction::Up), "a turn is accepted");
    assert_eq!(snake.direction.to, Direction::Up);
}

#[test]
fn alternating_reversals_leave_heading_unchanged() {
    let max = FieldPoint { x: 10, y: 10 };
    let mut snake = build_snake(
        vec![(1, 1, Direction::Right), (2, 1, Direction::Right), (3, 1, Direction::Right)],
        &max,
    );
    for _ in 0..4 {
        snake.head_to(Direction::Left);
        snake.head_to(Direction::Right);
    }
    assert_eq!(snake.direction.to, Direction::Right);
}

#[test]
fn blocked_move_stalls_the_snake() {
    // The head's candidate cell is occupied by another body: the move is
    // rejected for the tick (the documented collision policy).
    let mut game = Game::new(GameConfig {
        size: 3,
        start: (0, 0),
        dim: (10, 10),
        direction: Direction::Right,
    });
    game.add_snake().expect("room");
    let head = game.snakes[0].nodes[2].position;
    let blocker = FieldPoint { x: head.x + 1, y: head.y };
    let wall = snake_core::snake::Snake::new(
        &mut game.field,
        &GameConfig { size: 1, start: (3, 0), dim: (10, 10), direction: Direction::Down },
        99,
    );
    assert_eq!(wall.nodes[0].position, blocker);
    game.snakes.push(wall);
    game.food.minimum += 1;
    let before: Vec<FieldPoint> = game.snakes[0].nodes.iter().map(|n| n.position).collect();
    game.tick();
    let after: Vec<FieldPoint> = game.snakes[0].nodes.iter().map(|n| n.position).collect();
    assert_eq!(before, after, "the blocked snake did not move");
    assert_occupancy_matches(&game);
}

#[test]
fn game_starts_once() {
    let mut game = Game::new(ten_by_ten());
    assert_eq!(game.state, GameState::Idle);
    assert!(game.start());
    assert_eq!(game.state, GameState::Playing);
    assert!(!game.start(), "a second start is a no-op");
    assert_eq!(game.state, GameState::Playing);
}

#[test]
fn quit_game_no_longer_ticks() {
    let mut game = Game::new(ten_by_ten());
    game.add_snake().expect("room");
    game.state = GameState::Quit;
    let before: Vec<FieldPoint> = game.snakes[0].nodes.iter().map(|n| n.position).collect();
    game.tick();
    let after: Vec<FieldPoint> = game.snakes[0].nodes.iter().map(|n| n.position).collect();
    assert_eq!(before, after);
}

#[test]
fn add_snake_refuses_a_blocked_spawn_row() {
    let mut game = Game::new(GameConfig {
        size: 2,
        start: (0, 0),
        dim: (4, 2),
        direction: Direction::Right,
    });
    assert!(game.add_snake().is_some());
    assert!(game.add_snake().is_some());
    // Both rows are taken now: the third spawn has no row left.
    assert!(game.add_snake().is_none());
    assert_eq!(game.food.minimum, 2);
}
