//! Checks of the wire protocol: message classification, intent coalescing,
//! the driver step, and the snapshot codec round trip.

use snake_core::codec::{decode_game_data, decode_player_id, encode_player_id, GameData};
use snake_core::food::FoodField;
use snake_core::game::Game;
use snake_core::snake::build_snake;
use snake_core::protocol::{
    apply_intents, classify_message, driver_step, start_driver, to_command, to_direction,
    ClientCommand, DirectionCell, DIRECTION, GAME_DATA, NOTIFY, PING, PONG, QUIT,
};
use snake_core::render::to_base_10_array;
use snake_core::sprites::SpritesBinary;
use snake_core::types::{Direction, FieldPoint, Food, FoodType, GameConfig, GameState};

fn arena() -> GameConfig {
    GameConfig { size: 4, start: (1, 0), dim: (12, 9), direction: Direction::Right }
}

#[test]
fn tags_are_distinct() {
    let tags = [GAME_DATA, NOTIFY, PING, DIRECTION, PONG, QUIT];
    for i in 0..tags.len() {
        for j in 0..tags.len() {
            if i != j {
                assert_ne!(tags[i], tags[j]);
            }
        }
    }
    assert_eq!(GAME_DATA, 1);
    assert_eq!(NOTIFY, 2);
    assert_eq!(PING, 3);
    assert_eq!(DIRECTION, 4);
}

#[test]
fn direction_bytes_follow_the_wire_table() {
    assert_eq!(to_direction(0), Some(Direction::Left));
    assert_eq!(to_direction(1), Some(Direction::Up));
    assert_eq!(to_direction(2), Some(Direction::Right));
    assert_eq!(to_direction(3), Some(Direction::Down));
    assert_eq!(to_direction(4), None);
    assert_eq!(to_direction(255), None);
}

#[test]
fn framing_prepends_one_tag_byte() {
    let framed = to_command(GAME_DATA, vec![9, 8, 7]);
    assert_eq!(framed, vec![GAME_DATA, 9, 8, 7]);
    let empty = to_command(QUIT, vec![]);
    assert_eq!(empty, vec![QUIT]);
}

#[test]
fn classification_covers_every_message_kind() {
    assert_eq!(classify_message(&[]), ClientCommand::Ignore);
    assert_eq!(classify_message(&[PONG, 1, 2, 3]), ClientCommand::Pong);
    assert_eq!(classify_message(&[QUIT]), ClientCommand::Quit);
    assert_eq!(classify_message(&[DIRECTION, 1]), ClientCommand::Turn(Direction::Up));
    assert_eq!(classify_message(&[DIRECTION, 9]), ClientCommand::Ignore);
    assert_eq!(classify_message(&[DIRECTION]), ClientCommand::Ignore);
    assert_eq!(classify_message(&[200, 1]), ClientCommand::Ignore);
}

#[test]
fn five_rapid_turns_apply_only_the_last() {
    let mut game = Game::new(arena());
    let id = game.add_snake().expect("room");
    let mut cell = DirectionCell::new(id, game.config.direction);
    // Five direction messages arrive between two ticks; the cell coalesces
    // them so only the last one reaches the tick.
    for code in [3u8, 1, 3, 1, 3] {
        if let Some(d) = to_direction(code) {
            cell.write(d);
        }
    }
    assert_eq!(cell.read(), Direction::Down);
    let cells = vec![cell];
    apply_intents(&mut game, &cells);
    assert_eq!(game.snakes[0].direction.to, Direction::Down);
    let before_head = game.snakes[0].nodes[game.snakes[0].nodes.len() - 1].position;
    game.tick();
    let after_head = game.snakes[0].nodes[game.snakes[0].nodes.len() - 1].position;
    assert_eq!(after_head, FieldPoint { x: before_head.x, y: before_head.y + 1 });
}

#[test]
fn driver_step_frames_a_snapshot() {
    let mut game = Game::new(arena());
    let id = game.add_snake().expect("room");
    assert!(start_driver(&mut game));
    assert!(!start_driver(&mut game), "the driver starts once");
    let cells = vec![DirectionCell::new(id, Direction::Right)];
    let frame = driver_step(&mut game, &cells);
    assert_eq!(frame[0], GAME_DATA);
    let decoded = decode_game_data(&frame[1..]).expect("the frame body is a snapshot");
    assert_eq!(decoded.state, GameState::Playing);
    assert_eq!(decoded.snakes.len(), 1);
}

#[test]
fn snapshot_round_trip_reproduces_the_structure() {
    let mut game = Game::new(arena());
    game.add_snake().expect("room");
    game.add_snake().expect("room");
    game.food.set_food(Food::new(FoodType::Basic, FieldPoint { x: 7, y: 7 }));
    game.food.set_food(Food::new(FoodType::Turtle, FieldPoint { x: 2, y: 5 }));
    game.start();
    game.tick();
    let snapshot = GameData::from_game(&game);
    let bytes = snapshot.encode();
    let decoded = decode_game_data(&bytes).expect("an encoding decodes");

    assert_eq!(decoded.config, snapshot.config);
    assert_eq!(decoded.state, snapshot.state);
    assert_eq!(decoded.food.minimum, snapshot.food.minimum);
    assert_eq!(decoded.food.count, snapshot.food.count);
    assert_eq!(decoded.food.foods, snapshot.food.foods);
    assert_eq!(decoded.food.bag, snapshot.food.bag);
    assert_eq!(decoded.snakes.len(), snapshot.snakes.len());
    for (a, b) in decoded.snakes.iter().zip(snapshot.snakes.iter()) {
        assert_eq!(a.id, b.id);
        assert_eq!(a.score, b.score);
        assert_eq!(a.direction, b.direction);
        assert_eq!(a.nodes.len(), b.nodes.len());
        for (na, nb) in a.nodes.iter().zip(b.nodes.iter()) {
            assert_eq!(na, nb);
        }
    }
}

#[test]
fn installed_snapshot_mirrors_the_sender() {
    let mut server = Game::new(arena());
    let id = server.add_snake().expect("room");
    server.start();
    server.tick();
    server.add_missing_food();
    let bytes = server.encode_game_data();

    let mut client = Game::new(GameConfig::default());
    assert!(client.set_game_data(&bytes), "a well-formed snapshot installs");
    assert_eq!(client.config, server.config);
    assert_eq!(client.state, server.state);
    assert_eq!(client.snakes.len(), 1);
    assert_eq!(client.snakes[0].id, id);
    assert_eq!(client.food.foods, server.food.foods);
    // The rebuilt field mirrors the snake bodies.
    for node in client.snakes[0].nodes.iter() {
        assert!(client.field.filled(&node.position));
    }
}

#[test]
fn malformed_snapshots_are_rejected_not_fatal() {
    let mut client = Game::new(GameConfig::default());
    let before_state = client.state;
    assert!(!client.set_game_data(&[]));
    assert!(!client.set_game_data(&[1, 2, 3]));
    assert!(!client.set_game_data(&[255; 40]));
    assert_eq!(client.state, before_state, "a bad snapshot changes nothing");

    let mut server = Game::new(arena());
    server.add_snake().expect("room");
    let mut bytes = server.encode_game_data();
    bytes.truncate(bytes.len() - 1);
    assert!(decode_game_data(&bytes).is_none(), "a truncated snapshot is refused");
}

#[test]
fn notify_payload_round_trips() {
    let payload = encode_player_id(777);
    assert_eq!(payload.len(), 2);
    assert_eq!(decode_player_id(&payload), Some(777));
    assert_eq!(decode_player_id(&[5]), None, "one byte is not an identifier");
    let frame = to_command(NOTIFY, encode_player_id(3));
    assert_eq!(frame, vec![NOTIFY, 3, 0]);
}

#[test]
fn snapshot_with_off_grid_segment_is_refused() {
    // A structurally decodable snapshot whose one body segment lies off the
    // advertised 5x5 grid: it must be refused, not installed.
    let stray = build_snake(vec![(9, 9, Direction::Right)], &FieldPoint { x: 5, y: 5 });
    let snapshot = GameData {
        config: GameConfig { size: 1, start: (0, 0), dim: (5, 5), direction: Direction::Right },
        snakes: vec![stray],
        food: FoodField::new(),
        state: GameState::Playing,
    };
    let bytes = snapshot.encode();
    assert!(decode_game_data(&bytes).is_some(), "the bytes themselves decode");
    let mut client = Game::new(GameConfig::default());
    let before = client.config;
    assert!(!client.set_game_data(&bytes), "an off-grid segment refuses the install");
    assert_eq!(client.config, before, "and nothing changed");
}

#[test]
fn sprites_match_their_tables() {
    assert_eq!(SpritesBinary::food(), 0b010_101_01);
    assert_eq!(SpritesBinary::eyes(Direction::Right), 0b0110_1100);
    assert_eq!(SpritesBinary::eyes(Direction::Up), 0b1010_0110);
    assert_eq!(SpritesBinary::block(Direction::Left), 0b0011_1100);
    assert_eq!(SpritesBinary::tail(Direction::Down), 0b0010_0110);
    assert_eq!(SpritesBinary::dot(Direction::Up), 0b0010_0000);
    assert_eq!(SpritesBinary::digit(5), 0b111_100_111_001_111_0);
    assert_eq!(SpritesBinary::digit(12), 0);
    assert_eq!(
        SpritesBinary::mouth(Direction::Right, true),
        SpritesBinary::mouth_open(Direction::Right)
    );
    assert_eq!(
        SpritesBinary::mouth(Direction::Right, false),
        SpritesBinary::block(Direction::Right)
    );
    assert_eq!(
        SpritesBinary::full_head(Direction::Left, false),
        [SpritesBinary::eyes(Direction::Left), SpritesBinary::block(Direction::Left)]
    );
    assert_eq!(
        SpritesBinary::full_tail(Direction::Up),
        [SpritesBinary::dot(Direction::Up), SpritesBinary::tail(Direction::Up)]
    );
    // A straight pair falls back to the connector, a turn gives a dash.
    assert_eq!(
        SpritesBinary::corner(Direction::Right, Direction::Right),
        SpritesBinary::node_dash(Direction::Right)
    );
    assert_eq!(
        SpritesBinary::corner(Direction::Right, Direction::Up),
        SpritesBinary::dash(Direction::Right)
    );
    assert_eq!(
        SpritesBinary::block_with_food(Direction::Right, Direction::Up, 0),
        0b0100_0000
    );

    assert_eq!(to_base_10_array(307, 4), vec![0, 3, 0, 7]);
    assert_eq!(to_base_10_array(0, 2), vec![0, 0]);
    assert_eq!(to_base_10_array(65535, 5), vec![6, 5, 5, 3, 5]);
}
