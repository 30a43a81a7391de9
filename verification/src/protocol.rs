//! The synchronization protocol around the simulation: message tags and
//! framing, classification of client messages, last-write-wins coalescing of
//! per-player direction intents, and the per-tick driver step that applies
//! intents, advances the game, and produces the broadcast frame.

use vstd::prelude::*;

use crate::game::{find_snake, spec_tick, Game, GameView};
use crate::types::{Direction, GameState};

verus! {

/// Server-to-client: a full serialized game snapshot.
pub const GAME_DATA: u8 = 1;

/// Server-to-client: the newly assigned player identifier.
pub const NOTIFY: u8 = 2;

/// Server-to-client: a timestamp to be echoed back for latency measurement.
pub const PING: u8 = 3;

/// Client-to-server: one byte selecting the desired heading.
pub const DIRECTION: u8 = 4;

/// Client-to-server: the echoed ping timestamp.
pub const PONG: u8 = 5;

/// Client-to-server: an explicit disconnect request.
pub const QUIT: u8 = 6;

/// The direction a command byte selects, if any.
pub open spec fn spec_to_direction(code: u8) -> Option<Direction> {
    if code == 0 {
        Some(Direction::Left)
    } else if code == 1 {
        Some(Direction::Up)
    } else if code == 2 {
        Some(Direction::Right)
    } else if code == 3 {
        Some(Direction::Down)
    } else {
        None
    }
}

/// Maps a direction command byte to a heading; anything above 3 is not a
/// direction.
pub fn to_direction(msg: u8) -> (r: Option<Direction>)
    ensures
        r == spec_to_direction(msg),
{
    match msg {
        0 => Some(Direction::Left),
        1 => Some(Direction::Up),
        2 => Some(Direction::Right),
        3 => Some(Direction::Down),
        _ => None,
    }
}

/// Frames a payload for the wire: one leading tag byte, then the payload
/// verbatim.
pub fn to_command(id: u8, bytes: Vec<u8>) -> (r: Vec<u8>)
    ensures
        r@ == seq![id] + bytes@,
{
    let mut data: Vec<u8> = Vec::new();
    data.push(id);
    let mut i: usize = 0;
    while i < bytes.len()
        invariant
            0 <= i <= bytes@.len(),
            data@ == seq![id] + bytes@.take(i as int),
        decreases bytes@.len() - i,
    {
        data.push(bytes[i]);
        proof {
            assert(data@ =~= seq![id] + bytes@.take(i as int + 1));
        }
        i = i + 1;
    }
    proof {
        assert(bytes@.take(bytes@.len() as int) =~= bytes@);
    }
    data
}

/// What a client message means to the server.
#[derive(Clone, Copy, Debug, PartialEq, Eq, Structural)]
pub enum ClientCommand {
    /// An echoed ping timestamp: observed for diagnostics, no game effect.
    Pong,
    /// An explicit disconnect request.
    Quit,
    /// A heading change request.
    Turn(Direction),
    /// Anything empty or malformed: dropped without effect.
    Ignore,
}

/// The meaning of a raw client message.
pub open spec fn spec_classify(msg: Seq<u8>) -> ClientCommand {
    if msg.len() == 0 {
        ClientCommand::Ignore
    } else if msg[0] == PONG {
        ClientCommand::Pong
    } else if msg[0] == QUIT {
        ClientCommand::Quit
    } else if msg[0] == DIRECTION && msg.len() >= 2 && spec_to_direction(msg[1]) is Some {
        ClientCommand::Turn(spec_to_direction(msg[1])->Some_0)
    } else {
        ClientCommand::Ignore
    }
}

/// Classifies one raw client message. Malformed input never fails: it is
/// ignored locally, isolating one player's garbage from everyone else.
pub fn classify_message(msg: &[u8]) -> (r: ClientCommand)
    ensures
        r == spec_classify(msg@),
{
    if msg.len() == 0 {
        return ClientCommand::Ignore;
    }
    let tag = msg[0];
    if tag == PONG {
        ClientCommand::Pong
    } else if tag == QUIT {
        ClientCommand::Quit
    } else if tag == DIRECTION && msg.len() >= 2 {
        match to_direction(msg[1]) {
            Some(d) => ClientCommand::Turn(d),
            Option::None => ClientCommand::Ignore,
        }
    } else {
        ClientCommand::Ignore
    }
}

/// One player's pending-heading cell: written by that player's connection
/// whenever a direction command arrives, read once per tick by the driver.
/// Writes coalesce: however many commands arrive between two ticks, only the
/// latest survives to the tick boundary.
#[derive(Clone, Copy, Debug, PartialEq, Eq, Structural)]
pub struct DirectionCell {
    pub snake_id: u16,
    pub pending: Direction,
}

impl DirectionCell {
    /// A fresh cell holding the heading the snake was spawned with.
    pub fn new(snake_id: u16, initial: Direction) -> (r: DirectionCell)
        ensures
            r.snake_id == snake_id,
            r.pending == initial,
    {
        DirectionCell { snake_id, pending: initial }
    }

    /// Records a newly received heading: last write wins, whatever was
    /// pending before is discarded.
    pub fn write(&mut self, to: Direction)
        ensures
            final(self).pending == to,
            final(self).snake_id == old(self).snake_id,
    {
        self.pending = to;
    }

    /// Reads the intent the tick will apply.
    pub fn read(&self) -> (r: Direction)
        ensures
            r == self.pending,
    {
        self.pending
    }
}

/// However many direction commands arrive between two ticks, the cell hands
/// the tick exactly the last one written.
pub proof fn lemma_last_write_wins(cell: DirectionCell, writes: Seq<Direction>)
    requires
        writes.len() >= 1,
    ensures
        spec_apply_writes(cell, writes).pending == writes.last(),
    decreases writes.len(),
{
    if writes.len() > 1 {
        lemma_last_write_wins(spec_apply_write(cell, writes[0]), writes.drop_first());
        assert(writes.drop_first().last() == writes.last());
    } else {
        assert(writes.drop_first().len() == 0);
        assert(spec_apply_writes(spec_apply_write(cell, writes[0]), writes.drop_first())
            == spec_apply_write(cell, writes[0]));
    }
}

/// A cell after one recorded write.
pub open spec fn spec_apply_write(cell: DirectionCell, to: Direction) -> DirectionCell {
    DirectionCell { pending: to, ..cell }
}

/// A cell after a burst of recorded writes, oldest first.
pub open spec fn spec_apply_writes(cell: DirectionCell, writes: Seq<Direction>) -> DirectionCell
    decreases writes.len(),
{
    if writes.len() == 0 {
        cell
    } else {
        spec_apply_writes(spec_apply_write(cell, writes[0]), writes.drop_first())
    }
}

/// The game after every pending intent has been routed to its snake, in
/// cell order.
pub open spec fn spec_apply_intents(g: GameView, cells: Seq<DirectionCell>, n: int) -> GameView
    decreases n,
{
    if n <= 0 {
        g
    } else {
        let prev = spec_apply_intents(g, cells, n - 1);
        let cell = cells[n - 1];
        let f = find_snake(prev.snakes, cell.snake_id);
        if f < prev.snakes.len() {
            GameView {
                snakes: prev.snakes.update(f, prev.snakes[f].head_to(cell.pending)),
                ..prev
            }
        } else {
            prev
        }
    }
}

/// Copies every player's pending intent into the game: each snake is told
/// its latest requested heading; requests that would reverse are rejected
/// inside the simulation, keeping the authority single-sourced.
#[verifier::loop_isolation(false)]
pub fn apply_intents(game: &mut Game, cells: &Vec<DirectionCell>)
    requires
        old(game).wf(),
    ensures
        final(game).wf(),
        final(game)@ == spec_apply_intents(old(game)@, cells@, cells@.len() as int),
{
    let ghost gold = game@;
    let mut i: usize = 0;
    while i < cells.len()
        invariant
            0 <= i <= cells@.len(),
            game.wf(),
            game@ == spec_apply_intents(gold, cells@, i as int),
        decreases cells@.len() - i,
    {
        let cell = cells[i];
        game.head_to(cell.snake_id, cell.pending);
        i = i + 1;
    }
}

/// One iteration of the driver loop, as a decision function: apply all
/// pending intents, advance the simulation one tick, restore the food
/// minimum, and serialize the snapshot into a framed broadcast message.
/// The surrounding loop only performs I/O: it hands the frame to every
/// session and sleeps off the rest of the tick period.
pub fn driver_step(game: &mut Game, cells: &Vec<DirectionCell>) -> (frame: Vec<u8>)
    requires
        old(game).wf(),
    ensures
        final(game).wf(),
        ({
            let applied = spec_apply_intents(old(game)@, cells@, cells@.len() as int);
            let ticked = spec_tick(applied);
            &&& final(game)@.config == ticked.config
            &&& final(game)@.snakes == ticked.snakes
            &&& final(game)@.state == ticked.state
            &&& final(game)@.cells == ticked.cells
            &&& crate::food::spec_topped_up(final(game).field, ticked.food, final(game)@.food)
        }),
        frame@.len() >= 1 && frame@[0] == GAME_DATA,
        frame@.drop_first() == crate::codec::spec_enc_game_data(
            crate::codec::spec_game_to_data(final(game)@),
        ),
{
    apply_intents(game, cells);
    game.tick();
    game.add_missing_food();
    let payload = game.encode_game_data();
    let frame = to_command(GAME_DATA, payload);
    proof {
        assert(frame@.drop_first() =~= crate::codec::spec_enc_game_data(
            crate::codec::spec_game_to_data(game@),
        ));
    }
    frame
}

/// Starting the driver is a one-shot transition; a second start is refused
/// as a no-op rather than an error.
pub fn start_driver(game: &mut Game) -> (r: bool)
    requires
        old(game).wf(),
    ensures
        final(game).wf(),
        r == (old(game)@.state == GameState::Idle),
        r ==> final(game)@ == (GameView { state: GameState::Playing, ..old(game)@ }),
        !r ==> *final(game) == *old(game),
{
    game.start()
}

} // verus!
