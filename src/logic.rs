//! The world: tiles, entities, levels and the rules that change them.
use vstd::prelude::*;

pub mod fov;
pub mod generate;
pub mod level;
pub mod messages;

use fov::sees;
use generate::generate_level;
use level::Level;
use messages::MessageLog;

verus! {

/// How many messages the game remembers.
pub const LOG_CAPACITY: usize = 100;

/// The world state that scenes read and change.
pub struct Game {
    pub level: Level,
    pub log: MessageLog,
}

impl Game {
    /// The level is well formed, the player stands inside it, the log is too.
    pub open spec fn wf(&self) -> bool {
        &&& self.level.wf()
        &&& self.level.player matches Some(p) && self.level.in_bounds(p.x as int, p.y as int)
        &&& self.log.wf()
    }

    pub open spec fn player_pos(&self) -> (int, int) {
        (self.level.player->Some_0.x as int, self.level.player->Some_0.y as int)
    }

    /// `after` is this game once the player has tried to step by `(dx, dy)`:
    /// the step is taken (`ok`) exactly when it lands on a floor tile of
    /// the level; then the player stands there, sees from there, keeps in
    /// mind what they saw before, and a turn passes. A refused step changes
    /// nothing.
    pub open spec fn moved(&self, after: &Game, dx: int, dy: int, ok: bool) -> bool {
        let (px, py) = self.player_pos();
        let (x, y) = (px + dx, py + dy);
        &&& ok <==> self.level.in_bounds(x, y) && self.level.tile(x, y) == Tile::Floor
        &&& ok ==> {
            &&& after.player_pos() == (x, y)
            &&& after.level.player->Some_0.glyph == self.level.player->Some_0.glyph
            &&& after.level.tiles == self.level.tiles
            &&& after.level.width == self.level.width
            &&& after.level.height == self.level.height
            &&& after.level.entry == self.level.entry
            &&& after.level.actors == self.level.actors
            &&& forall|i: int, j: int|
                self.level.in_bounds(i, j) ==> (#[trigger] after.level.seen(i, j) <==> self.seen_from(
                    x,
                    y,
                    i,
                    j,
                ))
            &&& forall|i: int, j: int|
                self.level.in_bounds(i, j) ==> (#[trigger] after.level.known(i, j) == (
                self.level.known(i, j) || after.level.seen(i, j)))
            &&& after.log.messages@ == self.log.messages@
            &&& after.log.max_memory == self.log.max_memory
            &&& after.log.curr_turn == if self.log.curr_turn < u64::MAX {
                self.log.curr_turn + 1
            } else {
                self.log.curr_turn as int
            }
        }
        &&& !ok ==> *after == *self
    }

    /// What the player sees from `(x, y)` in this level.
    pub open spec fn seen_from(&self, x: int, y: int, tx: int, ty: int) -> bool {
        sees(
            |a: i32, b: i32| self.level.lets_light(a, b),
            self.level.width as int,
            self.level.height as int,
            x,
            y,
            tx,
            ty,
        )
    }

    /// A new game on the level generated from `seed`, with the player at
    /// its entry, seeing from there, and an empty log.
    pub fn new(seed: u64) -> (r: Game)
        ensures
            r.wf(),
            r.player_pos() == (r.level.entry.0 as int, r.level.entry.1 as int),
            r.level.tile(r.level.entry.0 as int, r.level.entry.1 as int) == Tile::Floor,
            r.level.player->Some_0.glyph == Glyph::Player,
            forall|x: int, y: int|
                r.level.in_bounds(x, y) ==> (#[trigger] r.level.seen(x, y) <==> r.seen_from(
                    r.player_pos().0,
                    r.player_pos().1,
                    x,
                    y,
                )),
            forall|x: int, y: int|
                r.level.in_bounds(x, y) ==> (#[trigger] r.level.known(x, y) == r.level.seen(x, y)),
            r.log.messages@.len() == 0,
            r.log.curr_turn == 0,
            r.log.max_memory == LOG_CAPACITY,
            r.level.width == generate::MAP_WIDTH,
            r.level.height == generate::MAP_HEIGHT,
            exists|generated: Level, rooms: Seq<generate::Room>, corridors: Seq<generate::Segment>|
                generate::laid_out(&generated, rooms, corridors) && r.level == (Level {
                    player: r.level.player,
                    visible: r.level.visible,
                    explored: r.level.explored,
                    ..generated
                }),
    {
        let mut level = generate_level(seed);
        let ghost generated = level;
        let (x, y) = level.entry();
        proof {
            let (rooms, corridors) = choose|rooms: Seq<generate::Room>, corridors: Seq<generate::Segment>|
                generate::laid_out(&level, rooms, corridors);
            assert(rooms[0].fits(generate::MAP_WIDTH as int, generate::MAP_HEIGHT as int));
            assert(rooms[0].interior_has(x as int, y as int));
            assert(level.in_bounds(x as int, y as int));
            assert(level.tile(x as int, y as int) == Tile::Floor);
        }
        let player = Entity::new(x, y, Glyph::Player);
        level.add_player(player);
        let ghost unseen = level;
        level.update_vision();
        proof {
            assert forall|a: int, b: int| level.in_bounds(a, b) implies (#[trigger] level.known(a, b)
                == level.seen(a, b)) by {
                let (rooms, corridors) = choose|rooms: Seq<generate::Room>, corridors: Seq<generate::Segment>|
                    generate::laid_out(&generated, rooms, corridors);
                assert(generated.in_bounds(a, b));
                assert(!generated.seen(a, b) && !generated.known(a, b));
                assert(unseen.known(a, b) == generated.known(a, b));
            }
            let (rooms, corridors) = choose|rooms: Seq<generate::Room>, corridors: Seq<generate::Segment>|
                generate::laid_out(&generated, rooms, corridors);
            assert(level == (Level {
                player: level.player,
                visible: level.visible,
                explored: level.explored,
                ..generated
            }));
        }
        Game { level, log: MessageLog::new(LOG_CAPACITY) }
    }

    /// Moves the player by `(dx, dy)` if that lands on a floor tile of the
    /// level, then updates what they see and starts a new turn; otherwise
    /// fails and changes nothing.
    pub fn move_player(&mut self, dx: i8, dy: i8) -> (r: Result<(), ()>)
        requires
            old(self).wf(),
        ensures
            final(self).wf(),
            old(self).moved(final(self), dx as int, dy as int, r is Ok),
    {
        let player = match self.level.player() {
            Some(p) => *p,
            None => {
                return Err(());
            },
        };
        let x = player.x as i64 + dx as i64;
        let y = player.y as i64 + dy as i64;
        if x >= 0 && y >= 0 {
            let x = x as usize;
            let y = y as usize;
            if x < self.level.width() && y < self.level.height() && self.level.get_tile(x, y)
                == Tile::Floor {
                match self.level.player_mut() {
                    Some(p) => p.set_pos(x, y),
                    None => {},
                }
                self.level.update_vision();
                self.log.start_turn();
                return Ok(());
            }
        }
        Err(())
    }

    pub fn level(&self) -> (r: &Level)
        ensures
            *r == self.level,
    {
        &self.level
    }

    pub fn log(&self) -> (r: &MessageLog)
        ensures
            *r == self.log,
    {
        &self.log
    }
}

/// What a grid square is made of.
#[derive(Clone, Copy, PartialEq, Eq, Structural, Debug)]
pub enum Tile {
    Wall,
    Floor,
}

/// What an entity looks like, and so what it is.
#[derive(Clone, Copy, PartialEq, Eq, Structural, Debug)]
pub enum Glyph {
    Player,
    Goblin,
    Hobgobin,
}

/// Something that stands on a tile.
#[derive(Clone, Copy, PartialEq, Eq, Structural, Debug)]
pub struct Entity {
    pub x: usize,
    pub y: usize,
    pub glyph: Glyph,
}

impl Entity {
    pub fn new(x: usize, y: usize, glyph: Glyph) -> (r: Entity)
        ensures
            r.x == x,
            r.y == y,
            r.glyph == glyph,
    {
        Entity { x, y, glyph }
    }

    pub fn x(&self) -> (r: usize)
        ensures
            r == self.x,
    {
        self.x
    }

    pub fn y(&self) -> (r: usize)
        ensures
            r == self.y,
    {
        self.y
    }

    pub fn pos(&self) -> (r: (usize, usize))
        ensures
            r == (self.x, self.y),
    {
        (self.x, self.y)
    }

    pub fn set_pos(&mut self, x: usize, y: usize)
        ensures
            final(self).x == x,
            final(self).y == y,
            final(self).glyph == old(self).glyph,
    {
        self.x = x;
        self.y = y;
    }
}

} // verus!
