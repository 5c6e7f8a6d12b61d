//! One dungeon level: its tiles, what the player sees and has seen, and who
//! stands where.
use vstd::prelude::*;

use super::fov::{compute_fov, map_lets_light, sees};
use super::{Entity, Tile};
use crate::console::{grid_index, lemma_grid_index};

verus! {

/// Vision traces lines in `i32` coordinates up to the vision radius past
/// the edge, so a level is at most this wide and high.
pub const MAX_SIDE: usize = 0x7fff_fff7;

pub struct Level {
    pub width: usize,
    pub height: usize,
    pub entry: (usize, usize),
    pub tiles: Vec<Tile>,
    pub visible: Vec<bool>,
    pub explored: Vec<bool>,
    pub actors: Vec<Entity>,
    pub player: Option<Entity>,
}

impl Level {
    pub open spec fn wf(&self) -> bool {
        &&& self.width <= MAX_SIDE
        &&& self.height <= MAX_SIDE
        &&& self.width * self.height <= usize::MAX
        &&& self.tiles@.len() == self.width * self.height
        &&& self.visible@.len() == self.width * self.height
        &&& self.explored@.len() == self.width * self.height
    }

    pub open spec fn in_bounds(&self, x: int, y: int) -> bool {
        0 <= x < self.width && 0 <= y < self.height
    }

    pub open spec fn tile(&self, x: int, y: int) -> Tile {
        self.tiles@[grid_index(self.width as int, x, y)]
    }

    pub open spec fn seen(&self, x: int, y: int) -> bool {
        self.visible@[grid_index(self.width as int, x, y)]
    }

    pub open spec fn known(&self, x: int, y: int) -> bool {
        self.explored@[grid_index(self.width as int, x, y)]
    }

    /// Light passes through `(x, y)`: it is a floor tile of the level.
    pub open spec fn lets_light(&self, x: i32, y: i32) -> bool {
        self.in_bounds(x as int, y as int) && self.tile(x as int, y as int) == Tile::Floor
    }

    /// A level of walls only, with nothing seen, no actors and no player.
    pub fn new(width: usize, height: usize, entry: (usize, usize)) -> (r: Level)
        requires
            width <= MAX_SIDE,
            height <= MAX_SIDE,
            width * height <= usize::MAX,
        ensures
            r.wf(),
            r.width == width,
            r.height == height,
            r.entry == entry,
            forall|x: int, y: int| r.in_bounds(x, y) ==> #[trigger] r.tile(x, y) == Tile::Wall,
            forall|x: int, y: int| r.in_bounds(x, y) ==> !#[trigger] r.seen(x, y),
            forall|x: int, y: int| r.in_bounds(x, y) ==> !#[trigger] r.known(x, y),
            r.actors@.len() == 0,
            r.player is None,
    {
        let n: usize = width * height;
        let mut tiles: Vec<Tile> = Vec::new();
        let mut visible: Vec<bool> = Vec::new();
        let mut explored: Vec<bool> = Vec::new();
        let mut i: usize = 0;
        while i < n
            invariant
                i <= n,
                tiles@.len() == i,
                visible@.len() == i,
                explored@.len() == i,
                forall|j: int| 0 <= j < i ==> tiles@[j] == Tile::Wall && !visible@[j] && !explored@[j],
            decreases n - i,
        {
            tiles.push(Tile::Wall);
            visible.push(false);
            explored.push(false);
            i = i + 1;
        }
        let r = Level {
            width,
            height,
            entry,
            tiles,
            visible,
            explored,
            actors: Vec::new(),
            player: None,
        };
        proof {
            assert forall|x: int, y: int| r.in_bounds(x, y) implies #[trigger] r.tile(x, y)
                == Tile::Wall && !r.seen(x, y) && !r.known(x, y) by {
                lemma_grid_index(width as int, height as int, x, y);
            }
            assert forall|x: int, y: int| r.in_bounds(x, y) implies !#[trigger] r.seen(x, y) by {
                assert(r.tile(x, y) == Tile::Wall);
            }
            assert forall|x: int, y: int| r.in_bounds(x, y) implies !#[trigger] r.known(x, y) by {
                assert(r.tile(x, y) == Tile::Wall);
            }
        }
        r
    }

    pub fn width(&self) -> (r: usize)
        ensures
            r == self.width,
    {
        self.width
    }

    pub fn height(&self) -> (r: usize)
        ensures
            r == self.height,
    {
        self.height
    }

    pub fn entry(&self) -> (r: (usize, usize))
        ensures
            r == self.entry,
    {
        self.entry
    }

    pub fn get_tile(&self, x: usize, y: usize) -> (r: Tile)
        requires
            self.wf(),
            self.in_bounds(x as int, y as int),
        ensures
            r == self.tile(x as int, y as int),
    {
        proof {
            lemma_grid_index(self.width as int, self.height as int, x as int, y as int);
        }
        self.tiles[y * self.width + x]
    }

    pub fn set_tile(&mut self, x: usize, y: usize, tile: Tile)
        requires
            old(self).wf(),
            old(self).in_bounds(x as int, y as int),
        ensures
            final(self).wf(),
            *final(self) == (Level {
                tiles: final(self).tiles,
                ..*old(self)
            }),
            forall|i: int, j: int|
                old(self).in_bounds(i, j) ==> #[trigger] final(self).tile(i, j) == if i == x && j
                    == y {
                    tile
                } else {
                    old(self).tile(i, j)
                },
    {
        proof {
            lemma_grid_index(self.width as int, self.height as int, x as int, y as int);
        }
        let i: usize = y * self.width + x;
        self.tiles.set(i, tile);
        proof {
            let w = self.width as int;
            assert forall|a: int, b: int| old(self).in_bounds(a, b) implies #[trigger] self.tile(a, b)
                == if a == x && b == y {
                tile
            } else {
                old(self).tile(a, b)
            } by {
                lemma_grid_index(w, self.height as int, a, b);
                if grid_index(w, a, b) == grid_index(w, x as int, y as int) {
                    crate::console::lemma_grid_index_injective(w, a, b, x as int, y as int);
                }
            }
        }
    }

    pub fn is_visible(&self, x: usize, y: usize) -> (r: bool)
        requires
            self.wf(),
            self.in_bounds(x as int, y as int),
        ensures
            r == self.seen(x as int, y as int),
    {
        proof {
            lemma_grid_index(self.width as int, self.height as int, x as int, y as int);
        }
        self.visible[y * self.width + x]
    }

    pub fn is_explored(&self, x: usize, y: usize) -> (r: bool)
        requires
            self.wf(),
            self.in_bounds(x as int, y as int),
        ensures
            r == self.known(x as int, y as int),
    {
        proof {
            lemma_grid_index(self.width as int, self.height as int, x as int, y as int);
        }
        self.explored[y * self.width + x]
    }

    pub fn actors(&self) -> (r: &[Entity])
        ensures
            r@ == self.actors@,
    {
        self.actors.as_slice()
    }

    pub fn add_actor(&mut self, e: Entity)
        ensures
            *final(self) == (Level {
                actors: final(self).actors,
                ..*old(self)
            }),
            final(self).actors@ == old(self).actors@.push(e),
    {
        self.actors.push(e);
    }

    pub fn player(&self) -> (r: Option<&Entity>)
        ensures
            r == match self.player {
                Some(e) => Some(&e),
                None => None::<&Entity>,
            },
    {
        match &self.player {
            Some(e) => Some(e),
            None => None,
        }
    }

    pub fn player_mut(&mut self) -> (r: Option<&mut Entity>)
        ensures
            r is Some <==> old(self).player is Some,
            r matches Some(e) ==> *e == old(self).player->Some_0 && *final(self) == (Level {
                player: Some(*final(e)),
                ..*old(self)
            }),
            r is None ==> *final(self) == *old(self),
    {
        match &mut self.player {
            Some(e) => Some(e),
            None => None,
        }
    }

    pub fn add_player(&mut self, e: Entity)
        ensures
            *final(self) == (Level {
                player: Some(e),
                ..*old(self)
            }),
    {
        self.player = Some(e);
    }

    /// Recomputes what the player sees from where they stand, and adds it to
    /// what has been explored.
    pub fn update_vision(&mut self)
        requires
            old(self).wf(),
            old(self).player matches Some(p) && old(self).in_bounds(p.x as int, p.y as int),
        ensures
            final(self).wf(),
            *final(self) == (Level {
                visible: final(self).visible,
                explored: final(self).explored,
                ..*old(self)
            }),
            forall|x: int, y: int|
                old(self).in_bounds(x, y) ==> (#[trigger] final(self).seen(x, y) <==> sees(
                    |a: i32, b: i32| old(self).lets_light(a, b),
                    old(self).width as int,
                    old(self).height as int,
                    old(self).player->Some_0.x as int,
                    old(self).player->Some_0.y as int,
                    x,
                    y,
                )),
            forall|x: int, y: int|
                old(self).in_bounds(x, y) ==> (#[trigger] final(self).known(x, y) == (old(
                    self,
                ).known(x, y) || final(self).seen(x, y))),
    {
        let player = match &self.player {
            Some(p) => *p,
            None => {
                proof {
                    assert(false);
                }
                return;
            },
        };
        let width = self.width;
        let height = self.height;
        let ghost start = *self;
        let n = self.tiles.len();
        let mut transparent: Vec<bool> = Vec::with_capacity(n);
        let mut i: usize = 0;
        while i < n
            invariant
                i <= n,
                n == start.tiles@.len(),
                self.tiles@ == start.tiles@,
                transparent@.len() == i,
                forall|j: int| 0 <= j < i ==> #[trigger] transparent@[j] == (start.tiles@[j] == Tile::Floor),
            decreases n - i,
        {
            let t = match self.tiles[i] {
                Tile::Floor => true,
                Tile::Wall => false,
            };
            transparent.push(t);
            i = i + 1;
        }
        compute_fov(
            &mut self.visible,
            width as i32,
            height as i32,
            &transparent,
            player.x as i32,
            player.y as i32,
        );
        proof {
            assert forall|a: i32, b: i32| #[trigger] map_lets_light(transparent@, width as int, height as int)(a, b) == start.lets_light(a, b) by {
                if 0 <= a < width && 0 <= b < height {
                    lemma_grid_index(width as int, height as int, a as int, b as int);
                }
            }
            assert(map_lets_light(transparent@, width as int, height as int) =~= (|a: i32, b: i32| start.lets_light(a, b)));
        }
        let ghost after_fov = *self;
        let n = self.explored.len();
        let mut i: usize = 0;
        while i < n
            invariant
                i <= n,
                *self == (Level { explored: self.explored, ..after_fov }),
                after_fov == (Level { visible: after_fov.visible, ..start }),
                start.wf(),
                n == self.explored@.len(),
                self.explored@.len() == start.explored@.len(),
                self.visible@.len() == n,
                forall|j: int| 0 <= j < i ==> #[trigger] self.explored@[j] == (start.explored@[j] || self.visible@[j]),
                forall|j: int| i <= j < n ==> #[trigger] self.explored@[j] == start.explored@[j],
            decreases n - i,
        {
            let e = self.explored[i] || self.visible[i];
            self.explored.set(i, e);
            i = i + 1;
        }
        proof {
            assert forall|x: int, y: int| start.in_bounds(x, y) implies (#[trigger] self.known(x, y) == (start.known(x, y) || self.seen(x, y))) by {
                lemma_grid_index(width as int, height as int, x, y);
            }
        }
    }
}

} // verus!
