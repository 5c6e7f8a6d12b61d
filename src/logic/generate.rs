//! Dungeon generation: rooms placed by rejection sampling, carved out,
//! joined in order by L-shaped corridors, then sparsely populated.
use vstd::prelude::*;

use rand::rngs::SmallRng;
use rand::{Rng, SeedableRng};

use super::fov::between;
use super::level::Level;
use super::{Entity, Glyph, Tile};

verus! {

#[verifier::external_type_specification]
#[verifier::external_body]
pub struct ExSmallRng(SmallRng);

/// Relies on rand's `SeedableRng::seed_from_u64` for `SmallRng`: a
/// generator whose whole output is fixed by the seed.
#[verifier::external_body]
fn seeded_rng(seed: u64) -> SmallRng {
    SmallRng::seed_from_u64(seed)
}

/// Relies on rand's `Rng::random_range` over `low..=high`, which returns a
/// value of that range and panics only when the range is empty.
#[verifier::external_body]
fn random_between(rng: &mut SmallRng, low: usize, high: usize) -> (r: usize)
    requires
        low <= high,
    ensures
        low <= r <= high,
{
    rng.random_range(low..=high)
}

/// Relies on rand's `Rng::random::<bool>`: a fair coin.
#[verifier::external_body]
fn random_flag(rng: &mut SmallRng) -> bool {
    rng.random::<bool>()
}

/// Relies on rand's `Rng::random_ratio`, which panics when `denominator`
/// is zero or below `numerator`, and is certain at the two ends.
#[verifier::external_body]
fn random_chance(rng: &mut SmallRng, numerator: u32, denominator: u32) -> (r: bool)
    requires
        0 < denominator,
        numerator <= denominator,
    ensures
        numerator == denominator ==> r,
        numerator == 0 ==> !r,
{
    rng.random_ratio(numerator, denominator)
}

/// Width and height of a generated level.
pub const MAP_WIDTH: usize = 80;
pub const MAP_HEIGHT: usize = 24;

/// How many candidate rooms are drawn.
pub const ROOM_ATTEMPTS: usize = 40;

/// Smallest side of a room, walls included.
pub const ROOM_MIN_SIDE: usize = 6;

/// A rectangle of tiles, its border included: `x0..=x1` by `y0..=y1`.
#[derive(Clone, Copy, PartialEq, Eq, Structural, Debug)]
pub struct Room {
    pub x0: usize,
    pub y0: usize,
    pub x1: usize,
    pub y1: usize,
}

/// A straight run of tiles from `(x0, y0)` to `(x1, y1)`, both included.
#[derive(Clone, Copy, PartialEq, Eq, Structural, Debug)]
pub struct Segment {
    pub x0: usize,
    pub y0: usize,
    pub x1: usize,
    pub y1: usize,
}

impl Room {
    pub open spec fn overlaps(&self, other: &Room) -> bool {
        self.x0 <= other.x1 && self.x1 >= other.x0 && self.y0 <= other.y1 && self.y1 >= other.y0
    }

    /// The room lies in a `width` by `height` map and has a floor inside
    /// its walls.
    pub open spec fn fits(&self, width: int, height: int) -> bool {
        self.x0 + 2 <= self.x1 < width && self.y0 + 2 <= self.y1 < height
    }

    /// `(x, y)` lies inside the room's walls.
    pub open spec fn interior_has(&self, x: int, y: int) -> bool {
        self.x0 < x < self.x1 && self.y0 < y < self.y1
    }

    /// A room of random size between the given bounds, walls included, at a
    /// random place that fits in a `map_width` by `map_height` map.
    fn random(
        min_width: usize,
        min_height: usize,
        max_width: usize,
        max_height: usize,
        map_width: usize,
        map_height: usize,
        rng: &mut SmallRng,
    ) -> (r: Room)
        requires
            3 <= min_width <= max_width <= map_width,
            3 <= min_height <= max_height <= map_height,
        ensures
            r.fits(map_width as int, map_height as int),
            min_width <= r.x1 - r.x0 + 1 <= max_width,
            min_height <= r.y1 - r.y0 + 1 <= max_height,
    {
        let width = random_between(rng, min_width, max_width);
        let height = random_between(rng, min_height, max_height);
        let x = random_between(rng, 0, map_width - width);
        let y = random_between(rng, 0, map_height - height);
        Room { x0: x, y0: y, x1: x + width - 1, y1: y + height - 1 }
    }

    pub fn intersects(&self, other: &Room) -> (r: bool)
        ensures
            r == self.overlaps(other),
    {
        self.x0 <= other.x1 && self.x1 >= other.x0 && self.y0 <= other.y1 && self.y1 >= other.y0
    }

    /// Turns the room's interior into floor.
    fn carve(&self, level: &mut Level)
        requires
            old(level).wf(),
            self.fits(old(level).width as int, old(level).height as int),
        ensures
            final(level).wf(),
            *final(level) == (Level { tiles: final(level).tiles, ..*old(level) }),
            forall|x: int, y: int|
                old(level).in_bounds(x, y) ==> #[trigger] final(level).tile(x, y) == if self.interior_has(
                    x,
                    y,
                ) {
                    Tile::Floor
                } else {
                    old(level).tile(x, y)
                },
    {
        let ghost start = *level;
        let mut y: usize = self.y0 + 1;
        while y < self.y1
            invariant
                self.y0 + 1 <= y <= self.y1,
                self.fits(start.width as int, start.height as int),
                level.wf(),
                *level == (Level { tiles: level.tiles, ..start }),
                forall|i: int, j: int|
                    start.in_bounds(i, j) ==> #[trigger] level.tile(i, j) == if self.x0 < i < self.x1
                        && self.y0 < j < y {
                        Tile::Floor
                    } else {
                        start.tile(i, j)
                    },
            decreases self.y1 - y,
        {
            let mut x: usize = self.x0 + 1;
            while x < self.x1
                invariant
                    self.y0 + 1 <= y < self.y1,
                    self.x0 + 1 <= x <= self.x1,
                    self.fits(start.width as int, start.height as int),
                    level.wf(),
                    *level == (Level { tiles: level.tiles, ..start }),
                    forall|i: int, j: int|
                        start.in_bounds(i, j) ==> #[trigger] level.tile(i, j) == if self.x0 < i
                            < self.x1 && (self.y0 < j < y || (j == y && i < x)) {
                            Tile::Floor
                        } else {
                            start.tile(i, j)
                        },
                decreases self.x1 - x,
            {
                level.set_tile(x, y, Tile::Floor);
                x = x + 1;
            }
            y = y + 1;
        }
    }

    /// A random point inside the room's walls.
    fn pick_xy(&self, rng: &mut SmallRng) -> (r: (usize, usize))
        requires
            self.x0 + 2 <= self.x1,
            self.y0 + 2 <= self.y1,
        ensures
            self.interior_has(r.0 as int, r.1 as int),
    {
        let x = random_between(rng, self.x0 + 1, self.x1 - 1);
        let y = random_between(rng, self.y0 + 1, self.y1 - 1);
        (x, y)
    }
}


impl Segment {
    pub open spec fn straight(&self) -> bool {
        self.x0 == self.x1 || self.y0 == self.y1
    }

    pub open spec fn covers(&self, x: int, y: int) -> bool {
        between(self.x0 as int, x, self.x1 as int) && between(self.y0 as int, y, self.y1 as int)
    }
}

/// Turns the straight run from `(x1, y1)` to `(x2, y2)` into floor.
pub fn draw_line(x1: usize, y1: usize, x2: usize, y2: usize, level: &mut Level)
    requires
        old(level).wf(),
        x1 == x2 || y1 == y2,
        old(level).in_bounds(x1 as int, y1 as int),
        old(level).in_bounds(x2 as int, y2 as int),
    ensures
        final(level).wf(),
        *final(level) == (Level { tiles: final(level).tiles, ..*old(level) }),
        forall|x: int, y: int|
            old(level).in_bounds(x, y) ==> #[trigger] final(level).tile(x, y) == if (Segment {
                x0: x1,
                y0: y1,
                x1: x2,
                y1: y2,
            }).covers(x, y) {
                Tile::Floor
            } else {
                old(level).tile(x, y)
            },
{
    let ghost start = *level;
    let ghost seg = Segment { x0: x1, y0: y1, x1: x2, y1: y2 };
    if x1 == x2 {
        let lo: usize = if y1 < y2 { y1 } else { y2 };
        let hi: usize = if y1 < y2 { y2 } else { y1 };
        let mut y: usize = lo;
        while y <= hi
            invariant
                lo <= y <= hi + 1,
                hi < start.height,
                x1 == x2,
                x1 < start.width,
                lo == if y1 < y2 { y1 } else { y2 },
                hi == if y1 < y2 { y2 } else { y1 },
                level.wf(),
                *level == (Level { tiles: level.tiles, ..start }),
                forall|i: int, j: int|
                    start.in_bounds(i, j) ==> #[trigger] level.tile(i, j) == if i == x1 && lo <= j
                        < y {
                        Tile::Floor
                    } else {
                        start.tile(i, j)
                    },
            decreases hi + 1 - y,
        {
            level.set_tile(x1, y, Tile::Floor);
            y = y + 1;
        }
    } else {
        let lo: usize = if x1 < x2 { x1 } else { x2 };
        let hi: usize = if x1 < x2 { x2 } else { x1 };
        let mut x: usize = lo;
        while x <= hi
            invariant
                lo <= x <= hi + 1,
                hi < start.width,
                y1 == y2,
                y1 < start.height,
                lo == if x1 < x2 { x1 } else { x2 },
                hi == if x1 < x2 { x2 } else { x1 },
                level.wf(),
                *level == (Level { tiles: level.tiles, ..start }),
                forall|i: int, j: int|
                    start.in_bounds(i, j) ==> #[trigger] level.tile(i, j) == if j == y1 && lo <= i
                        < x {
                        Tile::Floor
                    } else {
                        start.tile(i, j)
                    },
            decreases hi + 1 - x,
        {
            level.set_tile(x, y1, Tile::Floor);
            x = x + 1;
        }
    }
}

/// The two straight runs `a` then `b` lead from inside `from` to inside `to`
/// through one elbow, a corner that takes one coordinate from each end.
pub open spec fn joins(a: Segment, b: Segment, from: Room, to: Room) -> bool {
    &&& a.straight()
    &&& b.straight()
    &&& from.interior_has(a.x0 as int, a.y0 as int)
    &&& to.interior_has(b.x1 as int, b.y1 as int)
    &&& a.x1 == b.x0
    &&& a.y1 == b.y0
    &&& (a.x1 == a.x0 && a.y1 == b.y1) || (a.x1 == b.x1 && a.y1 == a.y0)
}

impl Room {
    /// Digs an L-shaped corridor from a random point of this room to a
    /// random point of `other`, turning at one of the two corners that
    /// those points span, and returns its two straight runs.
    pub fn tunnel_to(&self, other: &Room, level: &mut Level, rng: &mut SmallRng) -> (r: (
        Segment,
        Segment,
    ))
        requires
            old(level).wf(),
            self.fits(old(level).width as int, old(level).height as int),
            other.fits(old(level).width as int, old(level).height as int),
        ensures
            final(level).wf(),
            *final(level) == (Level { tiles: final(level).tiles, ..*old(level) }),
            joins(r.0, r.1, *self, *other),
            forall|x: int, y: int|
                old(level).in_bounds(x, y) ==> #[trigger] final(level).tile(x, y) == if r.0.covers(
                    x,
                    y,
                ) || r.1.covers(x, y) {
                    Tile::Floor
                } else {
                    old(level).tile(x, y)
                },
    {
        let xa = random_between(rng, self.x0 + 1, self.x1 - 1);
        let ya = random_between(rng, self.y0 + 1, self.y1 - 1);
        let xb = random_between(rng, other.x0 + 1, other.x1 - 1);
        let yb = random_between(rng, other.y0 + 1, other.y1 - 1);
        let xm;
        let ym;
        if random_flag(rng) {
            xm = xa;
            ym = yb;
        } else {
            xm = xb;
            ym = ya;
        }
        draw_line(xa, ya, xm, ym, level);
        draw_line(xm, ym, xb, yb, level);
        (Segment { x0: xa, y0: ya, x1: xm, y1: ym }, Segment { x0: xm, y0: ym, x1: xb, y1: yb })
    }
}

/// Every room has sides, walls included, between `ROOM_MIN_SIDE` and a
/// third of the map's.
pub open spec fn sized(rooms: Seq<Room>, width: int, height: int) -> bool {
    forall|i: int|
        0 <= i < rooms.len() ==> {
            &&& ROOM_MIN_SIDE <= (#[trigger] rooms[i]).x1 - rooms[i].x0 + 1 <= width / 3
            &&& ROOM_MIN_SIDE <= rooms[i].y1 - rooms[i].y0 + 1 <= height / 3
        }
}

/// No two rooms of `rooms` overlap.
pub open spec fn apart(rooms: Seq<Room>) -> bool {
    forall|i: int, j: int|
        #![trigger rooms[i], rooms[j]]
        0 <= i < j < rooms.len() ==> !rooms[i].overlaps(&rooms[j])
}

/// The rooms kept from `candidates`, in order: each candidate that
/// overlaps none of those kept before it.
pub open spec fn kept_apart(candidates: Seq<Room>) -> Seq<Room>
    decreases candidates.len(),
{
    if candidates.len() == 0 {
        Seq::empty()
    } else {
        let kept = kept_apart(candidates.drop_last());
        let c = candidates.last();
        if forall|i: int| 0 <= i < kept.len() ==> !(#[trigger] kept[i]).overlaps(&c) {
            kept.push(c)
        } else {
            kept
        }
    }
}

/// Keeps each of `candidates`, in order, that overlaps none kept before it.
pub fn keep_apart(candidates: &Vec<Room>) -> (rooms: Vec<Room>)
    ensures
        rooms@ == kept_apart(candidates@),
        apart(rooms@),
        rooms@.len() <= candidates@.len(),
        candidates@.len() >= 1 ==> rooms@.len() >= 1,
        forall|k: int| 0 <= k < rooms@.len() ==> candidates@.contains(#[trigger] rooms@[k]),
{
    let mut rooms: Vec<Room> = Vec::new();
    let mut n: usize = 0;
    while n < candidates.len()
        invariant
            n <= candidates@.len(),
            rooms@ == kept_apart(candidates@.take(n as int)),
            apart(rooms@),
            rooms@.len() <= n,
            n >= 1 ==> rooms@.len() >= 1,
            forall|k: int| 0 <= k < rooms@.len() ==> candidates@.contains(#[trigger] rooms@[k]),
        decreases candidates@.len() - n,
    {
        let room = candidates[n];
        proof {
            assert(candidates@.take(n + 1).drop_last() =~= candidates@.take(n as int));
            assert(candidates@.take(n + 1).last() == room);
        }
        let mut k: usize = 0;
        let mut clear = true;
        while k < rooms.len()
            invariant
                k <= rooms@.len(),
                clear == forall|i: int| 0 <= i < k ==> !(#[trigger] rooms@[i]).overlaps(&room),
            decreases rooms@.len() - k,
        {
            if rooms[k].intersects(&room) {
                clear = false;
            }
            k = k + 1;
        }
        if clear {
            proof {
                assert forall|i: int, j: int|
                    #![trigger rooms@.push(room)[i], rooms@.push(room)[j]]
                    0 <= i < j < rooms@.push(room).len() implies !rooms@.push(room)[i].overlaps(
                    &rooms@.push(room)[j],
                ) by {
                    if j == rooms@.len() {
                        assert(!rooms@[i].overlaps(&room));
                    }
                }
                assert forall|k: int| 0 <= k < rooms@.push(room).len() implies candidates@.contains(
                    #[trigger] rooms@.push(room)[k],
                ) by {
                    if k == rooms@.len() {
                        assert(candidates@[n as int] == room);
                    } else {
                        assert(rooms@.push(room)[k] == rooms@[k]);
                    }
                }
            }
            rooms.push(room);
        }
        n = n + 1;
    }
    proof {
        assert(candidates@.take(n as int) =~= candidates@);
    }
    rooms
}

/// Draws `ROOM_ATTEMPTS` candidate rooms for a `width` by `height` map and
/// keeps each one that overlaps none kept before it.
pub fn place_rooms(rng: &mut SmallRng, width: usize, height: usize) -> (rooms: Vec<Room>)
    requires
        3 * ROOM_MIN_SIDE <= width,
        3 * ROOM_MIN_SIDE <= height,
    ensures
        exists|candidates: Seq<Room>|
            {
                &&& candidates.len() == ROOM_ATTEMPTS
                &&& sized(candidates, width as int, height as int)
                &&& forall|i: int|
                    0 <= i < candidates.len() ==> (#[trigger] candidates[i]).fits(
                        width as int,
                        height as int,
                    )
                &&& rooms@ == kept_apart(candidates)
            },
        1 <= rooms@.len() <= ROOM_ATTEMPTS,
        apart(rooms@),
        sized(rooms@, width as int, height as int),
        forall|i: int| 0 <= i < rooms@.len() ==> (#[trigger] rooms@[i]).fits(width as int, height as int),
{
    let mut candidates: Vec<Room> = Vec::new();
    let mut attempt: usize = 0;
    while attempt < ROOM_ATTEMPTS
        invariant
            attempt <= ROOM_ATTEMPTS,
            3 * ROOM_MIN_SIDE <= width,
            3 * ROOM_MIN_SIDE <= height,
            candidates@.len() == attempt,
            sized(candidates@, width as int, height as int),
            forall|i: int| 0 <= i < candidates@.len() ==> (#[trigger] candidates@[i]).fits(width as int, height as int),
        decreases ROOM_ATTEMPTS - attempt,
    {
        let room = Room::random(ROOM_MIN_SIDE, ROOM_MIN_SIDE, width / 3, height / 3, width, height, rng);
        candidates.push(room);
        attempt = attempt + 1;
    }
    let rooms = keep_apart(&candidates);
    proof {
        assert forall|k: int| 0 <= k < rooms@.len() implies {
            &&& ROOM_MIN_SIDE <= (#[trigger] rooms@[k]).x1 - rooms@[k].x0 + 1 <= width / 3
            &&& ROOM_MIN_SIDE <= rooms@[k].y1 - rooms@[k].y0 + 1 <= height / 3
            &&& rooms@[k].fits(width as int, height as int)
        } by {
            assert(candidates@.contains(rooms@[k]));
            let j = choose|j: int| 0 <= j < candidates@.len() && candidates@[j] == rooms@[k];
            assert(candidates@[j].fits(width as int, height as int));
        }
    }
    rooms
}

/// `(x, y)` is floor in a level dug out of `rooms` and `corridors`.
pub open spec fn dug(rooms: Seq<Room>, corridors: Seq<Segment>, x: int, y: int) -> bool {
    ||| exists|i: int| 0 <= i < rooms.len() && #[trigger] rooms[i].interior_has(x, y)
    ||| exists|j: int| 0 <= j < corridors.len() && #[trigger] corridors[j].covers(x, y)
}

proof fn lemma_dug_room(rooms: Seq<Room>, corridors: Seq<Segment>, r: Room, x: int, y: int)
    ensures
        dug(rooms.push(r), corridors, x, y) == (dug(rooms, corridors, x, y) || r.interior_has(x, y)),
{
    if exists|i: int| 0 <= i < rooms.push(r).len() && #[trigger] rooms.push(r)[i].interior_has(x, y) {
        let i = choose|i: int| 0 <= i < rooms.push(r).len() && #[trigger] rooms.push(r)[i].interior_has(x, y);
        if i < rooms.len() {
            assert(rooms[i].interior_has(x, y));
        }
    }
    if exists|i: int| 0 <= i < rooms.len() && #[trigger] rooms[i].interior_has(x, y) {
        let i = choose|i: int| 0 <= i < rooms.len() && #[trigger] rooms[i].interior_has(x, y);
        assert(rooms.push(r)[i].interior_has(x, y));
    }
    if r.interior_has(x, y) {
        assert(rooms.push(r)[rooms.len() as int].interior_has(x, y));
    }
}

proof fn lemma_dug_corridor(rooms: Seq<Room>, corridors: Seq<Segment>, s: Segment, x: int, y: int)
    ensures
        dug(rooms, corridors.push(s), x, y) == (dug(rooms, corridors, x, y) || s.covers(x, y)),
{
    if exists|j: int| 0 <= j < corridors.push(s).len() && #[trigger] corridors.push(s)[j].covers(x, y) {
        let j = choose|j: int| 0 <= j < corridors.push(s).len() && #[trigger] corridors.push(s)[j].covers(x, y);
        if j < corridors.len() {
            assert(corridors[j].covers(x, y));
        }
    }
    if exists|j: int| 0 <= j < corridors.len() && #[trigger] corridors[j].covers(x, y) {
        let j = choose|j: int| 0 <= j < corridors.len() && #[trigger] corridors[j].covers(x, y);
        assert(corridors.push(s)[j].covers(x, y));
    }
    if s.covers(x, y) {
        assert(corridors.push(s)[corridors.len() as int].covers(x, y));
    }
}

/// Positions of the actors are pairwise distinct.
pub open spec fn spread(actors: Seq<Entity>) -> bool {
    forall|i: int, j: int|
        #![trigger actors[i], actors[j]]
        0 <= i < j < actors.len() ==> actors[i].x != actors[j].x || actors[i].y != actors[j].y
}

/// Every actor is a monster standing inside one of `rooms`.
pub open spec fn housed(actors: Seq<Entity>, rooms: Seq<Room>) -> bool {
    forall|k: int|
        0 <= k < actors.len() ==> {
            &&& (#[trigger] actors[k]).glyph != Glyph::Player
            &&& exists|i: int|
                0 <= i < rooms.len() && #[trigger] rooms[i].interior_has(
                    actors[k].x as int,
                    actors[k].y as int,
                )
        }
}

/// No room holds three of the actors.
pub open spec fn uncrowded(actors: Seq<Entity>, rooms: Seq<Room>) -> bool {
    forall|i: int, p: int, q: int, r: int|
        #![trigger rooms[i], actors[p], actors[q], actors[r]]
        0 <= i < rooms.len() && 0 <= p < q && q < r < actors.len() ==> !(rooms[i].interior_has(
            actors[p].x as int,
            actors[p].y as int,
        ) && rooms[i].interior_has(actors[q].x as int, actors[q].y as int) && rooms[i].interior_has(
            actors[r].x as int,
            actors[r].y as int,
        ))
}

/// The actors after trying to add a monster of kind `kinds[i]` at each of
/// `points` in order: a point that some actor already holds is skipped.
pub open spec fn settled(actors: Seq<Entity>, points: Seq<(usize, usize)>, kinds: Seq<Glyph>) -> Seq<
    Entity,
>
    decreases points.len(),
{
    if points.len() == 0 {
        actors
    } else {
        let before = settled(actors, points.drop_last(), kinds.drop_last());
        let p = points.last();
        if exists|i: int| 0 <= i < before.len() && (#[trigger] before[i]).x == p.0 && before[i].y == p.1 {
            before
        } else {
            before.push(Entity { x: p.0, y: p.1, glyph: kinds.last() })
        }
    }
}

/// Every point of `points` lies inside `room`, and each has a monster kind.
pub open spec fn drawn_in(room: Room, points: Seq<(usize, usize)>, kinds: Seq<Glyph>) -> bool {
    &&& kinds.len() == points.len()
    &&& forall|i: int|
        0 <= i < points.len() ==> room.interior_has((#[trigger] points[i]).0 as int, points[i].1 as int)
    &&& forall|i: int| 0 <= i < kinds.len() ==> #[trigger] kinds[i] != Glyph::Player
}

/// Places up to two monsters at random points of `room`, skipping a point
/// that an actor already occupies; about four in five are goblins.
fn place_monsters(room: &Room, level: &mut Level, rng: &mut SmallRng)
    requires
        room.fits(MAP_WIDTH as int, MAP_HEIGHT as int),
        spread(old(level).actors@),
    ensures
        *final(level) == (Level { actors: final(level).actors, ..*old(level) }),
        spread(final(level).actors@),
        exists|points: Seq<(usize, usize)>, kinds: Seq<Glyph>|
            {
                &&& points.len() <= 2
                &&& kinds.len() == points.len()
                &&& drawn_in(*room, points, kinds)
                &&& final(level).actors@ == settled(old(level).actors@, points, kinds)
            },
        old(level).actors@.len() <= final(level).actors@.len() <= old(level).actors@.len() + 2,
        final(level).actors@.subrange(0, old(level).actors@.len() as int) == old(level).actors@,
        forall|k: int|
            old(level).actors@.len() <= k < final(level).actors@.len() ==> {
                &&& (#[trigger] final(level).actors@[k]).glyph != Glyph::Player
                &&& room.interior_has(final(level).actors@[k].x as int, final(level).actors@[k].y as int)
            },
{
    let ghost start = *level;
    let ghost mut points: Seq<(usize, usize)> = Seq::empty();
    let ghost mut kinds: Seq<Glyph> = Seq::empty();
    let count = random_between(rng, 0, 2);
    let mut n: usize = 0;
    while n < count
        invariant
            n <= count <= 2,
            points.len() == n,
            kinds.len() == n,
            drawn_in(*room, points, kinds),
            level.actors@ == settled(start.actors@, points, kinds),
            room.fits(MAP_WIDTH as int, MAP_HEIGHT as int),
            *level == (Level { actors: level.actors, ..start }),
            spread(level.actors@),
            start.actors@.len() <= level.actors@.len() <= start.actors@.len() + n,
            level.actors@.subrange(0, start.actors@.len() as int) == start.actors@,
            forall|k: int|
                start.actors@.len() <= k < level.actors@.len() ==> {
                    &&& (#[trigger] level.actors@[k]).glyph != Glyph::Player
                    &&& room.interior_has(level.actors@[k].x as int, level.actors@[k].y as int)
                },
        decreases count - n,
    {
        let (x, y) = room.pick_xy(rng);
        let actors = level.actors();
        let mut taken = false;
        let mut k: usize = 0;
        while k < actors.len()
            invariant
                k <= actors@.len(),
                actors@ == level.actors@,
                taken == exists|i: int| 0 <= i < k && (#[trigger] actors@[i]).x == x && actors@[i].y == y,
            decreases actors@.len() - k,
        {
            let (ax, ay) = actors[k].pos();
            if ax == x && ay == y {
                taken = true;
            }
            k = k + 1;
        }
        let ghost pts0 = points;
        let ghost kinds0 = kinds;
        if taken {
            proof {
                points = pts0.push((x, y));
                kinds = kinds0.push(Glyph::Goblin);
                assert(points.drop_last() =~= pts0);
                assert(kinds.drop_last() =~= kinds0);
                let k = choose|i: int| 0 <= i < actors@.len() && (#[trigger] actors@[i]).x == x && actors@[i].y == y;
                assert(settled(start.actors@, pts0, kinds0)[k].x == x);
            }
        }
        if !taken {
            let glyph = if random_chance(rng, 4, 5) {
                Glyph::Goblin
            } else {
                Glyph::Hobgobin
            };
            let goblin = Entity::new(x, y, glyph);
            let ghost before = level.actors@;
            level.add_actor(goblin);
            proof {
                points = pts0.push((x, y));
                kinds = kinds0.push(glyph);
                assert(points.drop_last() =~= pts0);
                assert(kinds.drop_last() =~= kinds0);
                assert(!exists|i: int| 0 <= i < before.len() && (#[trigger] before[i]).x == x && before[i].y == y);
                assert forall|i: int, j: int|
                    #![trigger level.actors@[i], level.actors@[j]]
                    0 <= i < j < level.actors@.len() implies level.actors@[i].x != level.actors@[j].x
                        || level.actors@[i].y != level.actors@[j].y by {
                    if j == before.len() {
                        assert(before[i] == level.actors@[i]);
                    }
                }
                assert(level.actors@.subrange(0, start.actors@.len() as int) =~= before.subrange(
                    0,
                    start.actors@.len() as int,
                ));
            }
        }
        n = n + 1;
    }
    proof {
        assert(points.len() <= 2 && kinds.len() == points.len());
        assert(level.actors@ == settled(old(level).actors@, points, kinds));
        assert({
            &&& points.len() <= 2
            &&& kinds.len() == points.len()
            &&& drawn_in(*room, points, kinds)
            &&& level.actors@ == settled(old(level).actors@, points, kinds)
        });
    }
}

/// What a generated level is made of: `rooms` of bounded size that lie
/// apart in the map,
/// joined in order by `corridors` (two straight runs between each room and
/// the next); its floor is exactly their interiors and runs; the entry lies
/// in the first room; monsters stand on distinct points inside rooms, at
/// most two to a room; no
/// player is placed and nothing has been seen yet.
pub open spec fn laid_out(level: &Level, rooms: Seq<Room>, corridors: Seq<Segment>) -> bool {
    &&& level.wf()
    &&& level.width == MAP_WIDTH
    &&& level.height == MAP_HEIGHT
    &&& 1 <= rooms.len() <= ROOM_ATTEMPTS
    &&& apart(rooms)
    &&& sized(rooms, MAP_WIDTH as int, MAP_HEIGHT as int)
    &&& forall|i: int| 0 <= i < rooms.len() ==> (#[trigger] rooms[i]).fits(MAP_WIDTH as int, MAP_HEIGHT as int)
    &&& corridors.len() == 2 * (rooms.len() - 1)
    &&& forall|i: int|
        0 <= i < rooms.len() - 1 ==> joins(
            #[trigger] corridors[2 * i],
            corridors[2 * i + 1],
            rooms[i],
            rooms[i + 1],
        )
    &&& forall|x: int, y: int|
        level.in_bounds(x, y) ==> (#[trigger] level.tile(x, y) == Tile::Floor <==> dug(
            rooms,
            corridors,
            x,
            y,
        ))
    &&& rooms[0].interior_has(level.entry.0 as int, level.entry.1 as int)
    &&& housed(level.actors@, rooms)
    &&& uncrowded(level.actors@, rooms)
    &&& spread(level.actors@)
    &&& level.player is None
    &&& forall|x: int, y: int| level.in_bounds(x, y) ==> !#[trigger] level.seen(x, y) && !level.known(x, y)
}

/// Generates a level, drawing every random choice from a generator seeded
/// with `seed`.
pub fn generate_level(seed: u64) -> (level: Level)
    ensures
        exists|rooms: Seq<Room>, corridors: Seq<Segment>| laid_out(&level, rooms, corridors),
{
    let width = MAP_WIDTH;
    let height = MAP_HEIGHT;
    let mut rng = seeded_rng(seed);
    let rooms = place_rooms(&mut rng, width, height);
    let entry_point = rooms[0].pick_xy(&mut rng);
    let mut level = Level::new(width, height, entry_point);

    let mut i: usize = 0;
    while i < rooms.len()
        invariant
            i <= rooms@.len(),
            1 <= rooms@.len() <= ROOM_ATTEMPTS,
            forall|k: int| 0 <= k < rooms@.len() ==> (#[trigger] rooms@[k]).fits(MAP_WIDTH as int, MAP_HEIGHT as int),
            level.wf(),
            level.width == MAP_WIDTH,
            level.height == MAP_HEIGHT,
            level.entry == entry_point,
            level.actors@.len() == 0,
            level.player is None,
            forall|x: int, y: int| level.in_bounds(x, y) ==> !#[trigger] level.seen(x, y) && !level.known(x, y),
            forall|x: int, y: int|
                level.in_bounds(x, y) ==> (#[trigger] level.tile(x, y) == Tile::Floor <==> dug(
                    rooms@.take(i as int),
                    Seq::empty(),
                    x,
                    y,
                )),
        decreases rooms@.len() - i,
    {
        let ghost before = level;
        rooms[i].carve(&mut level);
        proof {
            assert(rooms@.take(i + 1) =~= rooms@.take(i as int).push(rooms@[i as int]));
            assert forall|x: int, y: int| level.in_bounds(x, y) implies (#[trigger] level.tile(x, y)
                == Tile::Floor <==> dug(rooms@.take(i + 1), Seq::empty(), x, y)) by {
                lemma_dug_room(rooms@.take(i as int), Seq::empty(), rooms@[i as int], x, y);
                assert(before.in_bounds(x, y));
            }
            assert forall|x: int, y: int| level.in_bounds(x, y) implies !#[trigger] level.seen(x, y) && !level.known(x, y) by {
                assert(before.seen(x, y) == level.seen(x, y));
            }
        }
        i = i + 1;
    }
    proof {
        assert(rooms@.take(rooms@.len() as int) =~= rooms@);
    }

    let ghost mut corridors: Seq<Segment> = Seq::empty();
    let mut j: usize = 0;
    while j + 1 < rooms.len()
        invariant
            j + 1 <= rooms@.len() || j == 0,
            1 <= rooms@.len() <= ROOM_ATTEMPTS,
            forall|k: int| 0 <= k < rooms@.len() ==> (#[trigger] rooms@[k]).fits(MAP_WIDTH as int, MAP_HEIGHT as int),
            level.wf(),
            level.width == MAP_WIDTH,
            level.height == MAP_HEIGHT,
            level.entry == entry_point,
            level.actors@.len() == 0,
            level.player is None,
            forall|x: int, y: int| level.in_bounds(x, y) ==> !#[trigger] level.seen(x, y) && !level.known(x, y),
            corridors.len() == 2 * j,
            forall|k: int|
                0 <= k < j ==> joins(
                    #[trigger] corridors[2 * k],
                    corridors[2 * k + 1],
                    rooms@[k],
                    rooms@[k + 1],
                ),
            forall|x: int, y: int|
                level.in_bounds(x, y) ==> (#[trigger] level.tile(x, y) == Tile::Floor <==> dug(
                    rooms@,
                    corridors,
                    x,
                    y,
                )),
        decreases rooms@.len() - j,
    {
        let ghost before = level;
        let (a, b) = rooms[j].tunnel_to(&rooms[j + 1], &mut level, &mut rng);
        proof {
            let old_corridors = corridors;
            corridors = corridors.push(a).push(b);
            assert forall|x: int, y: int| level.in_bounds(x, y) implies (#[trigger] level.tile(x, y)
                == Tile::Floor <==> dug(rooms@, corridors, x, y)) by {
                lemma_dug_corridor(rooms@, old_corridors, a, x, y);
                lemma_dug_corridor(rooms@, old_corridors.push(a), b, x, y);
                assert(before.in_bounds(x, y));
            }
            assert forall|k: int| 0 <= k < j + 1 implies joins(
                #[trigger] corridors[2 * k],
                corridors[2 * k + 1],
                rooms@[k],
                rooms@[k + 1],
            ) by {
                if k < j {
                    assert(corridors[2 * k] == old_corridors[2 * k]);
                    assert(corridors[2 * k + 1] == old_corridors[2 * k + 1]);
                }
            }
            assert forall|x: int, y: int| level.in_bounds(x, y) implies !#[trigger] level.seen(x, y) && !level.known(x, y) by {
                assert(before.seen(x, y) == level.seen(x, y));
            }
        }
        j = j + 1;
    }

    // the room each monster was placed in
    let ghost mut origin: Seq<int> = Seq::empty();
    let mut m: usize = 0;
    while m < rooms.len()
        invariant
            m <= rooms@.len(),
            apart(rooms@),
            origin.len() == level.actors@.len(),
            forall|k: int|
                0 <= k < origin.len() ==> 0 <= #[trigger] origin[k] < m && rooms@[origin[k]].interior_has(
                    level.actors@[k].x as int,
                    level.actors@[k].y as int,
                ),
            forall|p: int, r: int| 0 <= p && p + 2 <= r < origin.len() ==> #[trigger] origin[p] < #[trigger] origin[r],
            1 <= rooms@.len() <= ROOM_ATTEMPTS,
            forall|k: int| 0 <= k < rooms@.len() ==> (#[trigger] rooms@[k]).fits(MAP_WIDTH as int, MAP_HEIGHT as int),
            level.wf(),
            level.width == MAP_WIDTH,
            level.height == MAP_HEIGHT,
            level.entry == entry_point,
            level.player is None,
            forall|x: int, y: int| level.in_bounds(x, y) ==> !#[trigger] level.seen(x, y) && !level.known(x, y),
            forall|x: int, y: int|
                level.in_bounds(x, y) ==> (#[trigger] level.tile(x, y) == Tile::Floor <==> dug(
                    rooms@,
                    corridors,
                    x,
                    y,
                )),
            spread(level.actors@),
            housed(level.actors@, rooms@),
        decreases rooms@.len() - m,
    {
        let ghost before = level;
        place_monsters(&rooms[m], &mut level, &mut rng);
        proof {
            let old_origin = origin;
            let added = level.actors@.len() - before.actors@.len();
            origin = old_origin + Seq::new(added as nat, |k: int| m as int);
            assert forall|k: int| 0 <= k < origin.len() implies 0 <= #[trigger] origin[k] < m + 1
                && rooms@[origin[k]].interior_has(level.actors@[k].x as int, level.actors@[k].y as int) by {
                if k < before.actors@.len() {
                    assert(level.actors@[k] == level.actors@.subrange(0, before.actors@.len() as int)[k]);
                    assert(origin[k] == old_origin[k]);
                } else {
                    assert(origin[k] == m);
                }
            }
            assert forall|p: int, r: int| 0 <= p && p + 2 <= r < origin.len() implies #[trigger] origin[p]
                < #[trigger] origin[r] by {
                if r < old_origin.len() {
                    assert(origin[p] == old_origin[p] && origin[r] == old_origin[r]);
                } else {
                    assert(p < old_origin.len());
                    assert(origin[p] == old_origin[p]);
                }
            }
            assert forall|k: int| 0 <= k < level.actors@.len() implies {
                &&& (#[trigger] level.actors@[k]).glyph != Glyph::Player
                &&& exists|i: int|
                    0 <= i < rooms@.len() && #[trigger] rooms@[i].interior_has(
                        level.actors@[k].x as int,
                        level.actors@[k].y as int,
                    )
            } by {
                if k < before.actors@.len() {
                    assert(level.actors@[k] == level.actors@.subrange(0, before.actors@.len() as int)[k]);
                } else {
                    assert(rooms@[m as int].interior_has(level.actors@[k].x as int, level.actors@[k].y as int));
                }
            }
            assert forall|x: int, y: int| level.in_bounds(x, y) implies !#[trigger] level.seen(x, y) && !level.known(x, y) by {
                assert(before.seen(x, y) == level.seen(x, y));
            }
            assert forall|x: int, y: int| level.in_bounds(x, y) implies (#[trigger] level.tile(x, y)
                == Tile::Floor <==> dug(rooms@, corridors, x, y)) by {
                assert(before.tile(x, y) == level.tile(x, y));
            }
        }
        m = m + 1;
    }
    proof {
        assert forall|i: int, p: int, q: int, r: int|
            #![trigger rooms@[i], level.actors@[p], level.actors@[q], level.actors@[r]]
            0 <= i < rooms@.len() && 0 <= p < q && q < r < level.actors@.len() implies !(
            rooms@[i].interior_has(level.actors@[p].x as int, level.actors@[p].y as int)
                && rooms@[i].interior_has(level.actors@[q].x as int, level.actors@[q].y as int)
                && rooms@[i].interior_has(level.actors@[r].x as int, level.actors@[r].y as int)) by {
            if rooms@[i].interior_has(level.actors@[p].x as int, level.actors@[p].y as int)
                && rooms@[i].interior_has(level.actors@[r].x as int, level.actors@[r].y as int) {
                let op = origin[p];
                let or = origin[r];
                assert(op < or);
                assert(rooms@[op].interior_has(level.actors@[p].x as int, level.actors@[p].y as int));
                assert(rooms@[or].interior_has(level.actors@[r].x as int, level.actors@[r].y as int));
                assert(rooms@[op].overlaps(&rooms@[i]));
                assert(rooms@[or].overlaps(&rooms@[i]));
                if op < i {
                    assert(!rooms@[op].overlaps(&rooms@[i]));
                } else if i < op {
                    assert(!rooms@[i].overlaps(&rooms@[op]));
                }
                if or < i {
                    assert(!rooms@[or].overlaps(&rooms@[i]));
                } else if i < or {
                    assert(!rooms@[i].overlaps(&rooms@[or]));
                }
            }
        }
    }
    assert(laid_out(&level, rooms@, corridors));
    level
}

/// In a generated level no two rooms overlap, every room's interior is
/// floor, and every corridor run is straight and all floor.
pub proof fn generated_rooms_apart_and_open(level: &Level, rooms: Seq<Room>, corridors: Seq<Segment>)
    requires
        laid_out(level, rooms, corridors),
    ensures
        forall|i: int, j: int|
            #![trigger rooms[i], rooms[j]]
            0 <= i < rooms.len() && 0 <= j < rooms.len() && i != j ==> !rooms[i].overlaps(&rooms[j]),
        forall|i: int, x: int, y: int|
            0 <= i < rooms.len() && #[trigger] rooms[i].interior_has(x, y) ==> level.tile(x, y)
                == Tile::Floor,
        forall|j: int| 0 <= j < corridors.len() ==> (#[trigger] corridors[j]).straight(),
        forall|j: int, x: int, y: int|
            0 <= j < corridors.len() && #[trigger] corridors[j].covers(x, y) ==> level.tile(x, y)
                == Tile::Floor,
{
    assert forall|i: int, j: int|
        #![trigger rooms[i], rooms[j]]
        0 <= i < rooms.len() && 0 <= j < rooms.len() && i != j implies !rooms[i].overlaps(&rooms[j]) by {
        if j < i {
            assert(!rooms[j].overlaps(&rooms[i]));
        }
    }
    assert forall|i: int, x: int, y: int|
        0 <= i < rooms.len() && #[trigger] rooms[i].interior_has(x, y) implies level.tile(x, y)
        == Tile::Floor by {
        assert(rooms[i].fits(MAP_WIDTH as int, MAP_HEIGHT as int));
        assert(level.in_bounds(x, y));
    }
    assert forall|j: int| 0 <= j < corridors.len() implies (#[trigger] corridors[j]).straight() by {
        let k = j / 2;
        assert(0 <= k < rooms.len() - 1);
        assert(joins(corridors[2 * k], corridors[2 * k + 1], rooms[k], rooms[k + 1]));
    }
    assert forall|j: int, x: int, y: int|
        0 <= j < corridors.len() && #[trigger] corridors[j].covers(x, y) implies level.tile(x, y)
        == Tile::Floor by {
        let k = j / 2;
        assert(0 <= k < rooms.len() - 1);
        assert(joins(corridors[2 * k], corridors[2 * k + 1], rooms[k], rooms[k + 1]));
        let a = corridors[2 * k];
        let b = corridors[2 * k + 1];
        assert(rooms[k].fits(MAP_WIDTH as int, MAP_HEIGHT as int));
        assert(rooms[k + 1].fits(MAP_WIDTH as int, MAP_HEIGHT as int));
        assert(level.in_bounds(x, y));
    }
}

} // verus!
