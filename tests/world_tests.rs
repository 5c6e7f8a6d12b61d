use goblin_castle::logic::fov::{self, compute_fov, RADIUS};
use goblin_castle::logic::generate::{generate_level, keep_apart, place_rooms, Room, MAP_HEIGHT, MAP_WIDTH};
use goblin_castle::logic::level::Level;
use goblin_castle::logic::messages::MessageLog;
use goblin_castle::logic::{Entity, Game, Glyph, Tile};
use rand::rngs::SmallRng;
use rand::SeedableRng;

#[test]
fn bresenham_line_points() {
    assert_eq!(fov::line(0, 0, 3, 1), vec![(0, 0), (1, 0), (2, 1), (3, 1)]);
    assert_eq!(fov::line(2, 2, 2, 2), vec![(2, 2)]);
    assert_eq!(fov::line(0, 0, -2, -2), vec![(0, 0), (-1, -1), (-2, -2)]);
    assert_eq!(fov::line(5, 1, 5, -2), vec![(5, 1), (5, 0), (5, -1), (5, -2)]);
}

#[test]
fn open_field_sees_the_disc() {
    let (w, h) = (30i32, 30i32);
    let transparent = vec![true; (w * h) as usize];
    let mut visible = vec![true; (w * h) as usize];
    compute_fov(&mut visible, w, h, &transparent, 15, 15);
    for y in 0..h {
        for x in 0..w {
            let d = (x - 15) * (x - 15) + (y - 15) * (y - 15);
            assert_eq!(visible[(y * w + x) as usize], d <= RADIUS * RADIUS, "at {x},{y}");
        }
    }
}

#[test]
fn wall_blocks_sight_but_is_seen() {
    let (w, h) = (20i32, 9i32);
    let mut transparent = vec![true; (w * h) as usize];
    for y in 0..h {
        transparent[(y * w + 12) as usize] = false;
    }
    let mut visible = vec![false; (w * h) as usize];
    compute_fov(&mut visible, w, h, &transparent, 10, 4);
    assert!(visible[(4 * w + 12) as usize]);
    assert!(!visible[(4 * w + 13) as usize]);
    assert!(visible[(4 * w + 10) as usize]);
    assert!(visible[(4 * w + 3) as usize]);
    assert!(!visible[(4 * w + 1) as usize]);
}

#[test]
fn visibility_stays_in_radius_and_grid() {
    let (w, h) = (12i32, 10i32);
    let transparent = vec![true; (w * h) as usize];
    let mut visible = vec![false; (w * h) as usize];
    compute_fov(&mut visible, w, h, &transparent, 0, 0);
    for y in 0..h {
        for x in 0..w {
            if visible[(y * w + x) as usize] {
                assert!(x * x + y * y <= RADIUS * RADIUS);
            }
        }
    }
    assert!(visible[0]);
    assert!(visible[8]);
    assert!(!visible[9]);
}

fn corridor_game() -> Game {
    let mut level = Level::new(80, 24, (40, 12));
    for x in 25..=55 {
        level.set_tile(x, 12, Tile::Floor);
    }
    level.add_player(Entity::new(40, 12, Glyph::Player));
    level.update_vision();
    Game { level, log: MessageLog::new(10) }
}

#[test]
fn player_walks_left_until_the_corridor_ends() {
    let mut game = corridor_game();
    for expected_x in (25..40).rev() {
        assert_eq!(game.move_player(-1, 0), Ok(()));
        assert_eq!(game.level().player().unwrap().pos(), (expected_x, 12));
    }
    assert_eq!(game.move_player(-1, 0), Err(()));
    assert_eq!(game.level().player().unwrap().pos(), (25, 12));
}

#[test]
fn moves_into_walls_or_off_the_map_fail() {
    let mut game = corridor_game();
    assert_eq!(game.move_player(0, 1), Err(()));
    assert_eq!(game.level().player().unwrap().pos(), (40, 12));
    let mut level = Level::new(3, 3, (0, 0));
    level.set_tile(0, 0, Tile::Floor);
    level.add_player(Entity::new(0, 0, Glyph::Player));
    level.update_vision();
    let mut edge = Game { level, log: MessageLog::new(10) };
    assert_eq!(edge.move_player(-1, 0), Err(()));
    assert_eq!(edge.move_player(0, -1), Err(()));
    assert_eq!(edge.level().player().unwrap().pos(), (0, 0));
}

#[test]
fn a_move_passes_a_turn_and_updates_sight() {
    let mut game = corridor_game();
    assert!(game.level().is_visible(48, 12));
    assert!(!game.level().is_visible(49, 12));
    assert_eq!(game.move_player(1, 0), Ok(()));
    assert_eq!(game.log().curr_turn, 1);
    assert!(game.level().is_visible(49, 12));
    assert!(!game.level().is_visible(32, 12));
    assert!(game.level().is_explored(32, 12));
}

#[test]
fn explored_never_shrinks() {
    let mut game = corridor_game();
    let mut before: Vec<bool> = game.level().explored.clone();
    for step in [-1i8, -1, -1, 1, 1, 1, 1, 1, 1, 1] {
        let _ = game.move_player(step, 0);
        let now = game.level().explored.clone();
        for (b, n) in before.iter().zip(now.iter()) {
            assert!(!*b || *n);
        }
        before = now;
    }
}

#[test]
fn generated_levels_are_well_formed() {
    for seed in 0..30u64 {
        let level = generate_level(seed);
        assert_eq!((level.width(), level.height()), (MAP_WIDTH, MAP_HEIGHT));
        let (ex, ey) = level.entry();
        assert_eq!(level.get_tile(ex, ey), Tile::Floor);
        assert!(level.player().is_none());
        let actors = level.actors();
        for (i, a) in actors.iter().enumerate() {
            assert_eq!(level.get_tile(a.x(), a.y()), Tile::Floor);
            assert!(!matches!(a.glyph, Glyph::Player));
            for b in &actors[i + 1..] {
                assert_ne!(a.pos(), b.pos());
            }
        }
        // the border of the map is never dug
        for x in 0..MAP_WIDTH {
            assert_eq!(level.get_tile(x, 0), Tile::Wall);
            assert_eq!(level.get_tile(x, MAP_HEIGHT - 1), Tile::Wall);
        }
    }
}

#[test]
fn same_seed_same_level() {
    let a = generate_level(7);
    let b = generate_level(7);
    assert_eq!(a.tiles, b.tiles);
    assert_eq!(a.entry, b.entry);
    assert_eq!(a.actors, b.actors);
}

#[test]
fn monsters_of_both_kinds_appear() {
    let mut goblins = 0;
    let mut hobgoblins = 0;
    for seed in 0..40u64 {
        for a in generate_level(seed).actors() {
            match a.glyph {
                Glyph::Goblin => goblins += 1,
                Glyph::Hobgobin => hobgoblins += 1,
                Glyph::Player => panic!("a player among the monsters"),
            }
        }
    }
    assert!(goblins > hobgoblins);
    assert!(hobgoblins > 0);
}

#[test]
fn placed_rooms_never_intersect() {
    for seed in 0..50u64 {
        let mut rng = SmallRng::seed_from_u64(seed);
        let rooms = place_rooms(&mut rng, MAP_WIDTH, MAP_HEIGHT);
        assert!(!rooms.is_empty() && rooms.len() <= 40);
        for (i, a) in rooms.iter().enumerate() {
            assert!(a.x1 < MAP_WIDTH && a.y1 < MAP_HEIGHT);
            let (w, h) = (a.x1 - a.x0 + 1, a.y1 - a.y0 + 1);
            assert!((6..=MAP_WIDTH / 3).contains(&w) && (6..=MAP_HEIGHT / 3).contains(&h));
            for b in &rooms[i + 1..] {
                assert!(!a.intersects(b));
                assert!(!b.intersects(a));
            }
        }
    }
}

#[test]
fn rooms_vary_in_place_and_size() {
    let mut rng = SmallRng::seed_from_u64(3);
    let rooms = place_rooms(&mut rng, MAP_WIDTH, MAP_HEIGHT);
    assert!(rooms.len() >= 2);
    assert!(rooms.iter().any(|r| r.x0 > 0));
    assert!(rooms.iter().any(|r| r.x1 - r.x0 + 1 > 6));
}

#[test]
fn new_game_puts_player_at_entry() {
    let game = Game::new(11);
    let level = game.level();
    let p = level.player().unwrap();
    assert_eq!(p.pos(), level.entry());
    assert!(matches!(p.glyph, Glyph::Player));
    assert!(level.is_visible(p.x(), p.y()));
    assert!(level.is_explored(p.x(), p.y()));
    assert_eq!(game.log().len(), 0);
}

#[test]
fn log_evicts_oldest_past_capacity() {
    let mut log = MessageLog::new(3);
    for i in 0..5 {
        log.append(format!("m{i}"));
    }
    assert_eq!(log.len(), 3);
    assert_eq!(log.peek(0, 10), vec!["m2", "m3", "m4"]);
    assert_eq!(log.peek(1, 1), vec!["m3"]);
    assert!(log.peek(3, 2).is_empty());
}

#[test]
fn latest_returns_newest_last_with_ages() {
    let mut log = MessageLog::new(10);
    log.append("first".to_string());
    log.start_turn();
    log.append("second".to_string());
    log.start_turn();
    log.start_turn();
    log.append("third".to_string());
    assert_eq!(
        log.latest(2),
        vec![("second".to_string(), 2), ("third".to_string(), 0)]
    );
    assert_eq!(log.latest(10).len(), 3);
    assert_eq!(log.latest(0).len(), 0);
    assert_eq!(log.latest(10)[0], ("first".to_string(), 3));
}

#[test]
fn empty_log_and_zero_capacity() {
    let mut log = MessageLog::new(0);
    log.append("gone".to_string());
    assert_eq!(log.len(), 0);
    assert!(log.latest(4).is_empty());
}

#[test]
fn line_between_far_off_points() {
    assert_eq!(
        fov::line(2_000_000_000, -2_000_000_000, 2_000_000_002, -1_999_999_999),
        vec![(2_000_000_000, -2_000_000_000), (2_000_000_001, -1_999_999_999), (2_000_000_002, -1_999_999_999)]
    );
    assert_eq!(fov::line(0, 0, 2, 1), vec![(0, 0), (1, 1), (2, 1)]);
}

#[test]
fn large_levels_hold_entities_past_a_byte() {
    let mut level = Level::new(300, 3, (0, 0));
    for x in 250..300 {
        level.set_tile(x, 1, Tile::Floor);
    }
    level.add_player(Entity::new(280, 1, Glyph::Player));
    level.update_vision();
    let mut game = Game { level, log: MessageLog::new(10) };
    assert_eq!(game.move_player(1, 0), Ok(()));
    assert_eq!(game.level().player().unwrap().pos(), (281, 1));
    assert!(game.level().is_visible(289, 1));
    assert!(!game.level().is_visible(290, 1));
}

#[test]
fn keep_apart_keeps_first_of_overlapping() {
    let a = Room { x0: 0, y0: 0, x1: 6, y1: 6 };
    let b = Room { x0: 5, y0: 5, x1: 11, y1: 11 };
    let c = Room { x0: 20, y0: 0, x1: 26, y1: 6 };
    let d = Room { x0: 6, y0: 0, x1: 12, y1: 4 };
    assert_eq!(keep_apart(&vec![a, b, c, d]), vec![a, c]);
    assert_eq!(keep_apart(&vec![b, a, c]), vec![b, c]);
    assert!(keep_apart(&vec![]).is_empty());
}

#[test]
fn line_steps_are_unit_and_count_is_longer_span() {
    let pts = fov::line(3, -4, -7, 2);
    assert_eq!(pts.len(), 11);
    assert_eq!(pts[0], (3, -4));
    assert_eq!(pts[10], (-7, 2));
    for w in pts.windows(2) {
        let (ddx, ddy) = (w[1].0 - w[0].0, w[1].1 - w[0].1);
        assert!(ddx == 0 || ddx == -1);
        assert!(ddy == 0 || ddy == 1);
        assert!((ddx, ddy) != (0, 0));
    }
    let long = fov::line(0, 0, 100_000, 3);
    assert_eq!(long.len(), 100_001);
    assert_eq!(long[100_000], (100_000, 3));
}

#[test]
fn tunnel_joins_rooms_with_two_straight_runs() {
    let a = Room { x0: 1, y0: 1, x1: 7, y1: 7 };
    let b = Room { x0: 30, y0: 12, x1: 38, y1: 18 };
    let mut level = Level::new(40, 20, (0, 0));
    let mut rng = SmallRng::seed_from_u64(5);
    let (s, t) = a.tunnel_to(&b, &mut level, &mut rng);
    assert!(s.x0 == s.x1 || s.y0 == s.y1);
    assert!(t.x0 == t.x1 || t.y0 == t.y1);
    assert_eq!((s.x1, s.y1), (t.x0, t.y0));
    assert!(s.x0 > 1 && s.x0 < 7 && t.y1 > 12 && t.y1 < 18);
    let floors = level.tiles.iter().filter(|t| **t == Tile::Floor).count();
    let run = |a: usize, b: usize| if a > b { a - b } else { b - a };
    let expected = run(s.x0, s.x1) + run(s.y0, s.y1) + run(t.x0, t.x1) + run(t.y0, t.y1) + 1;
    assert_eq!(floors, expected);
}

#[test]
fn latest_ages_never_increase() {
    let mut log = MessageLog::new(5);
    for i in 0..8 {
        log.append(format!("m{i}"));
        if i % 3 == 0 {
            log.start_turn();
        }
    }
    let latest = log.latest(5);
    for w in latest.windows(2) {
        assert!(w[0].1 >= w[1].1);
    }
}
