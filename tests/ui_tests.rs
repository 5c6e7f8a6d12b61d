use goblin_castle::console::{Cell, Color, Console, Event, Key};
use goblin_castle::logic::level::Level;
use goblin_castle::logic::messages::MessageLog;
use goblin_castle::logic::{Entity, Game, Glyph, Tile};
use goblin_castle::ui::input::{map_play_command, map_scroll_command};
use goblin_castle::ui::render::{render_history_box, render_log, render_map};
use goblin_castle::ui::scenes::{AnyScene, Flow, HistoryPopup, PlayScreen, SceneStack, StartScreen};
use goblin_castle::ui::theme::{box_decoration, glyph, log_message_fg, visible_tile, Decoration};
use goblin_castle::ui::{Command, Scene, Transition, CONSOLE_HEIGHT, CONSOLE_WIDTH};

fn small_game() -> Game {
    let mut level = Level::new(20, 10, (5, 5));
    for x in 2..15 {
        level.set_tile(x, 5, Tile::Floor);
    }
    level.add_player(Entity::new(5, 5, Glyph::Player));
    level.add_actor(Entity::new(7, 5, Glyph::Goblin));
    level.update_vision();
    Game { level, log: MessageLog::new(100) }
}

#[test]
fn play_keys_map_to_commands() {
    assert_eq!(map_play_command(Event::KeyChar('k')), Some(Command::Move(0, -1)));
    assert_eq!(map_play_command(Event::KeyChar('n')), Some(Command::Move(1, 1)));
    assert_eq!(map_play_command(Event::KeySpecial(Key::Home)), Some(Command::Move(-1, -1)));
    assert_eq!(map_play_command(Event::KeySpecial(Key::PgDn)), Some(Command::Move(1, 1)));
    assert_eq!(map_play_command(Event::KeyChar('.')), Some(Command::Move(0, 0)));
    assert_eq!(map_play_command(Event::KeyChar('m')), Some(Command::History));
    assert_eq!(map_play_command(Event::KeyChar('z')), None);
    assert_eq!(map_play_command(Event::Abort), None);
}

#[test]
fn scroll_keys_map_to_commands() {
    assert_eq!(map_scroll_command(Event::KeySpecial(Key::Home)), Some(Command::Scroll(i8::MIN)));
    assert_eq!(map_scroll_command(Event::KeySpecial(Key::End)), Some(Command::Scroll(i8::MAX)));
    assert_eq!(map_scroll_command(Event::KeySpecial(Key::PgUp)), Some(Command::Scroll(-10)));
    assert_eq!(map_scroll_command(Event::KeySpecial(Key::Down)), Some(Command::Scroll(1)));
    assert_eq!(map_scroll_command(Event::KeyChar('k')), None);
}

#[test]
fn theme_values() {
    assert_eq!(glyph(&Glyph::Goblin), Cell::new('g', Color::BrightRed, Color::Black));
    assert_eq!(visible_tile(&Tile::Wall), Cell::new('#', Color::BrightWhite, Color::Black));
    assert_eq!(log_message_fg(0), Color::BrightWhite);
    assert_eq!(log_message_fg(1), Color::White);
    assert_eq!(log_message_fg(7), Color::BrightBlack);
    assert_eq!(box_decoration(Decoration::TopLeftCorner).ch, '┌');
}

#[test]
fn start_screen_switches_to_play_on_any_key() {
    let mut game = small_game();
    let mut stack = SceneStack::new();
    assert_eq!(stack.active, AnyScene::Start(StartScreen));
    assert_eq!(stack.handle_event(&mut game, Event::KeyChar('q')), Flow::Continue);
    assert_eq!(stack.active, AnyScene::Play(PlayScreen));
    assert!(stack.suspended.is_empty());
}

#[test]
fn history_popup_round_trip_keeps_play_state() {
    let mut game = small_game();
    let mut stack = SceneStack::new();
    stack.handle_event(&mut game, Event::KeyChar(' '));
    assert_eq!(stack.handle_event(&mut game, Event::KeyChar('l')), Flow::Continue);
    let pos = game.level().player().unwrap().pos();
    let turn = game.log().curr_turn;
    assert_eq!(stack.handle_event(&mut game, Event::KeyChar('m')), Flow::Continue);
    assert_eq!(stack.active, AnyScene::History(HistoryPopup { from_bottom: 0 }));
    assert_eq!(stack.suspended, vec![AnyScene::Play(PlayScreen)]);
    assert_eq!(stack.handle_event(&mut game, Event::KeySpecial(Key::Up)), Flow::Continue);
    assert_eq!(stack.handle_event(&mut game, Event::KeyChar('x')), Flow::Continue);
    assert_eq!(stack.active, AnyScene::Play(PlayScreen));
    assert!(stack.suspended.is_empty());
    assert_eq!(game.level().player().unwrap().pos(), pos);
    assert_eq!(game.log().curr_turn, turn);
}

#[test]
fn pop_with_nothing_below_quits() {
    let mut game = small_game();
    let mut stack = SceneStack { active: AnyScene::History(HistoryPopup::new()), suspended: vec![] };
    assert_eq!(stack.handle_event(&mut game, Event::KeyChar('q')), Flow::Quit);
    assert_eq!(stack.handle_event(&mut game, Event::KeyChar('q')), Flow::Quit);
}

#[test]
fn abort_quits_at_once() {
    let mut game = small_game();
    let mut stack = SceneStack::new();
    assert_eq!(stack.handle_event(&mut game, Event::Abort), Flow::Quit);
    assert_eq!(stack.active, AnyScene::Start(StartScreen));
}

#[test]
fn rejected_keys_and_moves_beep() {
    let mut game = small_game();
    let mut play = PlayScreen;
    assert!(matches!(play.handle_event(&mut game, Event::KeyChar('z')), Transition::Beep));
    assert!(matches!(play.handle_event(&mut game, Event::KeyChar('k')), Transition::Beep));
    assert!(matches!(play.handle_event(&mut game, Event::KeyChar('l')), Transition::Okay));
    let mut stack = SceneStack { active: AnyScene::Play(PlayScreen), suspended: vec![] };
    assert_eq!(stack.handle_event(&mut game, Event::KeyChar('j')), Flow::Alert);
}

#[test]
fn history_scrolls_within_bounds() {
    let mut game = small_game();
    for i in 0..40 {
        game.log.append(format!("line {i}"));
    }
    // 40 messages, 35 rows: at most 5 lines up
    let mut popup = HistoryPopup::new();
    assert!(matches!(popup.handle_event(&mut game, Event::KeySpecial(Key::Up)), Transition::Okay));
    assert_eq!(popup.from_bottom, 1);
    popup.handle_event(&mut game, Event::KeySpecial(Key::PgUp));
    assert_eq!(popup.from_bottom, 5);
    popup.handle_event(&mut game, Event::KeySpecial(Key::Down));
    assert_eq!(popup.from_bottom, 4);
    popup.handle_event(&mut game, Event::KeySpecial(Key::End));
    assert_eq!(popup.from_bottom, 0);
    popup.handle_event(&mut game, Event::KeySpecial(Key::Down));
    assert_eq!(popup.from_bottom, 0);
    popup.handle_event(&mut game, Event::KeySpecial(Key::Home));
    assert_eq!(popup.from_bottom, 5);
    assert!(matches!(popup.handle_event(&mut game, Event::KeyChar('q')), Transition::Pop));
}

#[test]
fn map_shows_player_seen_tiles_and_monsters() {
    let game = small_game();
    let mut console = Console::new(CONSOLE_WIDTH, CONSOLE_HEIGHT);
    render_map(&mut console, &game);
    assert_eq!(console.back.get(5, 9).ch, '@');
    assert_eq!(console.back.get(7, 9).ch, 'g');
    assert_eq!(console.back.get(6, 9), Cell::new('.', Color::BrightWhite, Color::Black));
    assert_eq!(console.back.get(5, 8), Cell::new('#', Color::BrightWhite, Color::Black));
    assert_eq!(console.cursor, Some((5, 9)));
}

#[test]
fn log_lines_show_newest_last() {
    let mut game = small_game();
    for i in 0..6 {
        game.log.append(format!("msg{i}"));
    }
    game.log.start_turn();
    game.log.append("now".to_string());
    let mut console = Console::new(CONSOLE_WIDTH, CONSOLE_HEIGHT);
    render_log(&mut console, &game);
    assert_eq!(console.back.get(0, 0), Cell::new('m', Color::White, Color::Black));
    assert_eq!(console.back.get(3, 2), Cell::new('5', Color::White, Color::Black));
    assert_eq!(console.back.get(0, 3), Cell::new('n', Color::BrightWhite, Color::Black));
    assert_eq!(console.back.get(0, 4).ch, ' ');
}

#[test]
fn history_box_lists_messages_from_scroll() {
    let mut game = small_game();
    for i in 0..3 {
        game.log.append(format!("entry {i}"));
    }
    let mut console = Console::new(CONSOLE_WIDTH, CONSOLE_HEIGHT);
    render_history_box(&mut console, &game, 1);
    assert_eq!(console.back.get(8, 4), Cell::new('e', Color::White, Color::Black));
    assert_eq!(console.back.get(14, 4).ch, '1');
    assert_eq!(console.back.get(14, 5).ch, '2');
    assert_eq!(console.back.get(8, 6).ch, ' ');
    assert_eq!(console.back.get(6, 3).ch, '┌');
    assert_eq!(console.back.get(73, 39).ch, '┘');
}

#[test]
fn stack_renders_popup_over_dimmed_play() {
    let mut game = small_game();
    let mut stack = SceneStack::new();
    stack.handle_event(&mut game, Event::KeyChar('a'));
    stack.handle_event(&mut game, Event::KeyChar('m'));
    let mut console = Console::new(CONSOLE_WIDTH, CONSOLE_HEIGHT);
    stack.render(&game, &mut console);
    assert_eq!(console.back.get(5, 9), Cell::new('@', Color::BrightBlack, Color::Black));
    assert_eq!(console.cursor, None);
}

#[test]
fn history_box_title_and_footer() {
    let game = small_game();
    let mut console = Console::new(CONSOLE_WIDTH, CONSOLE_HEIGHT);
    render_history_box(&mut console, &game, 0);
    assert_eq!(console.back.get(31, 3).ch, '┤');
    assert_eq!(console.back.get(32, 3).ch, ' ');
    assert_eq!(console.back.get(33, 3), Cell::new('M', Color::BrightWhite, Color::Black));
    assert_eq!(console.back.get(49, 3).ch, '├');
    assert_eq!(console.back.get(50, 3).ch, '─');
    assert_eq!(console.back.get(63, 39).ch, '┤');
    assert_eq!(console.back.get(65, 39).ch, 'U');
    assert_eq!(console.back.get(71, 39).ch, '├');
    assert_eq!(console.back.get(72, 39).ch, '─');
    assert_eq!(console.back.get(6, 20).ch, '│');
}
