//! The title screen, the play screen and the history popup, and the stack
//! of scenes that routes input to the active one.
use vstd::prelude::*;

use super::input::{map_play_command, map_scroll_command, play_command, scroll_command};
use super::render::{
    self, fits_screen, history_cell, log_line, log_shown, map_cell, only_touches, HISTORY_HEIGHT,
    HISTORY_WIDTH, HISTORY_X, HISTORY_Y,
};
use super::theme::message_fg;
use super::{CONSOLE_HEIGHT, CONSOLE_WIDTH, LOG_OFFSET_X, LOG_OFFSET_Y, MAP_OFFSET_X, MAP_OFFSET_Y, POPUP_MARGIN_H, POPUP_MARGIN_V};
use crate::console::Cell;
use super::{Command, Scene, Transition};
use crate::console::{Color, Console, Event};
use crate::logic::Game;

verus! {

/// The title screen: any key starts the game.
#[derive(Clone, Copy, PartialEq, Eq, Structural, Debug)]
pub struct StartScreen;

/// The map, the player and the latest messages.
#[derive(Clone, Copy, PartialEq, Eq, Structural, Debug)]
pub struct PlayScreen;

/// The message history over the dimmed play screen, scrolled `from_bottom`
/// lines up from the newest page.
#[derive(Clone, Copy, PartialEq, Eq, Structural, Debug)]
pub struct HistoryPopup {
    pub from_bottom: usize,
}

/// How far up the history can be scrolled: the messages that do not fit on
/// the last page.
pub open spec fn max_scroll(game: &Game) -> int {
    let len = game.log.messages@.len() as int;
    if len > HISTORY_HEIGHT {
        len - HISTORY_HEIGHT
    } else {
        0
    }
}

/// Where the history stands after scrolling by `delta` lines from `from`:
/// the extreme deltas jump to the oldest or newest page, the others move
/// by that many lines, kept within `0..=max`.
pub open spec fn scrolled(from: int, delta: i8, max: int) -> int {
    if delta == i8::MIN {
        max
    } else if delta == i8::MAX {
        0
    } else {
        let v = from - delta;
        if v < 0 {
            0
        } else if v > max {
            max
        } else {
            v
        }
    }
}

impl Scene for StartScreen {
    open spec fn reacts(
        &self,
        next: &Self,
        game: &Game,
        next_game: &Game,
        event: Event,
        t: Transition,
    ) -> bool {
        *next_game == *game && t == Transition::Switch(AnyScene::Play(PlayScreen))
    }

    /// The greeting on row 21 from column 27, with the cursor after it.
    open spec fn draws(&self, game: &Game, before: &Console, after: &Console) -> bool {
        let greeting = "Press any key to start..."@;
        &&& only_touches(before, after, 27, 21, 27 + greeting.len() as int, 22)
        &&& after.cursor == Some((52usize, 21usize))
        &&& forall|i: int|
            27 <= i < 27 + greeting.len() ==> #[trigger] after.back.at(i, 21) == (Cell {
                ch: greeting[i - 27],
                fg: Color::Default,
                bg: Color::Default,
            })
    }

    fn render(&self, _game: &Game, console: &mut Console) {
        let greeting = "Press any key to start...";
        proof {
            reveal_strlit("Press any key to start...");
        }
        console.print(27, 21, greeting, Color::Default, Color::Default);
        console.show_cursor(52, 21);
    }

    fn handle_event(&mut self, _game: &mut Game, _event: Event) -> (t: Transition) {
        Transition::Switch(AnyScene::Play(PlayScreen))
    }
}

impl Scene for PlayScreen {
    /// A movement key tries the move and beeps if it is refused; `m` opens
    /// the history at its newest page; any other key beeps.
    open spec fn reacts(
        &self,
        next: &Self,
        game: &Game,
        next_game: &Game,
        event: Event,
        t: Transition,
    ) -> bool {
        match play_command(event) {
            Some(Command::Move(dx, dy)) => {
                &&& t is Okay || t is Beep
                &&& game.moved(next_game, dx as int, dy as int, t is Okay)
            },
            Some(Command::History) => {
                &&& *next_game == *game
                &&& t == Transition::Push(AnyScene::History(HistoryPopup { from_bottom: 0 }))
            },
            _ => *next_game == *game && t is Beep,
        }
    }

    /// The map below the newest messages, with the cursor on the player.
    open spec fn draws(&self, game: &Game, before: &Console, after: &Console) -> bool {
        &&& only_touches(before, after, 0, 0, CONSOLE_WIDTH as int, MAP_OFFSET_Y + game.level.height)
        &&& after.cursor == Some(
            (
                (game.level.player->Some_0.x + MAP_OFFSET_X) as usize,
                (game.level.player->Some_0.y + MAP_OFFSET_Y) as usize,
            ),
        )
        &&& forall|x: int, y: int|
            game.level.in_bounds(x, y) ==> #[trigger] after.back.at(x + MAP_OFFSET_X, y + MAP_OFFSET_Y)
                == map_cell(game, x, y, before.back.at(x + MAP_OFFSET_X, y + MAP_OFFSET_Y))
        &&& forall|i: int, n: int|
            0 <= i < CONSOLE_WIDTH && 0 <= n < log_shown(game) ==> #[trigger] after.back.at(i, LOG_OFFSET_Y + n)
                == if LOG_OFFSET_X <= i < LOG_OFFSET_X + log_line(game, n).0@.len() {
                Cell {
                    ch: log_line(game, n).0@[i - LOG_OFFSET_X],
                    fg: message_fg((game.log.curr_turn - log_line(game, n).1) as u64),
                    bg: Color::Black,
                }
            } else {
                before.back.at(i, LOG_OFFSET_Y + n)
            }
    }

    fn render(&self, game: &Game, console: &mut Console) {
        let ghost start = *console;
        render::render_map(console, game);
        let ghost mid = *console;
        render::render_log(console, game);
        proof {
            assert forall|x: int, y: int| game.level.in_bounds(x, y) implies #[trigger] console.back.at(
                x + MAP_OFFSET_X,
                y + MAP_OFFSET_Y,
            ) == map_cell(game, x, y, start.back.at(x + MAP_OFFSET_X, y + MAP_OFFSET_Y)) by {
                assert(mid.back.at(x + MAP_OFFSET_X, y + MAP_OFFSET_Y) == map_cell(
                    game,
                    x,
                    y,
                    start.back.at(x + MAP_OFFSET_X, y + MAP_OFFSET_Y),
                ));
                assert(mid.back.in_bounds(x + MAP_OFFSET_X, y + MAP_OFFSET_Y));
            }
            assert forall|i: int, n: int| 0 <= i < CONSOLE_WIDTH && 0 <= n < log_shown(game) implies
                #[trigger] console.back.at(i, LOG_OFFSET_Y + n) == if LOG_OFFSET_X <= i < LOG_OFFSET_X
                + log_line(game, n).0@.len() {
                Cell {
                    ch: log_line(game, n).0@[i - LOG_OFFSET_X],
                    fg: message_fg((game.log.curr_turn - log_line(game, n).1) as u64),
                    bg: Color::Black,
                }
            } else {
                start.back.at(i, LOG_OFFSET_Y + n)
            } by {
                assert(start.back.in_bounds(i, LOG_OFFSET_Y + n));
                assert(mid.back.at(i, LOG_OFFSET_Y + n) == start.back.at(i, LOG_OFFSET_Y + n));
            }
            assert forall|i: int, j: int|
                start.back.in_bounds(i, j) && !(0 <= i < CONSOLE_WIDTH && 0 <= j < MAP_OFFSET_Y
                    + game.level.height) implies #[trigger] console.back.at(i, j) == start.back.at(i, j) by {
                assert(mid.back.at(i, j) == start.back.at(i, j));
            }
        }
    }

    fn handle_event(&mut self, game: &mut Game, event: Event) -> (t: Transition) {
        match map_play_command(event) {
            Some(command) => match command {
                Command::Move(dx, dy) => match game.move_player(dx, dy) {
                    Ok(_) => Transition::Okay,
                    Err(_) => Transition::Beep,
                },
                Command::History => Transition::Push(AnyScene::History(HistoryPopup::new())),
                Command::Scroll(_) => Transition::Beep,
            },
            None => Transition::Beep,
        }
    }
}

impl HistoryPopup {
    /// The oldest message shown: the box ends `from_bottom` lines above the
    /// newest message.
    pub open spec fn top_line(&self, game: &Game) -> int {
        let len = game.log.messages@.len() as int;
        if len > HISTORY_HEIGHT + self.from_bottom {
            len - HISTORY_HEIGHT - self.from_bottom
        } else {
            0
        }
    }

    pub fn new() -> (r: HistoryPopup)
        ensures
            r.from_bottom == 0,
    {
        HistoryPopup { from_bottom: 0 }
    }
}

impl Scene for HistoryPopup {
    /// Scrolling keys move through the history; any other key closes it.
    /// The game is never changed.
    open spec fn reacts(
        &self,
        next: &Self,
        game: &Game,
        next_game: &Game,
        event: Event,
        t: Transition,
    ) -> bool {
        &&& *next_game == *game
        &&& match scroll_command(event) {
            Some(Command::Scroll(delta)) => t is Okay && next.from_bottom == scrolled(
                self.from_bottom as int,
                delta,
                max_scroll(game),
            ),
            _ => t is Pop && *next == *self,
        }
    }

    /// The history box from the scroll position over the dimmed frame,
    /// with the cursor hidden.
    open spec fn draws(&self, game: &Game, before: &Console, after: &Console) -> bool {
        &&& after.wf()
        &&& after.same_frame_size(before)
        &&& after.cursor is None
        &&& forall|i: int, j: int|
            before.back.in_bounds(i, j) && !(POPUP_MARGIN_H <= i < CONSOLE_WIDTH - POPUP_MARGIN_H
                && POPUP_MARGIN_V <= j < CONSOLE_HEIGHT - POPUP_MARGIN_V) ==> #[trigger] after.back.at(i, j)
                == before.back.at(i, j).dimmed()
        &&& forall|i: int, j: int|
            HISTORY_X <= i < HISTORY_X + HISTORY_WIDTH && HISTORY_Y <= j < HISTORY_Y + HISTORY_HEIGHT
                ==> #[trigger] after.back.at(i, j) == history_cell(game, self.top_line(game), i, j)
    }

    fn render(&self, game: &Game, console: &mut Console) {
        let ghost start = *console;
        console.hide_cursor();
        console.dim();
        let log_length = game.log().len();
        let hidden_below = if self.from_bottom < usize::MAX - HISTORY_HEIGHT {
            HISTORY_HEIGHT + self.from_bottom
        } else {
            usize::MAX
        };
        let scroll = if log_length > hidden_below {
            log_length - hidden_below
        } else {
            0
        };
        let ghost dimmed = *console;
        render::render_history_box(console, game, scroll);
        proof {
            assert(scroll == self.top_line(game));
            assert forall|i: int, j: int|
                start.back.in_bounds(i, j) && !(POPUP_MARGIN_H <= i < CONSOLE_WIDTH - POPUP_MARGIN_H
                    && POPUP_MARGIN_V <= j < CONSOLE_HEIGHT - POPUP_MARGIN_V) implies #[trigger] console.back.at(
                i,
                j,
            ) == start.back.at(i, j).dimmed() by {
                assert(dimmed.back.at(i, j) == start.back.at(i, j).dimmed());
            }
        }
    }

    fn handle_event(&mut self, game: &mut Game, event: Event) -> (t: Transition) {
        let log_length = game.log().len();
        let max: usize = if log_length > HISTORY_HEIGHT {
            log_length - HISTORY_HEIGHT
        } else {
            0
        };
        let curr = self.from_bottom;
        match map_scroll_command(event) {
            Some(Command::Scroll(delta)) => {
                let next: usize = if delta == i8::MIN {
                    max
                } else if delta == i8::MAX {
                    0
                } else if delta < 0 {
                    let up = (-(delta as i16)) as usize;
                    if curr >= max || up >= max - curr {
                        max
                    } else {
                        curr + up
                    }
                } else {
                    let down = delta as usize;
                    let v = if curr >= down {
                        curr - down
                    } else {
                        0
                    };
                    if v > max {
                        max
                    } else {
                        v
                    }
                };
                self.from_bottom = next;
                Transition::Okay
            },
            _ => Transition::Pop,
        }
    }
}

/// One of the scenes.
#[derive(Clone, Copy, PartialEq, Eq, Structural, Debug)]
pub enum AnyScene {
    Start(StartScreen),
    Play(PlayScreen),
    History(HistoryPopup),
}

impl Scene for AnyScene {
    open spec fn reacts(
        &self,
        next: &Self,
        game: &Game,
        next_game: &Game,
        event: Event,
        t: Transition,
    ) -> bool {
        match (*self, *next) {
            (AnyScene::Start(a), AnyScene::Start(b)) => a.reacts(&b, game, next_game, event, t),
            (AnyScene::Play(a), AnyScene::Play(b)) => a.reacts(&b, game, next_game, event, t),
            (AnyScene::History(a), AnyScene::History(b)) => a.reacts(&b, game, next_game, event, t),
            _ => false,
        }
    }

    open spec fn draws(&self, game: &Game, before: &Console, after: &Console) -> bool {
        match *self {
            AnyScene::Start(s) => s.draws(game, before, after),
            AnyScene::Play(s) => s.draws(game, before, after),
            AnyScene::History(s) => s.draws(game, before, after),
        }
    }

    fn render(&self, game: &Game, console: &mut Console) {
        match self {
            AnyScene::Start(s) => s.render(game, console),
            AnyScene::Play(s) => s.render(game, console),
            AnyScene::History(s) => s.render(game, console),
        }
    }

    fn handle_event(&mut self, game: &mut Game, event: Event) -> (t: Transition) {
        match self {
            AnyScene::Start(s) => s.handle_event(game, event),
            AnyScene::Play(s) => s.handle_event(game, event),
            AnyScene::History(s) => s.handle_event(game, event),
        }
    }
}


/// What the game loop does after an event.
#[derive(Clone, Copy, PartialEq, Eq, Structural, Debug)]
pub enum Flow {
    /// Draw the next frame and wait for the next event.
    Continue,
    /// Sound the alert, then go on.
    Alert,
    /// Leave the loop.
    Quit,
}

/// The active scene over the scenes it suspended, bottom first.
pub struct SceneStack {
    pub active: AnyScene,
    pub suspended: Vec<AnyScene>,
}

/// The stack that a transition leads to, and what the loop does next.
/// `active` is the scene that answered, as handling the event left it.
pub open spec fn apply_transition(active: AnyScene, suspended: Seq<AnyScene>, t: Transition) -> (
    AnyScene,
    Seq<AnyScene>,
    Flow,
) {
    match t {
        Transition::Okay => (active, suspended, Flow::Continue),
        Transition::Beep => (active, suspended, Flow::Alert),
        Transition::Switch(next) => (next, suspended, Flow::Continue),
        Transition::Push(next) => (next, suspended.push(active), Flow::Continue),
        Transition::Pop => if suspended.len() > 0 {
            (suspended.last(), suspended.drop_last(), Flow::Continue)
        } else {
            (active, suspended, Flow::Quit)
        },
    }
}

/// Drawing `scenes` in order, each over what the ones before it drew,
/// turns `before` into `after`.
pub open spec fn draws_in_order(scenes: Seq<AnyScene>, game: &Game, before: Console, after: Console) -> bool
    decreases scenes.len(),
{
    if scenes.len() == 0 {
        after == before
    } else {
        exists|mid: Console|
            draws_in_order(scenes.drop_last(), game, before, mid) && #[trigger] scenes.last().draws(
                game,
                &mid,
                &after,
            )
    }
}

impl SceneStack {
    /// The title screen, with nothing beneath it.
    pub fn new() -> (r: SceneStack)
        ensures
            r.active == AnyScene::Start(StartScreen),
            r.suspended@.len() == 0,
    {
        SceneStack { active: AnyScene::Start(StartScreen), suspended: Vec::new() }
    }

    /// Draws every suspended scene, bottom first, then the active one.
    pub fn render(&self, game: &Game, console: &mut Console)
        requires
            game.wf(),
            fits_screen(game, old(console)),
        ensures
            fits_screen(game, final(console)),
            draws_in_order(self.suspended@.push(self.active), game, *old(console), *final(console)),
    {
        let ghost start = *console;
        let mut i: usize = 0;
        while i < self.suspended.len()
            invariant
                game.wf(),
                fits_screen(game, console),
                i <= self.suspended@.len(),
                draws_in_order(self.suspended@.take(i as int), game, start, *console),
            decreases self.suspended@.len() - i,
        {
            let ghost mid = *console;
            self.suspended[i].render(game, console);
            proof {
                let done = self.suspended@.take(i + 1);
                assert(done.drop_last() =~= self.suspended@.take(i as int));
                assert(done.last() == self.suspended@[i as int]);
                assert(done.last().draws(game, &mid, console));
            }
            i = i + 1;
        }
        let ghost mid = *console;
        self.active.render(game, console);
        proof {
            let all = self.suspended@.push(self.active);
            assert(self.suspended@.take(i as int) =~= self.suspended@);
            assert(all.drop_last() =~= self.suspended@);
            assert(all.last().draws(game, &mid, console));
        }
    }

    /// Hands `event` to the active scene and applies the transition it
    /// answers; an abort leaves at once.
    pub fn handle_event(&mut self, game: &mut Game, event: Event) -> (r: Flow)
        requires
            old(game).wf(),
        ensures
            final(game).wf(),
            final(game).level.width == old(game).level.width,
            final(game).level.height == old(game).level.height,
            event is Abort ==> r == Flow::Quit && *final(game) == *old(game) && final(self).active
                == old(self).active && final(self).suspended@ == old(self).suspended@,
            !(event is Abort) ==> exists|answered: AnyScene, t: Transition|
                #[trigger] old(self).active.reacts(&answered, old(game), final(game), event, t)
                    && apply_transition(answered, old(self).suspended@, t) == (
                    final(self).active,
                    final(self).suspended@,
                    r,
                ),
    {
        if let Event::Abort = event {
            return Flow::Quit;
        }
        let ghost before = self.active;
        let t = self.active.handle_event(game, event);
        let ghost answered = self.active;
        let ghost t_spec = t;
        let r = match t {
            Transition::Okay => Flow::Continue,
            Transition::Beep => Flow::Alert,
            Transition::Switch(next) => {
                self.active = next;
                Flow::Continue
            },
            Transition::Push(next) => {
                let prev = self.active;
                self.active = next;
                self.suspended.push(prev);
                Flow::Continue
            },
            Transition::Pop => {
                match self.suspended.pop() {
                    Some(prev) => {
                        self.active = prev;
                        Flow::Continue
                    },
                    None => Flow::Quit,
                }
            },
        };
        proof {
            assert(before.reacts(&answered, old(game), game, event, t_spec));
            assert(apply_transition(answered, old(self).suspended@, t_spec) == (
                self.active,
                self.suspended@,
                r,
            ));
        }
        r
    }
}

/// From the title screen, any event but an abort brings up the play screen
/// and leaves the game as it was.
pub proof fn title_leads_to_play(
    suspended: Seq<AnyScene>,
    answered: AnyScene,
    game: Game,
    next_game: Game,
    event: Event,
    t: Transition,
)
    requires
        AnyScene::Start(StartScreen).reacts(&answered, &game, &next_game, event, t),
    ensures
        apply_transition(answered, suspended, t) == (AnyScene::Play(PlayScreen), suspended, Flow::Continue),
        next_game == game,
{
}

/// Opening the history from the play screen and closing it again brings
/// back the play screen over the same suspended scenes, with the game as
/// it was.
pub proof fn history_round_trip(
    suspended: Seq<AnyScene>,
    game: Game,
    open_answered: AnyScene,
    game_open: Game,
    t_open: Transition,
    close_event: Event,
    close_answered: AnyScene,
    game_closed: Game,
    t_close: Transition,
)
    requires
        AnyScene::Play(PlayScreen).reacts(
            &open_answered,
            &game,
            &game_open,
            Event::KeyChar('m'),
            t_open,
        ),
        ({
            let (popup, below, _) = apply_transition(open_answered, suspended, t_open);
            popup.reacts(&close_answered, &game_open, &game_closed, close_event, t_close)
        }),
        scroll_command(close_event) is None,
    ensures
        ({
            let (popup, below, flow_open) = apply_transition(open_answered, suspended, t_open);
            &&& popup == AnyScene::History(HistoryPopup { from_bottom: 0 })
            &&& flow_open == Flow::Continue
            &&& apply_transition(close_answered, below, t_close) == (
                AnyScene::Play(PlayScreen),
                suspended,
                Flow::Continue,
            )
        }),
        game_closed == game,
{
    assert(suspended.push(open_answered).drop_last() =~= suspended);
}

/// Popping with no suspended scene ends the game loop.
pub proof fn pop_from_bottom_quits(active: AnyScene, suspended: Seq<AnyScene>)
    requires
        suspended.len() == 0,
    ensures
        apply_transition(active, suspended, Transition::Pop).2 == Flow::Quit,
{
}

} // verus!
