//! Scenes: the interactive modes of the game, how input reaches them and
//! how they follow one another.
use vstd::prelude::*;

pub mod input;
pub mod render;
pub mod scenes;
pub mod theme;

use render::fits_screen;
use scenes::AnyScene;

use crate::console::{Console, Event};
use crate::logic::Game;

verus! {

/// Size of the console the game draws on.
pub const CONSOLE_WIDTH: usize = 80;
pub const CONSOLE_HEIGHT: usize = 43;

/// Where the map is drawn.
pub const MAP_OFFSET_X: usize = 0;
pub const MAP_OFFSET_Y: usize = 4;

/// Where the latest messages are drawn, and how many.
pub const LOG_OFFSET_X: usize = 0;
pub const LOG_OFFSET_Y: usize = 0;
pub const LOG_LINES: usize = 4;

/// Space left around a popup box.
pub const POPUP_MARGIN_H: usize = 6;
pub const POPUP_MARGIN_V: usize = 3;

/// What a key asks for.
#[derive(Clone, Copy, PartialEq, Eq, Structural, Debug)]
pub enum Command {
    Move(i8, i8),
    History,
    Scroll(i8),
}


/// What handling one event asks of the scene stack.
pub enum Transition {
    /// Event was handled, continue with the same scene.
    Okay,
    /// Unexpected event, show an alert and continue with the same scene.
    Beep,
    /// Event was handled, switch to a different scene.
    Switch(AnyScene),
    /// Switch to a different scene and push it onto the stack.
    Push(AnyScene),
    /// Return to the previous scene.
    Pop,
}

/// An interactive mode of the game.
pub trait Scene: Sized {
    /// Handling `event` may turn this scene into `next` and the game into
    /// `next_game`, answering `t`.
    spec fn reacts(&self, next: &Self, game: &Game, next_game: &Game, event: Event, t: Transition) -> bool;

    /// Drawing this scene over `before` for `game` gives `after`.
    spec fn draws(&self, game: &Game, before: &Console, after: &Console) -> bool;

    /// Draw one full frame of this scene.
    fn render(&self, game: &Game, console: &mut Console)
        requires
            game.wf(),
            fits_screen(game, old(console)),
        ensures
            fits_screen(game, final(console)),
            self.draws(game, old(console), final(console)),
    ;

    /// Handle one event and decide the next state.
    fn handle_event(&mut self, game: &mut Game, event: Event) -> (t: Transition)
        requires
            old(game).wf(),
        ensures
            final(game).wf(),
            final(game).level.width == old(game).level.width,
            final(game).level.height == old(game).level.height,
            old(self).reacts(final(self), old(game), final(game), event, t),
    ;
}

} // verus!
