//! What each key means in each mode.
use vstd::prelude::*;

use super::Command;
use crate::console::{Event, Key};

verus! {

/// The command a key gives while playing: the vi keys and the keypad keys
/// move in the eight directions, `.` waits and `m` opens the history.
pub open spec fn play_command(event: Event) -> Option<Command> {
    match event {
        Event::KeyChar('y') | Event::KeySpecial(Key::Home) => Some(Command::Move((-1) as i8, (-1) as i8)),
        Event::KeyChar('k') | Event::KeySpecial(Key::Up) => Some(Command::Move(0, (-1) as i8)),
        Event::KeyChar('u') | Event::KeySpecial(Key::PgUp) => Some(Command::Move(1, (-1) as i8)),
        Event::KeyChar('h') | Event::KeySpecial(Key::Left) => Some(Command::Move((-1) as i8, 0)),
        Event::KeyChar('l') | Event::KeySpecial(Key::Right) => Some(Command::Move(1, 0)),
        Event::KeyChar('b') | Event::KeySpecial(Key::End) => Some(Command::Move((-1) as i8, 1)),
        Event::KeyChar('j') | Event::KeySpecial(Key::Down) => Some(Command::Move(0, 1)),
        Event::KeyChar('n') | Event::KeySpecial(Key::PgDn) => Some(Command::Move(1, 1)),
        Event::KeyChar('.') => Some(Command::Move(0, 0)),
        Event::KeyChar('m') => Some(Command::History),
        _ => None,
    }
}

/// The command a key gives while reading the history: Home and End jump to
/// the oldest and newest page, PgUp and PgDn move ten lines, Up and Down one.
pub open spec fn scroll_command(event: Event) -> Option<Command> {
    match event {
        Event::KeySpecial(Key::Home) => Some(Command::Scroll(i8::MIN)),
        Event::KeySpecial(Key::PgUp) => Some(Command::Scroll((-10) as i8)),
        Event::KeySpecial(Key::Up) => Some(Command::Scroll((-1) as i8)),
        Event::KeySpecial(Key::Down) => Some(Command::Scroll(1)),
        Event::KeySpecial(Key::PgDn) => Some(Command::Scroll(10)),
        Event::KeySpecial(Key::End) => Some(Command::Scroll(i8::MAX)),
        _ => None,
    }
}

pub fn map_play_command(event: Event) -> (r: Option<Command>)
    ensures
        r == play_command(event),
{
    match event {
        Event::KeyChar('y') => Some(Command::Move(-1, -1)),
        Event::KeyChar('k') => Some(Command::Move(0, -1)),
        Event::KeyChar('u') => Some(Command::Move(1, -1)),
        Event::KeyChar('h') => Some(Command::Move(-1, 0)),
        Event::KeyChar('l') => Some(Command::Move(1, 0)),
        Event::KeyChar('b') => Some(Command::Move(-1, 1)),
        Event::KeyChar('j') => Some(Command::Move(0, 1)),
        Event::KeyChar('n') => Some(Command::Move(1, 1)),
        Event::KeySpecial(Key::Home) => Some(Command::Move(-1, -1)),
        Event::KeySpecial(Key::Up) => Some(Command::Move(0, -1)),
        Event::KeySpecial(Key::PgUp) => Some(Command::Move(1, -1)),
        Event::KeySpecial(Key::Left) => Some(Command::Move(-1, 0)),
        Event::KeySpecial(Key::Right) => Some(Command::Move(1, 0)),
        Event::KeySpecial(Key::End) => Some(Command::Move(-1, 1)),
        Event::KeySpecial(Key::Down) => Some(Command::Move(0, 1)),
        Event::KeySpecial(Key::PgDn) => Some(Command::Move(1, 1)),
        Event::KeyChar('.') => Some(Command::Move(0, 0)),
        Event::KeyChar('m') => Some(Command::History),
        _ => None,
    }
}

pub fn map_scroll_command(event: Event) -> (r: Option<Command>)
    ensures
        r == scroll_command(event),
{
    match event {
        Event::KeySpecial(Key::Home) => Some(Command::Scroll(i8::MIN)),
        Event::KeySpecial(Key::PgUp) => Some(Command::Scroll(-10)),
        Event::KeySpecial(Key::Up) => Some(Command::Scroll(-1)),
        Event::KeySpecial(Key::Down) => Some(Command::Scroll(1)),
        Event::KeySpecial(Key::PgDn) => Some(Command::Scroll(10)),
        Event::KeySpecial(Key::End) => Some(Command::Scroll(i8::MAX)),
        _ => None,
    }
}

} // verus!
