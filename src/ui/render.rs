//! Drawing the game state onto the console.
use vstd::prelude::*;
use vstd::string::StrSliceExecFns;

use super::theme::{
    self, decoration_cell, explored_cell, glyph_cell, message_fg, visible_cell, Decoration,
};
use super::{
    CONSOLE_HEIGHT, CONSOLE_WIDTH, LOG_LINES, LOG_OFFSET_X, LOG_OFFSET_Y, MAP_OFFSET_X,
    MAP_OFFSET_Y, POPUP_MARGIN_H, POPUP_MARGIN_V,
};
use crate::console::{Cell, Color, Console};
use crate::logic::{Entity, Game, Glyph};

verus! {

/// The console has the game's size and the level fits where the map goes.
pub open spec fn fits_screen(game: &Game, console: &Console) -> bool {
    &&& console.wf()
    &&& console.width() == CONSOLE_WIDTH
    &&& console.height() == CONSOLE_HEIGHT
    &&& game.level.width + MAP_OFFSET_X <= CONSOLE_WIDTH
    &&& game.level.height + MAP_OFFSET_Y <= CONSOLE_HEIGHT
}

/// The glyph of the last of the first `k` actors that stands at `(x, y)`.
pub open spec fn top_actor(actors: Seq<Entity>, k: int, x: int, y: int) -> Option<Glyph>
    decreases k,
{
    if k <= 0 {
        None
    } else if actors[k - 1].x == x && actors[k - 1].y == y {
        Some(actors[k - 1].glyph)
    } else {
        top_actor(actors, k - 1, x, y)
    }
}

/// What the map shows at level position `(x, y)`, given what was there.
pub open spec fn map_cell(game: &Game, x: int, y: int, before: Cell) -> Cell {
    let level = game.level;
    let p = level.player->Some_0;
    if p.x == x && p.y == y {
        glyph_cell(p.glyph)
    } else if level.seen(x, y) && top_actor(level.actors@, level.actors@.len() as int, x, y) is Some {
        glyph_cell(top_actor(level.actors@, level.actors@.len() as int, x, y)->Some_0)
    } else if level.seen(x, y) {
        visible_cell(level.tile(x, y))
    } else if level.known(x, y) {
        explored_cell(level.tile(x, y))
    } else {
        before
    }
}

/// The frame being composed is unchanged outside the rectangle `x0..x1` by
/// `y0..y1`, and so is everything else of the console but the cursor.
pub open spec fn only_touches(before: &Console, after: &Console, x0: int, y0: int, x1: int, y1: int) -> bool {
    &&& after.wf()
    &&& after.same_frame_size(before)
    &&& forall|i: int, j: int|
        before.back.in_bounds(i, j) && !(x0 <= i < x1 && y0 <= j < y1) ==> #[trigger] after.back.at(i, j)
            == before.back.at(i, j)
}

/// Draws the tiles the player sees (bright) and has seen (gray), the actors
/// in sight, and the player, and puts the cursor on the player.
pub fn render_map(console: &mut Console, game: &Game)
    requires
        game.wf(),
        fits_screen(game, old(console)),
    ensures
        fits_screen(game, final(console)),
        only_touches(
            old(console),
            final(console),
            MAP_OFFSET_X as int,
            MAP_OFFSET_Y as int,
            MAP_OFFSET_X + game.level.width,
            MAP_OFFSET_Y + game.level.height,
        ),
        forall|x: int, y: int|
            game.level.in_bounds(x, y) ==> #[trigger] final(console).back.at(
                x + MAP_OFFSET_X,
                y + MAP_OFFSET_Y,
            ) == map_cell(game, x, y, old(console).back.at(x + MAP_OFFSET_X, y + MAP_OFFSET_Y)),
        final(console).cursor == Some(
            (
                (game.level.player->Some_0.x + MAP_OFFSET_X) as usize,
                (game.level.player->Some_0.y + MAP_OFFSET_Y) as usize,
            ),
        ),
{
    let ghost start = *console;
    let level = game.level();
    let width = level.width();
    let height = level.height();
    let mut y: usize = 0;
    while y < height
        invariant
            game.wf(),
            level == game.level,
            width == level.width,
            height == level.height,
            fits_screen(game, console),
            y <= height,
            only_touches(&start, console, MAP_OFFSET_X as int, MAP_OFFSET_Y as int, MAP_OFFSET_X + width, MAP_OFFSET_Y + height),
            console.cursor == start.cursor,
            forall|i: int, j: int|
                level.in_bounds(i, j) ==> #[trigger] console.back.at(i + MAP_OFFSET_X, j + MAP_OFFSET_Y)
                    == if j < y {
                    if level.seen(i, j) {
                        visible_cell(level.tile(i, j))
                    } else if level.known(i, j) {
                        explored_cell(level.tile(i, j))
                    } else {
                        start.back.at(i + MAP_OFFSET_X, j + MAP_OFFSET_Y)
                    }
                } else {
                    start.back.at(i + MAP_OFFSET_X, j + MAP_OFFSET_Y)
                },
        decreases height - y,
    {
        let mut x: usize = 0;
        while x < width
            invariant
                game.wf(),
                level == game.level,
                width == level.width,
                height == level.height,
                fits_screen(game, console),
                y < height,
                x <= width,
                only_touches(&start, console, MAP_OFFSET_X as int, MAP_OFFSET_Y as int, MAP_OFFSET_X + width, MAP_OFFSET_Y + height),
                console.cursor == start.cursor,
                forall|i: int, j: int|
                    level.in_bounds(i, j) ==> #[trigger] console.back.at(i + MAP_OFFSET_X, j + MAP_OFFSET_Y)
                        == if j < y || (j == y && i < x) {
                        if level.seen(i, j) {
                            visible_cell(level.tile(i, j))
                        } else if level.known(i, j) {
                            explored_cell(level.tile(i, j))
                        } else {
                            start.back.at(i + MAP_OFFSET_X, j + MAP_OFFSET_Y)
                        }
                    } else {
                        start.back.at(i + MAP_OFFSET_X, j + MAP_OFFSET_Y)
                    },
            decreases width - x,
        {
            if level.is_visible(x, y) {
                let tile = level.get_tile(x, y);
                console.set_cell(x + MAP_OFFSET_X, y + MAP_OFFSET_Y, theme::visible_tile(&tile));
            } else if level.is_explored(x, y) {
                let tile = level.get_tile(x, y);
                console.set_cell(x + MAP_OFFSET_X, y + MAP_OFFSET_Y, theme::explored_tile(&tile));
            }
            x = x + 1;
        }
        y = y + 1;
    }
    let actors = level.actors();
    let mut k: usize = 0;
    while k < actors.len()
        invariant
            game.wf(),
            level == game.level,
            width == level.width,
            height == level.height,
            actors@ == level.actors@,
            fits_screen(game, console),
            k <= actors@.len(),
            only_touches(&start, console, MAP_OFFSET_X as int, MAP_OFFSET_Y as int, MAP_OFFSET_X + width, MAP_OFFSET_Y + height),
            console.cursor == start.cursor,
            forall|i: int, j: int|
                level.in_bounds(i, j) ==> #[trigger] console.back.at(i + MAP_OFFSET_X, j + MAP_OFFSET_Y)
                    == if level.seen(i, j) && top_actor(actors@, k as int, i, j) is Some {
                    glyph_cell(top_actor(actors@, k as int, i, j)->Some_0)
                } else if level.seen(i, j) {
                    visible_cell(level.tile(i, j))
                } else if level.known(i, j) {
                    explored_cell(level.tile(i, j))
                } else {
                    start.back.at(i + MAP_OFFSET_X, j + MAP_OFFSET_Y)
                },
        decreases actors@.len() - k,
    {
        let e = &actors[k];
        let ex = e.x();
        let ey = e.y();
        if ex < width && ey < height && level.is_visible(ex, ey) {
            console.set_cell(ex + MAP_OFFSET_X, ey + MAP_OFFSET_Y, theme::glyph(&e.glyph));
        }
        proof {
            assert forall|i: int, j: int| level.in_bounds(i, j) implies top_actor(actors@, k + 1, i, j)
                == if actors@[k as int].x == i && actors@[k as int].y == j {
                Some(actors@[k as int].glyph)
            } else {
                top_actor(actors@, k as int, i, j)
            } by {}
        }
        k = k + 1;
    }
    let player = match level.player() {
        Some(p) => p,
        None => {
            return;
        },
    };
    let px = player.x();
    let py = player.y();
    console.set_cell(px + MAP_OFFSET_X, py + MAP_OFFSET_Y, theme::glyph(&player.glyph));
    console.show_cursor(px + MAP_OFFSET_X, py + MAP_OFFSET_Y);
}


/// How many lines the log area shows: the newest `LOG_LINES` messages, or
/// all of them if there are fewer.
pub open spec fn log_shown(game: &Game) -> int {
    let len = game.log.messages@.len() as int;
    if LOG_LINES < len {
        LOG_LINES as int
    } else {
        len
    }
}

/// The message on line `n` of the log area.
pub open spec fn log_line(game: &Game, n: int) -> (String, u64) {
    game.log.messages@[game.log.messages@.len() - log_shown(game) + n]
}

/// Writes the newest messages, oldest on top, each colored by its age.
pub fn render_log(console: &mut Console, game: &Game)
    requires
        game.wf(),
        fits_screen(game, old(console)),
    ensures
        fits_screen(game, final(console)),
        final(console).cursor == old(console).cursor,
        only_touches(
            old(console),
            final(console),
            0,
            LOG_OFFSET_Y as int,
            CONSOLE_WIDTH as int,
            LOG_OFFSET_Y + log_shown(game),
        ),
        forall|i: int, n: int|
            0 <= i < CONSOLE_WIDTH && 0 <= n < log_shown(game) ==> #[trigger] final(console).back.at(
                i,
                LOG_OFFSET_Y + n,
            ) == if LOG_OFFSET_X <= i < LOG_OFFSET_X + log_line(game, n).0@.len() {
                Cell {
                    ch: log_line(game, n).0@[i - LOG_OFFSET_X],
                    fg: message_fg((game.log.curr_turn - log_line(game, n).1) as u64),
                    bg: Color::Black,
                }
            } else {
                old(console).back.at(i, LOG_OFFSET_Y + n)
            },
{
    let ghost start = *console;
    let lines = game.log().latest(LOG_LINES);
    let mut n: usize = 0;
    while n < lines.len()
        invariant
            game.wf(),
            fits_screen(game, console),
            console.cursor == start.cursor,
            lines@.len() == log_shown(game),
            forall|k: int|
                0 <= k < lines@.len() ==> {
                    let m = game.log.messages@[game.log.messages@.len() - lines@.len() + k];
                    &&& (#[trigger] lines@[k]).0 == m.0
                    &&& lines@[k].1 == game.log.curr_turn - m.1
                },
            n <= lines@.len(),
            only_touches(&start, console, 0, LOG_OFFSET_Y as int, CONSOLE_WIDTH as int, LOG_OFFSET_Y + log_shown(game)),
            forall|i: int, r: int|
                0 <= i < CONSOLE_WIDTH && 0 <= r < log_shown(game) ==> #[trigger] console.back.at(
                    i,
                    LOG_OFFSET_Y + r,
                ) == if r < n && LOG_OFFSET_X <= i < LOG_OFFSET_X + log_line(game, r).0@.len() {
                    Cell {
                        ch: log_line(game, r).0@[i - LOG_OFFSET_X],
                        fg: message_fg((game.log.curr_turn - log_line(game, r).1) as u64),
                        bg: Color::Black,
                    }
                } else {
                    start.back.at(i, LOG_OFFSET_Y + r)
                },
        decreases lines@.len() - n,
    {
        let (msg, age) = &lines[n];
        let fg = theme::log_message_fg(*age);
        let bg = theme::log_message_bg(*age);
        console.print(LOG_OFFSET_X, LOG_OFFSET_Y + n, msg.as_str(), fg, bg);
        n = n + 1;
    }
}

/// The part of the outline of the box with corners `(x0, y0)` and
/// `(x1, y1)` at `(i, j)`, a point of that outline.
pub open spec fn outline_cell(x0: int, y0: int, x1: int, y1: int, i: int, j: int) -> Cell {
    if (i == x0 || i == x1) && (j == y0 || j == y1) {
        decoration_cell(
            if i == x0 && j == y0 {
                Decoration::TopLeftCorner
            } else if i == x1 && j == y0 {
                Decoration::TopRightCorner
            } else if i == x0 {
                Decoration::BottomLeftCorner
            } else {
                Decoration::BottomRightCorner
            },
        )
    } else if j == y0 || j == y1 {
        decoration_cell(Decoration::Horizontal)
    } else {
        decoration_cell(Decoration::Vertical)
    }
}

/// Draws the outline of the box with corners `(x0, y0)` and `(x1, y1)`.
pub fn draw_box(console: &mut Console, x0: usize, y0: usize, x1: usize, y1: usize)
    requires
        old(console).wf(),
        x0 < x1 < old(console).width(),
        y0 < y1 < old(console).height(),
    ensures
        only_touches(old(console), final(console), x0 as int, y0 as int, x1 + 1, y1 + 1),
        final(console).cursor == old(console).cursor,
        forall|i: int, j: int|
            x0 <= i <= x1 && y0 <= j <= y1 ==> #[trigger] final(console).back.at(i, j) == if (i == x0
                || i == x1 || j == y0 || j == y1) {
                outline_cell(x0 as int, y0 as int, x1 as int, y1 as int, i, j)
            } else {
                old(console).back.at(i, j)
            },
{
    let ghost start = *console;
    console.set_cell(x0, y0, theme::box_decoration(Decoration::TopLeftCorner));
    console.set_cell(x1, y0, theme::box_decoration(Decoration::TopRightCorner));
    console.set_cell(x0, y1, theme::box_decoration(Decoration::BottomLeftCorner));
    console.set_cell(x1, y1, theme::box_decoration(Decoration::BottomRightCorner));
    let mut x: usize = x0 + 1;
    while x < x1
        invariant
            console.wf(),
            console.same_frame_size(&start),
            console.cursor == start.cursor,
            x0 < x1 < start.width(),
            y0 < y1 < start.height(),
            x0 + 1 <= x <= x1,
            forall|i: int, j: int|
                start.back.in_bounds(i, j) ==> #[trigger] console.back.at(i, j) == if (i == x0 || i
                    == x1) && (j == y0 || j == y1) {
                    decoration_cell(
                        if i == x0 && j == y0 {
                            Decoration::TopLeftCorner
                        } else if i == x1 && j == y0 {
                            Decoration::TopRightCorner
                        } else if i == x0 {
                            Decoration::BottomLeftCorner
                        } else {
                            Decoration::BottomRightCorner
                        },
                    )
                } else if (j == y0 || j == y1) && x0 < i < x {
                    decoration_cell(Decoration::Horizontal)
                } else {
                    start.back.at(i, j)
                },
        decreases x1 - x,
    {
        console.set_cell(x, y0, theme::box_decoration(Decoration::Horizontal));
        console.set_cell(x, y1, theme::box_decoration(Decoration::Horizontal));
        x = x + 1;
    }
    let mut y: usize = y0 + 1;
    while y < y1
        invariant
            console.wf(),
            console.same_frame_size(&start),
            console.cursor == start.cursor,
            x0 < x1 < start.width(),
            y0 < y1 < start.height(),
            y0 + 1 <= y <= y1,
            forall|i: int, j: int|
                start.back.in_bounds(i, j) ==> #[trigger] console.back.at(i, j) == if (i == x0 || i
                    == x1) && (j == y0 || j == y1) {
                    decoration_cell(
                        if i == x0 && j == y0 {
                            Decoration::TopLeftCorner
                        } else if i == x1 && j == y0 {
                            Decoration::TopRightCorner
                        } else if i == x0 {
                            Decoration::BottomLeftCorner
                        } else {
                            Decoration::BottomRightCorner
                        },
                    )
                } else if (j == y0 || j == y1) && x0 < i < x1 {
                    decoration_cell(Decoration::Horizontal)
                } else if (i == x0 || i == x1) && y0 < j < y {
                    decoration_cell(Decoration::Vertical)
                } else {
                    start.back.at(i, j)
                },
        decreases y1 - y,
    {
        console.set_cell(x0, y, theme::box_decoration(Decoration::Vertical));
        console.set_cell(x1, y, theme::box_decoration(Decoration::Vertical));
        y = y + 1;
    }
}

/// Writes `text` on row `y` centered about column `xc`, between brackets.
pub fn draw_bracketed_center(console: &mut Console, xc: usize, y: usize, text: &str)
    requires
        old(console).wf(),
        y < old(console).height(),
        text@.len() / 2 + 1 <= xc,
        xc - text@.len() / 2 + 1 + text@.len() < old(console).width(),
    ensures
        ({
            let x0 = xc - text@.len() / 2 + 1;
            &&& only_touches(old(console), final(console), x0 - 1, y as int, x0 + text@.len() + 1, y + 1)
            &&& final(console).back.at(x0 - 1, y as int) == decoration_cell(Decoration::LeftBracket)
            &&& final(console).back.at(x0 + text@.len(), y as int) == decoration_cell(Decoration::RightBracket)
            &&& forall|i: int|
                x0 <= i < x0 + text@.len() ==> #[trigger] final(console).back.at(i, y as int)
                    == (Cell { ch: text@[i - x0], fg: Color::BrightWhite, bg: Color::Black })
        }),
        final(console).cursor == old(console).cursor,
{
    let l = text.unicode_len();
    let x0 = xc - l / 2 + 1;
    console.set_cell(x0 - 1, y, theme::box_decoration(Decoration::LeftBracket));
    console.print(x0, y, text, theme::box_fg(), theme::box_bg());
    console.set_cell(x0 + l, y, theme::box_decoration(Decoration::RightBracket));
}

/// Writes `text` on row `y` so that it ends just left of column `xr`,
/// between brackets.
pub fn draw_bracketed_right(console: &mut Console, xr: usize, y: usize, text: &str)
    requires
        old(console).wf(),
        y < old(console).height(),
        text@.len() + 1 <= xr < old(console).width(),
    ensures
        ({
            let x0 = xr - text@.len();
            &&& only_touches(old(console), final(console), x0 - 1, y as int, xr + 1, y + 1)
            &&& final(console).back.at(x0 - 1, y as int) == decoration_cell(Decoration::LeftBracket)
            &&& final(console).back.at(xr as int, y as int) == decoration_cell(Decoration::RightBracket)
            &&& forall|i: int|
                x0 <= i < xr ==> #[trigger] final(console).back.at(i, y as int) == (Cell {
                    ch: text@[i - x0],
                    fg: Color::BrightWhite,
                    bg: Color::Black,
                })
        }),
        final(console).cursor == old(console).cursor,
{
    let x0 = xr - text.unicode_len();
    console.set_cell(x0 - 1, y, theme::box_decoration(Decoration::LeftBracket));
    console.print(x0, y, text, theme::box_fg(), theme::box_bg());
    console.set_cell(xr, y, theme::box_decoration(Decoration::RightBracket));
}


/// The inside of the history box: left edge, top edge, width and height.
pub const HISTORY_X: usize = POPUP_MARGIN_H + 1;
pub const HISTORY_Y: usize = POPUP_MARGIN_V + 1;
pub const HISTORY_WIDTH: usize = CONSOLE_WIDTH - POPUP_MARGIN_H * 2 - 2;
pub const HISTORY_HEIGHT: usize = CONSOLE_HEIGHT - POPUP_MARGIN_V * 2 - 2;

/// How many messages the history box shows from the `scroll`-th oldest on.
pub open spec fn history_shown(game: &Game, scroll: int) -> int {
    let len = game.log.messages@.len() as int;
    if scroll >= len {
        0
    } else if HISTORY_HEIGHT < len - scroll {
        HISTORY_HEIGHT as int
    } else {
        len - scroll
    }
}

/// What the inside of the history box shows at `(i, j)`: row `n` holds the
/// `scroll + n`-th oldest message, indented by one and cut to fit.
pub open spec fn history_cell(game: &Game, scroll: int, i: int, j: int) -> Cell {
    let n = j - HISTORY_Y;
    let k = i - HISTORY_X - 1;
    if n < history_shown(game, scroll) && 0 <= k < HISTORY_WIDTH - 2 && k < game.log.messages@[scroll
        + n].0@.len() {
        Cell { ch: game.log.messages@[scroll + n].0@[k], fg: Color::White, bg: Color::Black }
    } else {
        Cell::blank()
    }
}

/// Corners of the history box.
pub const BOX_LEFT: usize = POPUP_MARGIN_H;
pub const BOX_TOP: usize = POPUP_MARGIN_V;
pub const BOX_RIGHT: usize = CONSOLE_WIDTH - POPUP_MARGIN_H - 1;
pub const BOX_BOTTOM: usize = CONSOLE_HEIGHT - POPUP_MARGIN_V - 1;

/// A bracketed label on a box edge: the text from column `x0`, with a left
/// bracket just before it and a right bracket just after.
pub open spec fn label_cell(text: Seq<char>, x0: int, i: int) -> Cell {
    if i == x0 - 1 {
        decoration_cell(Decoration::LeftBracket)
    } else if i == x0 + text.len() {
        decoration_cell(Decoration::RightBracket)
    } else {
        Cell { ch: text[i - x0], fg: Color::BrightWhite, bg: Color::Black }
    }
}

/// The outline of the history box at `(i, j)`: the title centered on the
/// top edge, the key hint ending two columns from the right on the bottom
/// edge, box drawing elsewhere.
pub open spec fn history_frame_cell(i: int, j: int) -> Cell {
    let title = " Message history "@;
    let footer = " Up/Dn "@;
    let tx = (BOX_LEFT + BOX_RIGHT) / 2 - title.len() / 2 + 1;
    let fx = BOX_RIGHT - 2 - footer.len();
    if j == BOX_TOP && tx - 1 <= i <= tx + title.len() {
        label_cell(title, tx, i)
    } else if j == BOX_BOTTOM && fx - 1 <= i <= fx + footer.len() {
        label_cell(footer, fx, i)
    } else {
        outline_cell(BOX_LEFT as int, BOX_TOP as int, BOX_RIGHT as int, BOX_BOTTOM as int, i, j)
    }
}

/// Draws the message history in a titled box, starting from the
/// `scroll`-th oldest message.
pub fn render_history_box(console: &mut Console, game: &Game, scroll: usize)
    requires
        game.wf(),
        fits_screen(game, old(console)),
    ensures
        fits_screen(game, final(console)),
        final(console).cursor == old(console).cursor,
        only_touches(
            old(console),
            final(console),
            POPUP_MARGIN_H as int,
            POPUP_MARGIN_V as int,
            CONSOLE_WIDTH - POPUP_MARGIN_H,
            CONSOLE_HEIGHT - POPUP_MARGIN_V,
        ),
        forall|i: int, j: int|
            HISTORY_X <= i < HISTORY_X + HISTORY_WIDTH && HISTORY_Y <= j < HISTORY_Y + HISTORY_HEIGHT
                ==> #[trigger] final(console).back.at(i, j) == history_cell(game, scroll as int, i, j),
        forall|i: int, j: int|
            BOX_LEFT <= i <= BOX_RIGHT && BOX_TOP <= j <= BOX_BOTTOM && (i == BOX_LEFT || i == BOX_RIGHT
                || j == BOX_TOP || j == BOX_BOTTOM) ==> #[trigger] final(console).back.at(i, j)
                == history_frame_cell(i, j),
{
    let ghost start = *console;
    let x0 = POPUP_MARGIN_H;
    let y0 = POPUP_MARGIN_V;
    let x1 = CONSOLE_WIDTH - POPUP_MARGIN_H - 1;
    let y1 = CONSOLE_HEIGHT - POPUP_MARGIN_V - 1;
    draw_box(console, x0, y0, x1, y1);

    let title = " Message history ";
    let footer = " Up/Dn ";
    proof {
        reveal_strlit(" Message history ");
        reveal_strlit(" Up/Dn ");
    }
    let ghost outlined = *console;
    draw_bracketed_center(console, (x0 + x1) / 2, y0, title);
    let ghost titled = *console;
    draw_bracketed_right(console, x1 - 2, y1, footer);
    let ghost framed = *console;
    proof {
        assert forall|i: int, j: int|
            BOX_LEFT <= i <= BOX_RIGHT && BOX_TOP <= j <= BOX_BOTTOM && (i == BOX_LEFT || i == BOX_RIGHT
                || j == BOX_TOP || j == BOX_BOTTOM) implies #[trigger] framed.back.at(i, j)
            == history_frame_cell(i, j) by {
            assert(outlined.back.at(i, j) == outline_cell(BOX_LEFT as int, BOX_TOP as int, BOX_RIGHT as int, BOX_BOTTOM as int, i, j));
            assert(outlined.back.in_bounds(i, j));
            assert(titled.back.in_bounds(i, j));
        }
    }

    let width = HISTORY_WIDTH;
    let height = HISTORY_HEIGHT;
    console.clear_rect(HISTORY_X, HISTORY_Y, width, height);
    let ghost boxed = *console;
    proof {
        assert forall|i: int, j: int|
            BOX_LEFT <= i <= BOX_RIGHT && BOX_TOP <= j <= BOX_BOTTOM && (i == BOX_LEFT || i == BOX_RIGHT
                || j == BOX_TOP || j == BOX_BOTTOM) implies #[trigger] boxed.back.at(i, j)
            == history_frame_cell(i, j) by {
            assert(framed.back.at(i, j) == history_frame_cell(i, j));
            assert(framed.back.in_bounds(i, j));
        }
    }
    let lines = game.log().peek(scroll, height);
    let mut n: usize = 0;
    while n < lines.len()
        invariant
            game.wf(),
            fits_screen(game, console),
            console.cursor == start.cursor,
            n <= lines@.len(),
            width == HISTORY_WIDTH,
            lines@.len() == history_shown(game, scroll as int),
            forall|k: int| 0 <= k < lines@.len() ==> #[trigger] lines@[k] == game.log.messages@[scroll + k].0,
            only_touches(&start, &boxed, POPUP_MARGIN_H as int, POPUP_MARGIN_V as int, CONSOLE_WIDTH - POPUP_MARGIN_H, CONSOLE_HEIGHT - POPUP_MARGIN_V),
            forall|i: int, j: int|
                BOX_LEFT <= i <= BOX_RIGHT && BOX_TOP <= j <= BOX_BOTTOM && (i == BOX_LEFT || i
                    == BOX_RIGHT || j == BOX_TOP || j == BOX_BOTTOM) ==> #[trigger] boxed.back.at(i, j)
                    == history_frame_cell(i, j),
            only_touches(&boxed, console, HISTORY_X as int, HISTORY_Y as int, HISTORY_X + HISTORY_WIDTH, HISTORY_Y + HISTORY_HEIGHT),
            forall|i: int, j: int|
                HISTORY_X <= i < HISTORY_X + HISTORY_WIDTH && HISTORY_Y <= j < HISTORY_Y + HISTORY_HEIGHT
                    ==> #[trigger] console.back.at(i, j) == if j - HISTORY_Y < n {
                    history_cell(game, scroll as int, i, j)
                } else {
                    Cell::blank()
                },
        decreases lines@.len() - n,
    {
        let msg = lines[n].as_str();
        let len = msg.unicode_len();
        let shown: usize = if len < width - 2 { len } else { width - 2 };
        let ghost row_start = *console;
        let mut k: usize = 0;
        while k < shown
            invariant
                game.wf(),
                fits_screen(game, console),
                console.cursor == start.cursor,
                n < lines@.len(),
                lines@.len() == history_shown(game, scroll as int),
                msg@ == lines@[n as int]@,
                len == msg@.len(),
                shown == if len < HISTORY_WIDTH - 2 { len } else { (HISTORY_WIDTH - 2) as usize },
                k <= shown,
                only_touches(&row_start, console, HISTORY_X as int, HISTORY_Y + n, HISTORY_X + HISTORY_WIDTH, HISTORY_Y + n + 1),
                forall|i: int|
                    HISTORY_X <= i < HISTORY_X + HISTORY_WIDTH ==> #[trigger] console.back.at(i, HISTORY_Y + n)
                        == if 0 <= i - HISTORY_X - 1 < k {
                        Cell { ch: msg@[i - HISTORY_X - 1], fg: Color::White, bg: Color::Black }
                    } else {
                        row_start.back.at(i, HISTORY_Y + n)
                    },
            decreases shown - k,
        {
            let ch = msg.get_char(k);
            console.set_cell(HISTORY_X + 1 + k, HISTORY_Y + n, Cell::new(ch, theme::history_fg(), theme::history_bg()));
            k = k + 1;
        }
        n = n + 1;
    }
}

} // verus!
