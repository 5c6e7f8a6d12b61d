//! The character grid: cells, colors, the double buffer and the diff that
//! turns one frame into the next with as few terminal operations as possible.
use vstd::prelude::*;
use vstd::string::StrSliceExecFns;

verus! {

/// A terminal color.
#[derive(Clone, Copy, PartialEq, Eq, Structural, Debug)]
pub enum Color {
    Default,
    Black,
    Red,
    Green,
    Yellow,
    Blue,
    Magenta,
    Cyan,
    White,
    BrightBlack,
    BrightRed,
    BrightGreen,
    BrightYellow,
    BrightBlue,
    BrightMagenta,
    BrightCyan,
    BrightWhite,
}

impl Color {
    /// The darker counterpart of a color: bright colors lose their
    /// brightness, whites turn gray, everything else stays.
    pub open spec fn dimmed(self) -> Color {
        match self {
            Color::BrightRed => Color::Red,
            Color::BrightGreen => Color::Green,
            Color::BrightYellow => Color::Yellow,
            Color::BrightBlue => Color::Blue,
            Color::BrightMagenta => Color::Magenta,
            Color::BrightCyan => Color::Cyan,
            Color::White => Color::BrightBlack,
            Color::BrightWhite => Color::BrightBlack,
            _ => self,
        }
    }

    pub fn to_dim(self) -> (r: Color)
        ensures
            r == self.dimmed(),
    {
        match self {
            Color::BrightRed => Color::Red,
            Color::BrightGreen => Color::Green,
            Color::BrightYellow => Color::Yellow,
            Color::BrightBlue => Color::Blue,
            Color::BrightMagenta => Color::Magenta,
            Color::BrightCyan => Color::Cyan,
            Color::White => Color::BrightBlack,
            Color::BrightWhite => Color::BrightBlack,
            _ => self,
        }
    }
}

/// One character position of the screen.
#[derive(Clone, Copy, PartialEq, Eq, Structural, Debug)]
pub struct Cell {
    pub ch: char,
    pub fg: Color,
    pub bg: Color,
}

impl Cell {
    /// The cell that a cleared screen shows: a space in default colors.
    pub open spec fn blank() -> Cell {
        Cell { ch: ' ', fg: Color::Default, bg: Color::Default }
    }

    /// The same character with both colors dimmed.
    pub open spec fn dimmed(self) -> Cell {
        Cell { ch: self.ch, fg: self.fg.dimmed(), bg: self.bg.dimmed() }
    }

    pub fn new(ch: char, fg: Color, bg: Color) -> (r: Cell)
        ensures
            r == (Cell { ch, fg, bg }),
    {
        Cell { ch, fg, bg }
    }
}

impl Default for Cell {
    fn default() -> (r: Cell)
        ensures
            r == Cell::blank(),
    {
        Cell { ch: ' ', fg: Color::Default, bg: Color::Default }
    }
}


/// Row-major position of `(x, y)` in a grid `width` cells wide.
pub open spec fn grid_index(width: int, x: int, y: int) -> int {
    y * width + x
}

/// A position inside a `width` by `height` grid has an index inside its cells.
pub proof fn lemma_grid_index(width: int, height: int, x: int, y: int)
    requires
        0 <= x < width,
        0 <= y < height,
    ensures
        0 <= grid_index(width, x, y) < width * height,
        grid_index(width, x, y) + 1 <= (y + 1) * width,
        y * width <= grid_index(width, x, y),
{
    assert(0 <= y * width) by (nonlinear_arith)
        requires
            0 <= y,
            0 <= width,
    ;
    assert((y + 1) * width <= width * height) by (nonlinear_arith)
        requires
            y + 1 <= height,
            0 <= width,
    ;
    assert((y + 1) * width == y * width + width) by (nonlinear_arith);
}

/// Two distinct positions of a grid have distinct indices.
pub proof fn lemma_grid_index_injective(width: int, x1: int, y1: int, x2: int, y2: int)
    requires
        0 <= x1 < width,
        0 <= x2 < width,
        0 <= y1,
        0 <= y2,
        grid_index(width, x1, y1) == grid_index(width, x2, y2),
    ensures
        x1 == x2 && y1 == y2,
{
    if y1 < y2 {
        assert((y1 + 1) * width <= y2 * width) by (nonlinear_arith)
            requires
                y1 + 1 <= y2,
                0 <= width,
        ;
        assert((y1 + 1) * width == y1 * width + width) by (nonlinear_arith);
    } else if y2 < y1 {
        assert((y2 + 1) * width <= y1 * width) by (nonlinear_arith)
            requires
                y2 + 1 <= y1,
                0 <= width,
        ;
        assert((y2 + 1) * width == y2 * width + width) by (nonlinear_arith);
    }
}

/// A fixed-size, row-major grid of cells.
pub struct Buffer {
    pub width: usize,
    pub height: usize,
    pub cells: Vec<Cell>,
}

impl Buffer {
    pub open spec fn wf(&self) -> bool {
        &&& self.cells@.len() == self.width * self.height
        &&& self.width * self.height <= usize::MAX
    }

    /// The cell at `(x, y)`.
    pub open spec fn at(&self, x: int, y: int) -> Cell {
        self.cells@[grid_index(self.width as int, x, y)]
    }

    pub open spec fn in_bounds(&self, x: int, y: int) -> bool {
        0 <= x < self.width && 0 <= y < self.height
    }

    pub fn new(width: usize, height: usize) -> (r: Buffer)
        requires
            width * height <= usize::MAX,
        ensures
            r.wf(),
            r.width == width,
            r.height == height,
            forall|i: int| 0 <= i < r.cells@.len() ==> r.cells@[i] == Cell::blank(),
    {
        let n: usize = width * height;
        let mut cells: Vec<Cell> = Vec::with_capacity(n);
        let mut i: usize = 0;
        while i < n
            invariant
                i <= n,
                cells@.len() == i,
                forall|j: int| 0 <= j < i ==> cells@[j] == Cell::blank(),
            decreases n - i,
        {
            cells.push(Cell::default());
            i = i + 1;
        }
        Buffer { width, height, cells }
    }

    /// Sets every cell to the blank cell.
    pub fn clear(&mut self)
        requires
            old(self).wf(),
        ensures
            final(self).wf(),
            final(self).width == old(self).width,
            final(self).height == old(self).height,
            forall|i: int| 0 <= i < final(self).cells@.len() ==> final(self).cells@[i] == Cell::blank(),
            forall|i: int, j: int|
                final(self).in_bounds(i, j) ==> #[trigger] final(self).at(i, j) == Cell::blank(),
    {
        let n: usize = self.cells.len();
        let mut i: usize = 0;
        while i < n
            invariant
                i <= n,
                self.cells@.len() == n,
                self.wf(),
                self.width == old(self).width,
                self.height == old(self).height,
                forall|j: int| 0 <= j < i ==> self.cells@[j] == Cell::blank(),
            decreases n - i,
        {
            self.cells.set(i, Cell::default());
            i = i + 1;
        }
        proof {
            assert forall|a: int, b: int| self.in_bounds(a, b) implies #[trigger] self.at(a, b)
                == Cell::blank() by {
                lemma_grid_index(self.width as int, self.height as int, a, b);
            }
        }
    }

    pub fn get(&self, x: usize, y: usize) -> (r: Cell)
        requires
            self.wf(),
            self.in_bounds(x as int, y as int),
        ensures
            r == self.at(x as int, y as int),
    {
        proof {
            lemma_grid_index(self.width as int, self.height as int, x as int, y as int);
        }
        self.cells[y * self.width + x]
    }

    pub fn set(&mut self, x: usize, y: usize, cell: Cell)
        requires
            old(self).wf(),
            old(self).in_bounds(x as int, y as int),
        ensures
            final(self).wf(),
            final(self).width == old(self).width,
            final(self).height == old(self).height,
            final(self).cells@ == old(self).cells@.update(
                grid_index(old(self).width as int, x as int, y as int),
                cell,
            ),
            forall|i: int, j: int|
                old(self).in_bounds(i, j) ==> #[trigger] final(self).at(i, j) == if i == x && j == y {
                    cell
                } else {
                    old(self).at(i, j)
                },
    {
        proof {
            lemma_grid_index(self.width as int, self.height as int, x as int, y as int);
        }
        let i: usize = y * self.width + x;
        self.cells.set(i, cell);
        proof {
            let w = self.width as int;
            assert forall|a: int, b: int| old(self).in_bounds(a, b) implies #[trigger] self.at(a, b)
                == if a == x && b == y {
                cell
            } else {
                old(self).at(a, b)
            } by {
                lemma_grid_index(w, self.height as int, a, b);
                if grid_index(w, a, b) == grid_index(w, x as int, y as int) {
                    lemma_grid_index_injective(w, a, b, x as int, y as int);
                }
            }
        }
    }

    /// Sets every cell of the rectangle of `width` by `height` cells whose
    /// top-left corner is `(x0, y0)` to `value`.
    pub fn fill_rect(&mut self, x0: usize, y0: usize, width: usize, height: usize, value: Cell)
        requires
            old(self).wf(),
            x0 + width <= old(self).width,
            y0 + height <= old(self).height,
        ensures
            final(self).wf(),
            final(self).width == old(self).width,
            final(self).height == old(self).height,
            forall|i: int, j: int|
                old(self).in_bounds(i, j) ==> #[trigger] final(self).at(i, j) == if x0 <= i < x0
                    + width && y0 <= j < y0 + height {
                    value
                } else {
                    old(self).at(i, j)
                },
    {
        let ghost start = *self;
        let mut y: usize = y0;
        while y < y0 + height
            invariant
                y0 <= y <= y0 + height,
                x0 + width <= start.width,
                y0 + height <= start.height,
                self.wf(),
                self.width == start.width,
                self.height == start.height,
                forall|i: int, j: int|
                    start.in_bounds(i, j) ==> #[trigger] self.at(i, j) == if x0 <= i < x0 + width
                        && y0 <= j < y {
                        value
                    } else {
                        start.at(i, j)
                    },
            decreases y0 + height - y,
        {
            let mut x: usize = x0;
            while x < x0 + width
                invariant
                    y0 <= y < y0 + height,
                    x0 <= x <= x0 + width,
                    x0 + width <= start.width,
                    y0 + height <= start.height,
                    self.wf(),
                    self.width == start.width,
                    self.height == start.height,
                    forall|i: int, j: int|
                        start.in_bounds(i, j) ==> #[trigger] self.at(i, j) == if x0 <= i < x0
                            + width && (y0 <= j < y || (j == y && i < x)) {
                            value
                        } else {
                            start.at(i, j)
                        },
                decreases x0 + width - x,
            {
                self.set(x, y, value);
                x = x + 1;
            }
            y = y + 1;
        }
    }

    /// Replaces every cell by its image under `transform`.
    pub fn apply<F: Fn(Cell) -> Cell>(&mut self, transform: F)
        requires
            old(self).wf(),
            forall|c: Cell| #[trigger] transform.requires((c,)),
        ensures
            final(self).wf(),
            final(self).width == old(self).width,
            final(self).height == old(self).height,
            forall|i: int|
                0 <= i < old(self).cells@.len() ==> transform.ensures(
                    (old(self).cells@[i],),
                    #[trigger] final(self).cells@[i],
                ),
    {
        let ghost start = *self;
        let n: usize = self.cells.len();
        let mut i: usize = 0;
        while i < n
            invariant
                i <= n,
                n == start.cells@.len(),
                self.cells@.len() == n,
                self.wf(),
                self.width == start.width,
                self.height == start.height,
                forall|c: Cell| #[trigger] transform.requires((c,)),
                forall|j: int| i <= j < n ==> #[trigger] self.cells@[j] == start.cells@[j],
                forall|j: int|
                    0 <= j < i ==> transform.ensures((start.cells@[j],), #[trigger] self.cells@[j]),
            decreases n - i,
        {
            let c = transform(self.cells[i]);
            self.cells.set(i, c);
            i = i + 1;
        }
    }
}


/// One operation on the terminal, as the flush emits it.
#[derive(Clone, Copy, PartialEq, Eq, Structural, Debug)]
pub enum DrawOp {
    HideCursor,
    ShowCursor,
    MoveTo(u16, u16),
    SetForeground(Color),
    SetBackground(Color),
    Print(char),
}

/// What a terminal shows, where it writes next and with which colors.
pub struct Screen {
    pub cells: Seq<Cell>,
    pub x: int,
    pub y: int,
    pub fg: Color,
    pub bg: Color,
    pub cursor_shown: bool,
}

/// The effect of one operation on a terminal `width` cells wide. Printing
/// writes the character in the current colors and moves one cell right.
pub open spec fn step(width: int, s: Screen, op: DrawOp) -> Screen {
    match op {
        DrawOp::HideCursor => Screen { cursor_shown: false, ..s },
        DrawOp::ShowCursor => Screen { cursor_shown: true, ..s },
        DrawOp::MoveTo(x, y) => Screen { x: x as int, y: y as int, ..s },
        DrawOp::SetForeground(c) => Screen { fg: c, ..s },
        DrawOp::SetBackground(c) => Screen { bg: c, ..s },
        DrawOp::Print(ch) => Screen {
            cells: if 0 <= s.x < width && 0 <= grid_index(width, s.x, s.y) < s.cells.len() {
                s.cells.update(grid_index(width, s.x, s.y), Cell { ch, fg: s.fg, bg: s.bg })
            } else {
                s.cells
            },
            x: s.x + 1,
            ..s
        },
    }
}

/// The terminal after performing `ops` in order, starting from `s`.
pub open spec fn replay(width: int, s: Screen, ops: Seq<DrawOp>) -> Screen
    decreases ops.len(),
{
    if ops.len() == 0 {
        s
    } else {
        step(width, replay(width, s, ops.drop_last()), ops.last())
    }
}

/// How many of `ops` write a character.
pub open spec fn print_count(ops: Seq<DrawOp>) -> nat
    decreases ops.len(),
{
    if ops.len() == 0 {
        0
    } else {
        print_count(ops.drop_last()) + if ops.last() is Print {
            1nat
        } else {
            0nat
        }
    }
}

/// How many of the first `k` positions hold different cells in `a` and `b`.
pub open spec fn diff_count(a: Seq<Cell>, b: Seq<Cell>, k: int) -> nat
    decreases k,
{
    if k <= 0 {
        0
    } else {
        diff_count(a, b, k - 1) + if a[k - 1] != b[k - 1] {
            1nat
        } else {
            0nat
        }
    }
}

/// The first `k` cells of `a` followed by the rest of `b`.
pub open spec fn splice(a: Seq<Cell>, b: Seq<Cell>, k: int) -> Seq<Cell> {
    Seq::new(b.len(), |i: int| if i < k { a[i] } else { b[i] })
}

proof fn lemma_replay_push(width: int, s: Screen, ops: Seq<DrawOp>, op: DrawOp)
    ensures
        replay(width, s, ops.push(op)) == step(width, replay(width, s, ops), op),
{
    assert(ops.push(op).drop_last() =~= ops);
}

proof fn lemma_print_count_push(ops: Seq<DrawOp>, op: DrawOp)
    ensures
        print_count(ops.push(op)) == print_count(ops) + if op is Print {
            1nat
        } else {
            0nat
        },
{
    assert(ops.push(op).drop_last() =~= ops);
}

/// What the flush of a frame promises, for any terminal that showed
/// `previous`: after `ops` it shows `current`, the cursor is where it was
/// asked for (or hidden), and one character is written per differing cell.
pub open spec fn flushes(
    current: &Buffer,
    previous: &Buffer,
    cursor: Option<(usize, usize)>,
    ops: Seq<DrawOp>,
) -> bool {
    &&& forall|s: Screen|
        s.cells == previous.cells@ ==> {
            let r = #[trigger] replay(current.width as int, s, ops);
            &&& r.cells == current.cells@
            &&& match cursor {
                Some((x, y)) => r.cursor_shown && r.x == x && r.y == y,
                None => !r.cursor_shown,
            }
        }
    &&& print_count(ops) == diff_count(current.cells@, previous.cells@, current.cells@.len() as int)
}

/// Where a flush will write next (once it has written), and the colors it
/// last set.
pub struct Pen {
    pub at: Option<(int, int)>,
    pub fg: Color,
    pub bg: Color,
}

/// The operations that write cell `c` at `(x, y)` with the pen in state
/// `pen`: a cursor move unless the pen already stands there, a color
/// command only for a color that differs from the pen's, then the character.
pub open spec fn cell_ops(pen: Pen, x: int, y: int, c: Cell) -> Seq<DrawOp> {
    (if pen.at == Some((x, y)) {
        Seq::<DrawOp>::empty()
    } else {
        seq![DrawOp::MoveTo(x as u16, y as u16)]
    }) + (if c.fg != pen.fg {
        seq![DrawOp::SetForeground(c.fg)]
    } else {
        Seq::<DrawOp>::empty()
    }) + (if c.bg != pen.bg {
        seq![DrawOp::SetBackground(c.bg)]
    } else {
        Seq::<DrawOp>::empty()
    }) + seq![DrawOp::Print(c.ch)]
}

/// The operations for the first `k` cells, in row-major order of a grid
/// `width` cells wide, that differ between `current` and `previous`, and
/// the pen after them.
pub open spec fn scan(current: Seq<Cell>, previous: Seq<Cell>, width: int, k: int) -> (
    Seq<DrawOp>,
    Pen,
)
    decreases k,
{
    if k <= 0 {
        (Seq::empty(), Pen { at: None, fg: Color::Default, bg: Color::Default })
    } else {
        let (ops, pen) = scan(current, previous, width, k - 1);
        let i = k - 1;
        let c = current[i];
        if c != previous[i] {
            (
                ops + cell_ops(pen, i % width, i / width, c),
                Pen { at: Some((i % width + 1, i / width)), fg: c.fg, bg: c.bg },
            )
        } else {
            (ops, pen)
        }
    }
}

/// The whole flush: hide the cursor and reset both colors, write the
/// differing cells in row-major order, then show the cursor where it is
/// asked for, if it is.
pub open spec fn flush_ops(current: &Buffer, previous: &Buffer, cursor: Option<(usize, usize)>) -> Seq<
    DrawOp,
> {
    seq![
        DrawOp::HideCursor,
        DrawOp::SetForeground(Color::Default),
        DrawOp::SetBackground(Color::Default),
    ] + scan(current.cells@, previous.cells@, current.width as int, current.cells@.len() as int).0
        + match cursor {
        Some((x, y)) => seq![DrawOp::MoveTo(x as u16, y as u16), DrawOp::ShowCursor],
        None => Seq::empty(),
    }
}

/// Computes the operations that turn a terminal showing `previous` into one
/// showing `current`: only differing cells are written, the cursor is moved
/// only where the next write does not follow the last one, and a color is
/// set only when it changes. The cursor is hidden while drawing and shown
/// at `cursor` at the end, if one is given.
pub fn diff_frames(current: &Buffer, previous: &Buffer, cursor: Option<(usize, usize)>) -> (ops:
    Vec<DrawOp>)
    requires
        current.wf(),
        previous.wf(),
        current.width == previous.width,
        current.height == previous.height,
        current.width <= 65536,
        current.height <= 65536,
        cursor matches Some((x, y)) ==> current.in_bounds(x as int, y as int),
    ensures
        ops@ == flush_ops(current, previous, cursor),
        flushes(current, previous, cursor, ops@),
{
    let ghost w = current.width as int;
    let ghost n = current.cells@.len() as int;
    let ghost cur = current.cells@;
    let ghost prev = previous.cells@;
    let mut ops: Vec<DrawOp> = Vec::new();
    let mut last_fg = Color::Default;
    let mut last_bg = Color::Default;
    ops.push(DrawOp::HideCursor);
    ops.push(DrawOp::SetForeground(Color::Default));
    ops.push(DrawOp::SetBackground(Color::Default));
    proof {
        assert forall|s: Screen| s.cells == prev implies {
            let r = #[trigger] replay(w, s, ops@);
            &&& r.cells == splice(cur, prev, 0)
            &&& r.fg == last_fg
            &&& r.bg == last_bg
            &&& !r.cursor_shown
        } by {
            let o0 = Seq::<DrawOp>::empty();
            lemma_replay_push(w, s, o0, DrawOp::HideCursor);
            lemma_replay_push(w, s, o0.push(DrawOp::HideCursor), DrawOp::SetForeground(Color::Default));
            lemma_replay_push(
                w,
                s,
                o0.push(DrawOp::HideCursor).push(DrawOp::SetForeground(Color::Default)),
                DrawOp::SetBackground(Color::Default),
            );
            assert(ops@ =~= o0.push(DrawOp::HideCursor).push(DrawOp::SetForeground(Color::Default)).push(
                DrawOp::SetBackground(Color::Default)));
            assert(splice(cur, prev, 0) =~= prev);
        }
        let o0 = Seq::<DrawOp>::empty();
        lemma_print_count_push(o0, DrawOp::HideCursor);
        lemma_print_count_push(o0.push(DrawOp::HideCursor), DrawOp::SetForeground(Color::Default));
        lemma_print_count_push(
            o0.push(DrawOp::HideCursor).push(DrawOp::SetForeground(Color::Default)),
            DrawOp::SetBackground(Color::Default),
        );
        assert(ops@ =~= o0.push(DrawOp::HideCursor).push(DrawOp::SetForeground(Color::Default)).push(
            DrawOp::SetBackground(Color::Default)));
    }
    let ghost header = ops@;
    // Where the terminal will write next, once something was written.
    let mut written = false;
    let mut cx: usize = 0;
    let mut cy: usize = 0;
    let mut y: usize = 0;
    while y < current.height
        invariant
            current.wf(),
            previous.wf(),
            current.width == previous.width,
            current.height == previous.height,
            current.width <= 65536,
            current.height <= 65536,
            w == current.width,
            n == cur.len(),
            cur == current.cells@,
            prev == previous.cells@,
            y <= current.height,
            forall|s: Screen|
                s.cells == prev ==> {
                    let r = #[trigger] replay(w, s, ops@);
                    &&& r.cells == splice(cur, prev, y * w)
                    &&& r.fg == last_fg
                    &&& r.bg == last_bg
                    &&& !r.cursor_shown
                    &&& written ==> r.x == cx && r.y == cy
                },
            print_count(ops@) == diff_count(cur, prev, y * w),
            ops@ == header + scan(cur, prev, w, y * w).0,
            scan(cur, prev, w, y * w).1 == (Pen {
                at: if written { Some((cx as int, cy as int)) } else { None },
                fg: last_fg,
                bg: last_bg,
            }),
        decreases current.height - y,
    {
        let mut x: usize = 0;
        while x < current.width
            invariant
                current.wf(),
                previous.wf(),
                current.width == previous.width,
                current.height == previous.height,
                current.width <= 65536,
                current.height <= 65536,
                w == current.width,
                n == cur.len(),
                cur == current.cells@,
                prev == previous.cells@,
                y < current.height,
                x <= current.width,
                forall|s: Screen|
                    s.cells == prev ==> {
                        let r = #[trigger] replay(w, s, ops@);
                        &&& r.cells == splice(cur, prev, grid_index(w, x as int, y as int))
                        &&& r.fg == last_fg
                        &&& r.bg == last_bg
                        &&& !r.cursor_shown
                        &&& written ==> r.x == cx && r.y == cy
                    },
                print_count(ops@) == diff_count(cur, prev, grid_index(w, x as int, y as int)),
                ops@ == header + scan(cur, prev, w, grid_index(w, x as int, y as int)).0,
                scan(cur, prev, w, grid_index(w, x as int, y as int)).1 == (Pen {
                    at: if written { Some((cx as int, cy as int)) } else { None },
                    fg: last_fg,
                    bg: last_bg,
                }),
            decreases current.width - x,
        {
            proof {
                lemma_grid_index(w, current.height as int, x as int, y as int);
            }
            let ghost k = grid_index(w, x as int, y as int);
            proof {
                vstd::arithmetic::div_mod::lemma_fundamental_div_mod_converse(k, w, y as int, x as int);
            }
            let curr = current.get(x, y);
            let prv = previous.get(x, y);
            let ghost ops0 = ops@;
            if curr != prv {
                let ghost ops1 = ops@;
                if !written || x != cx || y != cy {
                    ops.push(DrawOp::MoveTo(x as u16, y as u16));
                }
                let ghost ops2 = ops@;
                if curr.fg != last_fg {
                    ops.push(DrawOp::SetForeground(curr.fg));
                    last_fg = curr.fg;
                }
                let ghost ops3 = ops@;
                if curr.bg != last_bg {
                    ops.push(DrawOp::SetBackground(curr.bg));
                    last_bg = curr.bg;
                }
                let ghost ops4 = ops@;
                ops.push(DrawOp::Print(curr.ch));
                proof {
                    assert forall|s: Screen| s.cells == prev implies {
                        let r = #[trigger] replay(w, s, ops@);
                        &&& r.cells == splice(cur, prev, k + 1)
                        &&& r.fg == last_fg
                        &&& r.bg == last_bg
                        &&& !r.cursor_shown
                        &&& r.x == x + 1 && r.y == y
                    } by {
                        let r0 = replay(w, s, ops0);
                        if ops2 != ops1 {
                            lemma_replay_push(w, s, ops1, DrawOp::MoveTo(x as u16, y as u16));
                        }
                        let r2 = replay(w, s, ops2);
                        assert(r2.x == x && r2.y == y);
                        assert(r2.cells == r0.cells && r2.fg == r0.fg && r2.bg == r0.bg);
                        if ops3 != ops2 {
                            lemma_replay_push(w, s, ops2, DrawOp::SetForeground(curr.fg));
                        }
                        if ops4 != ops3 {
                            lemma_replay_push(w, s, ops3, DrawOp::SetBackground(curr.bg));
                        }
                        lemma_replay_push(w, s, ops4, DrawOp::Print(curr.ch));
                        let r4 = replay(w, s, ops4);
                        assert(r4.x == x && r4.y == y && r4.cells == r0.cells);
                        assert(r4.fg == curr.fg && r4.bg == curr.bg);
                        assert(splice(cur, prev, k).update(k, curr) =~= splice(cur, prev, k + 1));
                    }
                    if ops2 != ops1 {
                        lemma_print_count_push(ops1, DrawOp::MoveTo(x as u16, y as u16));
                    }
                    if ops3 != ops2 {
                        lemma_print_count_push(ops2, DrawOp::SetForeground(curr.fg));
                    }
                    if ops4 != ops3 {
                        lemma_print_count_push(ops3, DrawOp::SetBackground(curr.bg));
                    }
                    lemma_print_count_push(ops4, DrawOp::Print(curr.ch));
                    assert(print_count(ops@) == diff_count(cur, prev, k + 1));
                    let pen = scan(cur, prev, w, k).1;
                    assert(ops2 =~= ops1 + if pen.at == Some((x as int, y as int)) {
                        Seq::<DrawOp>::empty()
                    } else {
                        seq![DrawOp::MoveTo(x as u16, y as u16)]
                    });
                    assert(ops3 =~= ops2 + if curr.fg != pen.fg {
                        seq![DrawOp::SetForeground(curr.fg)]
                    } else {
                        Seq::<DrawOp>::empty()
                    });
                    assert(ops4 =~= ops3 + if curr.bg != pen.bg {
                        seq![DrawOp::SetBackground(curr.bg)]
                    } else {
                        Seq::<DrawOp>::empty()
                    });
                    assert(ops@ =~= header + scan(cur, prev, w, k + 1).0);
                }
                written = true;
                cx = x + 1;
                cy = y;
            } else {
                proof {
                    assert(splice(cur, prev, k) =~= splice(cur, prev, k + 1));
                }
            }
            proof {
                assert(grid_index(w, x + 1, y as int) == k + 1);
            }
            x = x + 1;
        }
        proof {
            assert(grid_index(w, x as int, y as int) == (y + 1) * w) by (nonlinear_arith)
                requires
                    x == w,
            ;
        }
        y = y + 1;
    }
    proof {
        assert(y * w == n) by (nonlinear_arith)
            requires
                y == current.height,
                w == current.width,
                n == current.width * current.height,
        ;
        assert(splice(cur, prev, n) =~= cur);
        assert(ops@ =~= header + scan(cur, prev, w, n).0);
    }
    let ghost ops5 = ops@;
    match cursor {
        Some((x, y)) => {
            ops.push(DrawOp::MoveTo(x as u16, y as u16));
            ops.push(DrawOp::ShowCursor);
            proof {
                assert forall|s: Screen| s.cells == prev implies {
                    let r = #[trigger] replay(w, s, ops@);
                    &&& r.cells == cur
                    &&& r.cursor_shown && r.x == x && r.y == y
                } by {
                    lemma_replay_push(w, s, ops5, DrawOp::MoveTo(x as u16, y as u16));
                    lemma_replay_push(w, s, ops5.push(DrawOp::MoveTo(x as u16, y as u16)), DrawOp::ShowCursor);
                    assert(ops@ =~= ops5.push(DrawOp::MoveTo(x as u16, y as u16)).push(DrawOp::ShowCursor));
                }
                lemma_print_count_push(ops5, DrawOp::MoveTo(x as u16, y as u16));
                lemma_print_count_push(ops5.push(DrawOp::MoveTo(x as u16, y as u16)), DrawOp::ShowCursor);
                assert(ops@ =~= ops5.push(DrawOp::MoveTo(x as u16, y as u16)).push(DrawOp::ShowCursor));
            }
        },
        None => {},
    }
    proof {
        assert(ops@ =~= flush_ops(current, previous, cursor));
    }
    ops
}


/// A double-buffered character surface: frames are composed in `back` while
/// `front` holds what the terminal shows.
pub struct Console {
    pub front: Buffer,
    pub back: Buffer,
    pub cursor: Option<(usize, usize)>,
}

impl Console {
    pub open spec fn wf(&self) -> bool {
        &&& self.front.wf()
        &&& self.back.wf()
        &&& self.front.width == self.back.width
        &&& self.front.height == self.back.height
        &&& self.back.width <= 65536
        &&& self.back.height <= 65536
        &&& self.cursor matches Some((x, y)) ==> self.back.in_bounds(x as int, y as int)
    }

    pub open spec fn width(&self) -> int {
        self.back.width as int
    }

    pub open spec fn height(&self) -> int {
        self.back.height as int
    }

    /// Everything but the frame being composed stays as it was.
    pub open spec fn same_frame_size(&self, other: &Console) -> bool {
        &&& self.back.width == other.back.width
        &&& self.back.height == other.back.height
        &&& self.front == other.front
    }

    /// A console of `width` by `height` blank cells on both buffers, with the
    /// cursor hidden.
    pub fn new(width: usize, height: usize) -> (r: Console)
        requires
            width * height <= usize::MAX,
            width <= 65536,
            height <= 65536,
        ensures
            r.wf(),
            r.width() == width,
            r.height() == height,
            r.cursor is None,
            forall|i: int, j: int| r.back.in_bounds(i, j) ==> #[trigger] r.back.at(i, j) == Cell::blank(),
            forall|i: int, j: int|
                r.front.in_bounds(i, j) ==> #[trigger] r.front.at(i, j) == Cell::blank(),
    {
        let front = Buffer::new(width, height);
        let back = Buffer::new(width, height);
        proof {
            assert forall|i: int, j: int| back.in_bounds(i, j) implies #[trigger] back.at(i, j)
                == Cell::blank() by {
                lemma_grid_index(width as int, height as int, i, j);
            }
            assert forall|i: int, j: int| front.in_bounds(i, j) implies #[trigger] front.at(i, j)
                == Cell::blank() by {
                lemma_grid_index(width as int, height as int, i, j);
            }
        }
        Console { front, back, cursor: None }
    }

    /// Blanks the frame being composed and hides the cursor.
    pub fn clear(&mut self)
        requires
            old(self).wf(),
        ensures
            final(self).wf(),
            final(self).same_frame_size(old(self)),
            final(self).cursor is None,
            forall|i: int, j: int|
                final(self).back.in_bounds(i, j) ==> #[trigger] final(self).back.at(i, j)
                    == Cell::blank(),
    {
        self.back.clear();
        self.cursor = None;
    }

    /// Blanks the rectangle of `width` by `height` cells at `(x, y)`.
    pub fn clear_rect(&mut self, x: usize, y: usize, width: usize, height: usize)
        requires
            old(self).wf(),
            x + width <= old(self).width(),
            y + height <= old(self).height(),
        ensures
            final(self).wf(),
            final(self).same_frame_size(old(self)),
            final(self).cursor == old(self).cursor,
            forall|i: int, j: int|
                old(self).back.in_bounds(i, j) ==> #[trigger] final(self).back.at(i, j) == if x
                    <= i < x + width && y <= j < y + height {
                    Cell::blank()
                } else {
                    old(self).back.at(i, j)
                },
    {
        self.back.fill_rect(x, y, width, height, Cell::default());
    }

    pub fn set_cell(&mut self, x: usize, y: usize, cell: Cell)
        requires
            old(self).wf(),
            old(self).back.in_bounds(x as int, y as int),
        ensures
            final(self).wf(),
            final(self).same_frame_size(old(self)),
            final(self).cursor == old(self).cursor,
            forall|i: int, j: int|
                old(self).back.in_bounds(i, j) ==> #[trigger] final(self).back.at(i, j) == if i
                    == x && j == y {
                    cell
                } else {
                    old(self).back.at(i, j)
                },
    {
        self.back.set(x, y, cell);
    }

    /// Writes `text` left to right from `(x0, y0)` in the given colors,
    /// dropping what would fall past the right edge.
    pub fn print(&mut self, x0: usize, y0: usize, text: &str, fg: Color, bg: Color)
        requires
            old(self).wf(),
            y0 < old(self).height(),
        ensures
            final(self).wf(),
            final(self).same_frame_size(old(self)),
            final(self).cursor == old(self).cursor,
            forall|i: int, j: int|
                old(self).back.in_bounds(i, j) ==> #[trigger] final(self).back.at(i, j) == if j
                    == y0 && x0 <= i < x0 + text@.len() {
                    Cell { ch: text@[i - x0], fg, bg }
                } else {
                    old(self).back.at(i, j)
                },
    {
        let len = text.unicode_len();
        let width = self.back.width;
        let limit: usize = if x0 >= width {
            0
        } else if len < width - x0 {
            len
        } else {
            width - x0
        };
        let ghost start = *self;
        let mut dx: usize = 0;
        while dx < limit
            invariant
                self.wf(),
                self.same_frame_size(&start),
                self.cursor == start.cursor,
                y0 < self.height(),
                width == self.back.width,
                len == text@.len(),
                limit <= len,
                x0 + limit <= width || limit == 0,
                dx <= limit,
                forall|i: int, j: int|
                    start.back.in_bounds(i, j) ==> #[trigger] self.back.at(i, j) == if j == y0
                        && x0 <= i < x0 + dx {
                        Cell { ch: text@[i - x0], fg, bg }
                    } else {
                        start.back.at(i, j)
                    },
            decreases limit - dx,
        {
            let ch = text.get_char(dx);
            self.back.set(x0 + dx, y0, Cell { ch, fg, bg });
            dx = dx + 1;
        }
    }

    /// Dims the colors of every cell of the frame being composed.
    pub fn dim(&mut self)
        requires
            old(self).wf(),
        ensures
            final(self).wf(),
            final(self).same_frame_size(old(self)),
            final(self).cursor == old(self).cursor,
            forall|i: int, j: int|
                old(self).back.in_bounds(i, j) ==> #[trigger] final(self).back.at(i, j)
                    == old(self).back.at(i, j).dimmed(),
    {
        let ghost start = *self;
        let darken = |cell: Cell| -> (r: Cell)
            ensures
                r == cell.dimmed(),
            {
                let d = Cell::new(cell.ch, cell.fg.to_dim(), cell.bg.to_dim());
                d
            };
        self.back.apply(darken);
        proof {
            assert forall|i: int, j: int| start.back.in_bounds(i, j) implies #[trigger] self.back.at(
                i,
                j,
            ) == start.back.at(i, j).dimmed() by {
                lemma_grid_index(start.back.width as int, start.back.height as int, i, j);
            }
        }
    }

    /// Asks for the cursor to be shown at `(x, y)` once the frame is displayed.
    pub fn show_cursor(&mut self, x: usize, y: usize)
        requires
            old(self).wf(),
            old(self).back.in_bounds(x as int, y as int),
        ensures
            final(self).wf(),
            final(self).front == old(self).front,
            final(self).back == old(self).back,
            final(self).cursor == Some((x, y)),
    {
        self.cursor = Some((x, y));
    }

    pub fn hide_cursor(&mut self)
        requires
            old(self).wf(),
        ensures
            final(self).wf(),
            final(self).front == old(self).front,
            final(self).back == old(self).back,
            final(self).cursor is None,
    {
        self.cursor = None;
    }

    /// Makes the composed frame the displayed one and returns the operations
    /// that bring the terminal from the last displayed frame to it. The
    /// buffer that was displayed becomes the one to compose the next frame in.
    pub fn display(&mut self) -> (ops: Vec<DrawOp>)
        requires
            old(self).wf(),
        ensures
            final(self).wf(),
            final(self).front == old(self).back,
            final(self).back == old(self).front,
            final(self).cursor == old(self).cursor,
            ops@ == flush_ops(&old(self).back, &old(self).front, old(self).cursor),
            flushes(&old(self).back, &old(self).front, old(self).cursor, ops@),
    {
        std::mem::swap(&mut self.back, &mut self.front);
        diff_frames(&self.front, &self.back, self.cursor)
    }
}


proof fn lemma_diff_count_same(a: Seq<Cell>, k: int)
    ensures
        diff_count(a, a, k) == 0,
    decreases k,
{
    if k > 0 {
        lemma_diff_count_same(a, k - 1);
    }
}

proof fn lemma_scan_same(a: Seq<Cell>, width: int, k: int)
    ensures
        scan(a, a, width, k) == (Seq::<DrawOp>::empty(), Pen {
            at: None,
            fg: Color::Default,
            bg: Color::Default,
        }),
    decreases k,
{
    if k > 0 {
        lemma_scan_same(a, width, k - 1);
    }
}

/// Flushing a frame identical to the one on screen writes no character,
/// moves the cursor and sets a color only in the fixed opening and closing
/// operations, and leaves the screen as it was.
pub proof fn unchanged_frame_writes_nothing(
    current: &Buffer,
    previous: &Buffer,
    cursor: Option<(usize, usize)>,
    ops: Seq<DrawOp>,
    s: Screen,
)
    requires
        ops == flush_ops(current, previous, cursor),
        flushes(current, previous, cursor, ops),
        current.cells@ == previous.cells@,
        s.cells == previous.cells@,
    ensures
        print_count(ops) == 0,
        replay(current.width as int, s, ops).cells == s.cells,
        ops == seq![
            DrawOp::HideCursor,
            DrawOp::SetForeground(Color::Default),
            DrawOp::SetBackground(Color::Default),
        ] + match cursor {
            Some((x, y)) => seq![DrawOp::MoveTo(x as u16, y as u16), DrawOp::ShowCursor],
            None => Seq::<DrawOp>::empty(),
        },
{
    lemma_diff_count_same(current.cells@, current.cells@.len() as int);
    lemma_scan_same(current.cells@, current.width as int, current.cells@.len() as int);
    assert(seq![
        DrawOp::HideCursor,
        DrawOp::SetForeground(Color::Default),
        DrawOp::SetBackground(Color::Default),
    ] + Seq::<DrawOp>::empty() =~= seq![
        DrawOp::HideCursor,
        DrawOp::SetForeground(Color::Default),
        DrawOp::SetBackground(Color::Default),
    ]);
    // bring the flush's promise about this terminal into view
    let _shown = replay(current.width as int, s, ops);
}

/// A key that is not a printable character.
#[derive(Clone, Copy, PartialEq, Eq, Structural, Debug)]
pub enum Key {
    Left,
    Right,
    Up,
    Down,
    Home,
    End,
    PgUp,
    PgDn,
}

/// One input event.
#[derive(Clone, Copy, PartialEq, Eq, Structural, Debug)]
pub enum Event {
    Abort,
    KeyChar(char),
    KeySpecial(Key),
}

} // verus!
