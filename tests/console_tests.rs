use goblin_castle::console::{diff_frames, Buffer, Cell, Color, Console, DrawOp};

fn prints(ops: &[DrawOp]) -> usize {
    ops.iter().filter(|op| matches!(op, DrawOp::Print(_))).count()
}

fn blank() -> Cell {
    Cell::new(' ', Color::Default, Color::Default)
}

#[test]
fn clear_resets_every_cell_to_default() {
    let mut console = Console::new(5, 3);
    for y in 0..3 {
        for x in 0..5 {
            console.set_cell(x, y, Cell::new('x', Color::Red, Color::Blue));
        }
    }
    console.show_cursor(1, 1);
    console.clear();
    for y in 0..3 {
        for x in 0..5 {
            assert_eq!(console.back.get(x, y), blank());
        }
    }
    assert_eq!(console.cursor, None);
}

#[test]
fn buffer_clear_and_default_cell() {
    let mut b = Buffer::new(4, 2);
    b.set(3, 1, Cell::new('q', Color::Green, Color::Black));
    assert_eq!(b.get(3, 1), Cell::new('q', Color::Green, Color::Black));
    b.clear();
    assert_eq!(b.get(3, 1), Cell::default());
    assert_eq!(Cell::default(), blank());
}

#[test]
fn identical_frame_writes_nothing() {
    let mut console = Console::new(6, 4);
    console.set_cell(2, 2, Cell::new('a', Color::White, Color::Black));
    let first = console.display();
    assert_eq!(prints(&first), 1);
    // compose the very same frame again
    console.clear();
    console.set_cell(2, 2, Cell::new('a', Color::White, Color::Black));
    let second = console.display();
    assert_eq!(prints(&second), 0);
    assert_eq!(second, vec![
        DrawOp::HideCursor,
        DrawOp::SetForeground(Color::Default),
        DrawOp::SetBackground(Color::Default),
    ]);
}

#[test]
fn one_write_per_differing_cell() {
    let mut console = Console::new(8, 3);
    console.set_cell(0, 0, Cell::new('a', Color::Red, Color::Black));
    console.set_cell(7, 0, Cell::new('b', Color::Red, Color::Black));
    console.set_cell(3, 2, Cell::new('c', Color::Blue, Color::Black));
    let ops = console.display();
    assert_eq!(prints(&ops), 3);
    // the next frame blanks one of them and keeps the others
    console.clear();
    console.set_cell(0, 0, Cell::new('a', Color::Red, Color::Black));
    console.set_cell(7, 0, Cell::new('b', Color::Red, Color::Black));
    let ops = console.display();
    assert_eq!(prints(&ops), 1);
}

#[test]
fn diff_emits_exact_operations() {
    let previous = Buffer::new(3, 2);
    let mut current = Buffer::new(3, 2);
    current.set(1, 0, Cell::new('a', Color::BrightRed, Color::Black));
    current.set(2, 0, Cell::new('b', Color::BrightRed, Color::Black));
    current.set(0, 1, Cell::new('c', Color::BrightRed, Color::Blue));
    let ops = diff_frames(&current, &previous, Some((2, 1)));
    assert_eq!(ops, vec![
        DrawOp::HideCursor,
        DrawOp::SetForeground(Color::Default),
        DrawOp::SetBackground(Color::Default),
        DrawOp::MoveTo(1, 0),
        DrawOp::SetForeground(Color::BrightRed),
        DrawOp::SetBackground(Color::Black),
        DrawOp::Print('a'),
        DrawOp::Print('b'),
        DrawOp::MoveTo(0, 1),
        DrawOp::SetBackground(Color::Blue),
        DrawOp::Print('c'),
        DrawOp::MoveTo(2, 1),
        DrawOp::ShowCursor,
    ]);
}

#[test]
fn display_swaps_buffers() {
    let mut console = Console::new(2, 2);
    console.set_cell(1, 1, Cell::new('z', Color::Cyan, Color::Black));
    let _ = console.display();
    assert_eq!(console.front.get(1, 1), Cell::new('z', Color::Cyan, Color::Black));
    assert_eq!(console.back.get(1, 1), blank());
}

#[test]
fn print_truncates_at_right_edge() {
    let mut console = Console::new(5, 2);
    console.print(3, 1, "hello", Color::Green, Color::Black);
    assert_eq!(console.back.get(3, 1), Cell::new('h', Color::Green, Color::Black));
    assert_eq!(console.back.get(4, 1), Cell::new('e', Color::Green, Color::Black));
    assert_eq!(console.back.get(2, 1), blank());
    console.print(9, 0, "far away", Color::Green, Color::Black);
    for x in 0..5 {
        assert_eq!(console.back.get(x, 0), blank());
    }
}

#[test]
fn dim_darkens_colors() {
    let mut console = Console::new(3, 1);
    console.set_cell(0, 0, Cell::new('a', Color::BrightRed, Color::White));
    console.set_cell(1, 0, Cell::new('b', Color::BrightWhite, Color::Blue));
    console.dim();
    assert_eq!(console.back.get(0, 0), Cell::new('a', Color::Red, Color::BrightBlack));
    assert_eq!(console.back.get(1, 0), Cell::new('b', Color::BrightBlack, Color::Blue));
    assert_eq!(console.back.get(2, 0), blank());
    assert_eq!(Color::BrightCyan.to_dim(), Color::Cyan);
    assert_eq!(Color::Black.to_dim(), Color::Black);
}

#[test]
fn clear_rect_blanks_only_the_rectangle() {
    let mut console = Console::new(4, 4);
    for y in 0..4 {
        for x in 0..4 {
            console.set_cell(x, y, Cell::new('#', Color::White, Color::Black));
        }
    }
    console.clear_rect(1, 1, 2, 2);
    for y in 0..4 {
        for x in 0..4 {
            let inside = (1..3).contains(&x) && (1..3).contains(&y);
            let expected = if inside { blank() } else { Cell::new('#', Color::White, Color::Black) };
            assert_eq!(console.back.get(x, y), expected);
        }
    }
}

#[test]
fn hidden_cursor_is_not_shown() {
    let mut console = Console::new(3, 3);
    console.show_cursor(1, 2);
    console.hide_cursor();
    let ops = console.display();
    assert!(!ops.contains(&DrawOp::ShowCursor));
}

#[test]
fn redraw_keeps_only_cursor_operations() {
    let mut console = Console::new(4, 4);
    console.set_cell(1, 1, Cell::new('@', Color::BrightWhite, Color::Black));
    console.show_cursor(1, 1);
    let _ = console.display();
    console.clear();
    console.set_cell(1, 1, Cell::new('@', Color::BrightWhite, Color::Black));
    console.show_cursor(1, 1);
    assert_eq!(console.display(), vec![
        DrawOp::HideCursor,
        DrawOp::SetForeground(Color::Default),
        DrawOp::SetBackground(Color::Default),
        DrawOp::MoveTo(1, 1),
        DrawOp::ShowCursor,
    ]);
}
