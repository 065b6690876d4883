use vixi::gutter::{build_line_section, count_digits};
use vixi::style::{bg, bg_reset, fg, fg_reset, render_styled_text, rgb_of_packed, StyleRange};
use vixi::status_bar::StatusBar;
use vixi::style::{RGBColor, Style, TermionStyles};
use vixi::view::{EditorView, LineDescription, Operation, OperationKind, RedrawBehavior};
use vixi::window::{DrawCommand, RecordingWindow, WindowSize};

fn desc(text: &str, ln: usize) -> LineDescription {
    LineDescription { text: String::from(text), styles: Vec::new(), ln: Some(ln) }
}

fn ins(lines: Vec<LineDescription>) -> Operation {
    Operation { kind: OperationKind::Ins, n: lines.len(), ln: None, lines }
}

fn view_with_height(height: u32) -> EditorView<RecordingWindow> {
    EditorView::new(
        "view-id-1",
        RecordingWindow::new(WindowSize { height, width: 80 }),
        TermionStyles::new(),
    )
}

fn is_paint(cmd: &DrawCommand) -> bool {
    matches!(cmd, DrawCommand::ClearLine { .. } | DrawCommand::Text { .. })
}

#[test]
fn moving_the_cursor_below_the_window_scrolls_down() {
    // Viewport height 10, screen_start 0: move_cursor(12, 3) scrolls so the
    // cursor lands on the last row, and asks for the window [3, 13].
    let mut view = view_with_height(10);

    let scroll = view.move_cursor(12, 3);

    assert_eq!(Some((3, 13)), scroll);
    assert_eq!(3, view.screen_start());
    assert_eq!(9, view.cursor().y);
    assert_eq!(3, view.cursor().x);

    // The scroll drew a full repaint, ending on the cursor and a refresh.
    let recorded = view.window().recorded();
    assert!(recorded.len() >= 2);
    assert_eq!(DrawCommand::MoveCursor { y: 9, x: 3 }, recorded[recorded.len() - 2]);
    assert_eq!(DrawCommand::Refresh, recorded[recorded.len() - 1]);
}

#[test]
fn moving_the_cursor_above_the_window_scrolls_up() {
    let mut view = view_with_height(10);
    view.move_cursor(25, 0);
    assert_eq!(16, view.screen_start());

    let scroll = view.move_cursor(4, 1);
    assert_eq!(Some((4, 14)), scroll);
    assert_eq!(4, view.screen_start());
    assert_eq!(0, view.cursor().y);
}

#[test]
fn moving_the_cursor_inside_the_window_only_repositions_it() {
    let mut view = view_with_height(10);
    let before = view.window().recorded().len();

    let scroll = view.move_cursor(7, 2);

    assert_eq!(None, scroll);
    assert_eq!(0, view.screen_start());
    assert_eq!(7, view.cursor().y);
    let recorded = view.window().recorded();
    assert_eq!(before + 2, recorded.len());
    assert_eq!(DrawCommand::MoveCursor { y: 7, x: 2 }, recorded[recorded.len() - 2]);
    assert_eq!(DrawCommand::Refresh, recorded[recorded.len() - 1]);
}

#[test]
fn the_cursor_row_always_lands_inside_the_viewport() {
    let mut view = view_with_height(4);
    for line in [0u32, 3, 4, 17, 2, 1000000, 0] {
        view.move_cursor(line, 0);
        assert!(view.cursor().y < 4);
    }
}

#[test]
fn only_dirty_after_everything_repaints_nothing() {
    let mut view = view_with_height(10);
    view.update_buffer(vec![ins(vec![desc("alpha", 0), desc("beta", 1)])]);

    view.redraw_view(RedrawBehavior::Everything);
    let after_full = view.window().recorded().len();

    // No update happened in between: the second, dirty-only pass repaints
    // no row at all.
    view.redraw_view(RedrawBehavior::OnlyDirty);
    let recorded = view.window().recorded();
    assert_eq!(after_full + 2, recorded.len());
    assert!(!is_paint(&recorded[recorded.len() - 2]));
    assert!(!is_paint(&recorded[recorded.len() - 1]));
}

#[test]
fn a_dirty_only_redraw_paints_exactly_the_dirty_rows() {
    let mut view = view_with_height(10);
    view.update_buffer(vec![ins(vec![desc("alpha", 0), desc("beta", 1)])]);
    view.redraw_view(RedrawBehavior::Everything);

    // Replace the second line; the first is copied in place and stays
    // clean.
    view.update_buffer(vec![
        Operation { kind: OperationKind::Copy, n: 1, ln: Some(0), lines: Vec::new() },
        Operation { kind: OperationKind::Skip, n: 1, ln: None, lines: Vec::new() },
        ins(vec![desc("BETA2", 1)]),
    ]);
    let before = view.window().recorded().len();
    view.redraw_view(RedrawBehavior::OnlyDirty);

    let recorded = view.window().recorded();
    // One repainted row: clear, gutter text, line text; then cursor and
    // refresh.
    assert_eq!(before + 5, recorded.len());
    assert_eq!(DrawCommand::ClearLine { y: 1 }, recorded[before]);
    match &recorded[before + 2] {
        DrawCommand::Text { content, .. } => assert_eq!("BETA2", content),
        other => panic!("expected the line text, got {:?}", other),
    }
}

#[test]
fn a_repainted_row_carries_its_gutter_text_in_the_gutter_style() {
    let mut view = view_with_height(10);
    view.update_buffer(vec![ins(vec![desc("alpha", 0)])]);
    let before = view.window().recorded().len();
    view.redraw_view(RedrawBehavior::Everything);

    let recorded = view.window().recorded();
    match &recorded[before + 1] {
        DrawCommand::Text { content, ranges } => {
            assert_eq!(" 0 ", content);
            assert_eq!(1, ranges.len());
            assert_eq!(0, ranges[0].start);
            assert_eq!(3, ranges[0].end);
            assert_eq!(
                Style {
                    foreground: Some(RGBColor { r: 255, g: 0, b: 0 }),
                    background: None,
                    italic: false,
                },
                ranges[0].style
            );
        }
        other => panic!("expected the gutter text, got {:?}", other),
    }
}

#[test]
fn the_status_bar_rewrites_its_row_around_the_cursor() {
    let mut bar = StatusBar::new(RecordingWindow::new(WindowSize { height: 1, width: 80 }));
    bar.update_mode("NORMAL");

    let recorded = bar.window().recorded();
    assert_eq!(5, recorded.len());
    assert_eq!(DrawCommand::SaveCursor, recorded[0]);
    assert_eq!(DrawCommand::ClearLine { y: 0 }, recorded[1]);
    match &recorded[2] {
        DrawCommand::Text { content, ranges } => {
            assert_eq!("NORMAL", content);
            assert!(ranges.is_empty());
        }
        other => panic!("expected the mode text, got {:?}", other),
    }
    assert_eq!(DrawCommand::RestoreCursor, recorded[3]);
    assert_eq!(DrawCommand::Refresh, recorded[4]);
}

#[test]
fn color_escape_sequences_spell_out_their_channels() {
    assert_eq!("\u{1b}[38;2;255;0;0m", fg(RGBColor { r: 255, g: 0, b: 0 }));
    assert_eq!("\u{1b}[48;2;0;255;0m", bg(RGBColor { r: 0, g: 255, b: 0 }));
    assert_eq!("\u{1b}[48;2;12;34;56m", bg(RGBColor { r: 12, g: 34, b: 56 }));
    assert_eq!("\u{1b}[39m", fg_reset());
    assert_eq!("\u{1b}[49m", bg_reset());
}

#[test]
fn packed_colors_unpack_little_endian() {
    assert_eq!(RGBColor { r: 0x40, g: 0x80, b: 0xff }, rgb_of_packed(0x00ff8040));
    assert_eq!(RGBColor { r: 0, g: 0, b: 0 }, rgb_of_packed(0xff000000));
    assert_eq!(RGBColor { r: 255, g: 255, b: 255 }, rgb_of_packed(0x00ffffff));
}

#[test]
fn rendering_a_paint_plan_brackets_each_span_with_its_escapes() {
    let plan = vec![StyleRange {
        start: 1,
        end: 4,
        style: Style {
            foreground: Some(RGBColor { r: 255, g: 0, b: 0 }),
            background: None,
            italic: false,
        },
    }];
    assert_eq!(
        "a\u{1b}[38;2;255;0;0mbcd\u{1b}[49m\u{1b}[39mef",
        render_styled_text("abcdef", &plan)
    );

    // An unstyled plan span still brackets its text with the resets.
    let plain = vec![StyleRange {
        start: 0,
        end: 2,
        style: Style { foreground: None, background: None, italic: false },
    }];
    assert_eq!("ab\u{1b}[49m\u{1b}[39mcd", render_styled_text("abcd", &plain));

    // No plan at all passes the text through untouched.
    assert_eq!("abcd", render_styled_text("abcd", &Vec::new()));
}

#[test]
fn line_numbers_format_with_their_exact_digit_count() {
    assert_eq!(1, count_digits(0));
    assert_eq!(1, count_digits(9));
    assert_eq!(2, count_digits(10));
    assert_eq!(3, count_digits(999));
    assert_eq!(20, count_digits(u64::MAX));

    let (text, len) = build_line_section(&Some(7), 4);
    assert_eq!(" 7  ", text);
    assert_eq!(4, len);

    let (text, len) = build_line_section(&None, 5);
    assert_eq!("     ", text);
    assert_eq!(5, len);

    let (text, len) = build_line_section(&Some(1234), 4);
    assert_eq!(" 1234 ", text);
    assert_eq!(6, len);
}
