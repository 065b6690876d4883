use vixi::style::{RGBColor, TermionStyles};
use vixi::view::{EditorView, LineDescription, Operation, OperationKind};
use vixi::window::{RecordingWindow, WindowSize};

fn desc(text: &str, ln: usize) -> LineDescription {
    LineDescription { text: String::from(text), styles: Vec::new(), ln: Some(ln) }
}

fn ins(lines: Vec<LineDescription>) -> Operation {
    Operation { kind: OperationKind::Ins, n: lines.len(), ln: None, lines }
}

fn copy(n: usize, ln: Option<usize>) -> Operation {
    Operation { kind: OperationKind::Copy, n, ln, lines: Vec::new() }
}

fn skip(n: usize) -> Operation {
    Operation { kind: OperationKind::Skip, n, ln: None, lines: Vec::new() }
}

fn invalidate(n: usize) -> Operation {
    Operation { kind: OperationKind::Invalidate, n, ln: None, lines: Vec::new() }
}

fn fresh_view() -> EditorView<RecordingWindow> {
    EditorView::new(
        "view-id-1",
        RecordingWindow::new(WindowSize { height: 10, width: 80 }),
        TermionStyles::new(),
    )
}

fn seeded_view(texts: &[&str]) -> EditorView<RecordingWindow> {
    let mut view = fresh_view();
    let lines: Vec<LineDescription> =
        texts.iter().enumerate().map(|(i, t)| desc(t, i)).collect();
    let ops = vec![ins(lines)];
    assert!(view.buffer().operations_in_bounds(&ops));
    view.update_buffer(ops);
    view
}

#[test]
fn replaying_copy_skip_ins_builds_the_expected_buffer() {
    // Buffer ["alpha", "beta", "gamma"], then
    // [copy(n=1, ln=0), skip(n=1), ins(["BETA2" at ln 1])].
    let mut view = seeded_view(&["alpha", "beta", "gamma"]);

    let ops = vec![
        copy(1, Some(0)),
        skip(1),
        ins(vec![desc("BETA2", 1)]),
    ];
    assert!(view.buffer().operations_in_bounds(&ops));
    view.update_buffer(ops);

    let buffer = view.buffer();
    assert_eq!(2, buffer.lines.len());
    assert_eq!("alpha", buffer.lines[0].raw);
    assert!(!buffer.lines[0].is_dirty);
    assert_eq!(Some(0), buffer.lines[0].ln);
    assert_eq!("BETA2", buffer.lines[1].raw);
    assert!(buffer.lines[1].is_dirty);
    assert_eq!(Some(1), buffer.lines[1].ln);
    assert_eq!(0, buffer.nb_invalid_lines);
}

#[test]
fn copied_lines_are_dirty_exactly_when_their_row_moved() {
    // First copy starts with both cursors at 0: rows unmoved, lines stay
    // clean.  After an insertion the cursors differ, so the next copied
    // line moved and is dirty.
    let mut view = seeded_view(&["one", "two", "three"]);

    let ops = vec![
        copy(2, None),
        ins(vec![desc("inserted", 7)]),
        copy(1, None),
    ];
    assert!(view.buffer().operations_in_bounds(&ops));
    view.update_buffer(ops);

    let buffer = view.buffer();
    assert_eq!(4, buffer.lines.len());
    assert!(!buffer.lines[0].is_dirty);
    assert!(!buffer.lines[1].is_dirty);
    assert!(buffer.lines[2].is_dirty);
    assert!(buffer.lines[3].is_dirty);
    assert_eq!("three", buffer.lines[3].raw);
}

#[test]
fn copying_without_a_line_number_keeps_the_prior_tags() {
    let mut view = seeded_view(&["one", "two"]);

    let ops = vec![copy(2, None)];
    assert!(view.buffer().operations_in_bounds(&ops));
    view.update_buffer(ops);

    let buffer = view.buffer();
    assert_eq!(Some(0), buffer.lines[0].ln);
    assert_eq!(Some(1), buffer.lines[1].ln);

    // With a line number the copied lines are re-tagged from it.
    let ops = vec![copy(2, Some(10))];
    assert!(view.buffer().operations_in_bounds(&ops));
    view.update_buffer(ops);
    let buffer = view.buffer();
    assert_eq!(Some(10), buffer.lines[0].ln);
    assert_eq!(Some(11), buffer.lines[1].ln);
}

#[test]
fn invalidate_counts_lines_without_creating_them() {
    let mut view = fresh_view();
    let ops = vec![invalidate(120), ins(vec![desc("tail", 120)])];
    assert!(view.buffer().operations_in_bounds(&ops));
    view.update_buffer(ops);

    let buffer = view.buffer();
    assert_eq!(1, buffer.lines.len());
    assert_eq!(120, buffer.nb_invalid_lines);
    assert_eq!(121, buffer.total_len());
}

#[test]
fn an_unknown_operation_is_ignored() {
    let mut view = seeded_view(&["kept"]);
    let ops = vec![
        Operation { kind: OperationKind::Unknown, n: 3, ln: None, lines: Vec::new() },
        copy(1, None),
    ];
    assert!(view.buffer().operations_in_bounds(&ops));
    view.update_buffer(ops);
    assert_eq!(1, view.buffer().lines.len());
    assert_eq!("kept", view.buffer().lines[0].raw);
}

#[test]
fn the_gutter_width_follows_the_total_length() {
    let mut view = fresh_view();

    // 3 lines: one digit plus the two blank columns.
    let ops = vec![ins(vec![desc("a", 0), desc("b", 1), desc("c", 2)])];
    let resized = view.update_buffer(ops);
    assert!(resized);
    assert_eq!(3, view.width_line_section());

    // 3 + 9 invalid lines: twelve in total, two digits now.
    let ops = vec![copy(3, None), invalidate(9)];
    let resized = view.update_buffer(ops);
    assert!(resized);
    assert_eq!(4, view.width_line_section());

    // Replaying the same shape again changes nothing.
    let ops = vec![copy(3, None), invalidate(9)];
    let resized = view.update_buffer(ops);
    assert!(!resized);
    assert_eq!(4, view.width_line_section());
}

#[test]
fn inserted_lines_carry_their_resolved_paint_plan() {
    let mut styles = TermionStyles::new();
    styles.save(1, Some(RGBColor { r: 255, g: 0, b: 0 }), None, false);
    let mut view = EditorView::new(
        "view-id-1",
        RecordingWindow::new(WindowSize { height: 10, width: 80 }),
        styles,
    );

    let ops = vec![ins(vec![LineDescription {
        text: String::from("abcdef"),
        styles: vec![1, 3, 1],
        ln: Some(0),
    }])];
    assert!(view.buffer().operations_in_bounds(&ops));
    view.update_buffer(ops);

    // The span [1, 4) is red; the rest of the line holds the default style.
    let line = &view.buffer().lines[0];
    assert_eq!(3, line.styles.len());
    assert_eq!((0, 1), (line.styles[0].start, line.styles[0].end));
    assert_eq!(None, line.styles[0].style.foreground);
    assert_eq!((1, 4), (line.styles[1].start, line.styles[1].end));
    assert_eq!(
        Some(RGBColor { r: 255, g: 0, b: 0 }),
        line.styles[1].style.foreground
    );
    assert_eq!((4, 6), (line.styles[2].start, line.styles[2].end));
    assert_eq!(None, line.styles[2].style.foreground);
}

#[test]
fn out_of_bounds_operations_are_rejected_by_the_check() {
    let view = seeded_view(&["only"]);
    assert!(!view.buffer().operations_in_bounds(&vec![copy(2, None)]));
    assert!(!view.buffer().operations_in_bounds(&vec![skip(1), skip(1)]));
    assert!(view.buffer().operations_in_bounds(&vec![skip(1)]));
}
