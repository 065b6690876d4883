use vixi::style::{RGBColor, Style, StyleRange, TermionStyles};

fn fg(r: u8, g: u8, b: u8) -> Style {
    Style { foreground: Some(RGBColor { r, g, b }), background: None, italic: false }
}

fn bg(r: u8, g: u8, b: u8) -> Style {
    Style { foreground: None, background: Some(RGBColor { r, g, b }), italic: false }
}

#[test]
fn new_line_descriptor_with_no_overlapping_styles() {
    // 0  id1  3  id2  7    11  id3   13
    // |-------|-------|-----|---------|
    let styles: Vec<i16> = vec![0, 3, 1, 0, 4, 2, 4, 2, 3];

    let mut style_registry = TermionStyles::new();
    style_registry.save(1, Some(RGBColor { r: 255, g: 0, b: 0 }), None, false);
    style_registry.save(2, Some(RGBColor { r: 0, g: 255, b: 0 }), None, false);
    style_registry.save(3, Some(RGBColor { r: 0, g: 0, b: 255 }), None, false);

    let res = style_registry.new_line_descriptor(&styles);

    assert_eq!(3, res.len());
    assert_eq!(res[0], StyleRange { start: 0, end: 3, style: fg(255, 0, 0) });
    assert_eq!(res[1], StyleRange { start: 3, end: 7, style: fg(0, 255, 0) });
    assert_eq!(res[2], StyleRange { start: 11, end: 13, style: fg(0, 0, 255) });
}

#[test]
fn new_line_descriptor_with_a_simple_overlapping_style() {
    // 0  id1  4
    // |-------|
    //     2  id2   6
    //     |--------|
    let styles: Vec<i16> = vec![0, 4, 1, -2, 4, 2];

    let mut style_registry = TermionStyles::new();
    style_registry.save(1, Some(RGBColor { r: 255, g: 0, b: 0 }), None, false);
    style_registry.save(2, None, Some(RGBColor { r: 0, g: 255, b: 0 }), false);

    let res = style_registry.new_line_descriptor(&styles);

    assert_eq!(3, res.len());
    assert_eq!(res[0], StyleRange { start: 0, end: 2, style: fg(255, 0, 0) });
    assert_eq!(
        res[1],
        StyleRange {
            start: 2,
            end: 4,
            style: Style {
                foreground: Some(RGBColor { r: 255, g: 0, b: 0 }),
                background: Some(RGBColor { r: 0, g: 255, b: 0 }),
                italic: false,
            },
        }
    );
    assert_eq!(res[2], StyleRange { start: 4, end: 6, style: bg(0, 255, 0) });
}

#[test]
fn new_line_descriptor_with_a_completely_overlapping_style() {
    // 0     id1       8
    // |---------------|
    //    2  id2   6
    //    |--------|
    let styles: Vec<i16> = vec![0, 8, 1, -6, 4, 2];

    let mut style_registry = TermionStyles::new();
    style_registry.save(1, Some(RGBColor { r: 255, g: 0, b: 0 }), None, false);
    style_registry.save(2, None, Some(RGBColor { r: 0, g: 255, b: 0 }), false);

    let res = style_registry.new_line_descriptor(&styles);

    assert_eq!(3, res.len());
    assert_eq!(res[0], StyleRange { start: 0, end: 2, style: fg(255, 0, 0) });
    assert_eq!(
        res[1],
        StyleRange {
            start: 2,
            end: 6,
            style: Style {
                foreground: Some(RGBColor { r: 255, g: 0, b: 0 }),
                background: Some(RGBColor { r: 0, g: 255, b: 0 }),
                italic: false,
            },
        }
    );
    assert_eq!(res[2], StyleRange { start: 6, end: 8, style: fg(255, 0, 0) });
}

#[test]
fn new_line_descriptor_with_a_double_overlapping_style() {
    // 0  id1  4  id3  10
    // |-------|-------|
    //     2  id2   6
    //     |--------|
    let styles: Vec<i16> = vec![0, 4, 1, -2, 4, 2, -2, 6, 3];

    let mut style_registry = TermionStyles::new();
    style_registry.save(1, Some(RGBColor { r: 255, g: 0, b: 0 }), None, false);
    style_registry.save(2, None, Some(RGBColor { r: 0, g: 255, b: 0 }), false);
    style_registry.save(3, Some(RGBColor { r: 0, g: 0, b: 255 }), None, false);

    let res = style_registry.new_line_descriptor(&styles);

    assert_eq!(4, res.len());
    assert_eq!(res[0], StyleRange { start: 0, end: 2, style: fg(255, 0, 0) });
    assert_eq!(
        res[1],
        StyleRange {
            start: 2,
            end: 4,
            style: Style {
                foreground: Some(RGBColor { r: 255, g: 0, b: 0 }),
                background: Some(RGBColor { r: 0, g: 255, b: 0 }),
                italic: false,
            },
        }
    );
    assert_eq!(
        res[2],
        StyleRange {
            start: 4,
            end: 6,
            style: Style {
                foreground: Some(RGBColor { r: 0, g: 0, b: 255 }),
                background: Some(RGBColor { r: 0, g: 255, b: 0 }),
                italic: false,
            },
        }
    );
    assert_eq!(res[3], StyleRange { start: 6, end: 10, style: fg(0, 0, 255) });
}

#[test]
fn resolving_triples_against_a_six_char_line_layers_the_overlap() {
    // Style 1 sets only a red foreground, style 2 only a green background;
    // their overlap keeps both channels.
    let mut style_registry = TermionStyles::new();
    style_registry.save(1, Some(RGBColor { r: 255, g: 0, b: 0 }), None, false);
    style_registry.save(2, None, Some(RGBColor { r: 0, g: 255, b: 0 }), false);

    let triples: Vec<i16> = vec![0, 4, 1, -2, 4, 2];
    let res = style_registry.apply_to(&triples, "sample");

    assert_eq!(3, res.len());
    assert_eq!(res[0], StyleRange { start: 0, end: 2, style: fg(255, 0, 0) });
    assert_eq!(
        res[1],
        StyleRange {
            start: 2,
            end: 4,
            style: Style {
                foreground: Some(RGBColor { r: 255, g: 0, b: 0 }),
                background: Some(RGBColor { r: 0, g: 255, b: 0 }),
                italic: false,
            },
        }
    );
    assert_eq!(res[2], StyleRange { start: 4, end: 6, style: bg(0, 255, 0) });
}

#[test]
fn overlapping_background_and_foreground_lose_no_channel() {
    // Two spans over the same offsets: the earlier sets only a blue
    // background, the later only a red foreground.  The resolved span keeps
    // both.
    let mut style_registry = TermionStyles::new();
    style_registry.save(7, None, Some(RGBColor { r: 0, g: 0, b: 255 }), false);
    style_registry.save(8, Some(RGBColor { r: 255, g: 0, b: 0 }), None, false);

    let triples: Vec<i16> = vec![0, 5, 7, -5, 5, 8];
    let res = style_registry.new_line_descriptor(&triples);

    assert_eq!(1, res.len());
    assert_eq!(
        res[0],
        StyleRange {
            start: 0,
            end: 5,
            style: Style {
                foreground: Some(RGBColor { r: 255, g: 0, b: 0 }),
                background: Some(RGBColor { r: 0, g: 0, b: 255 }),
                italic: false,
            },
        }
    );
}

#[test]
fn resolved_line_tiles_its_whole_length_without_gaps() {
    let mut style_registry = TermionStyles::new();
    style_registry.save(1, Some(RGBColor { r: 255, g: 0, b: 0 }), None, false);

    // One span [2, 5) over a 9-char line: the gaps before and after are
    // filled with the default style.
    let triples: Vec<i16> = vec![2, 3, 1];
    let res = style_registry.apply_to(&triples, "gap check");

    assert_eq!(3, res.len());
    assert_eq!(res[0].start, 0);
    for w in res.windows(2) {
        assert_eq!(w[0].end, w[1].start);
    }
    assert_eq!(res[2].end, 9);
    assert_eq!(res[0].style, Style { foreground: None, background: None, italic: false });
    assert_eq!(res[1].style, fg(255, 0, 0));
    assert_eq!(res[2].style, Style { foreground: None, background: None, italic: false });
}

#[test]
fn an_unknown_style_id_falls_back_to_the_default_style() {
    let style_registry = TermionStyles::new();
    let triples: Vec<i16> = vec![0, 4, 37];
    let res = style_registry.new_line_descriptor(&triples);

    assert_eq!(1, res.len());
    assert_eq!(
        res[0],
        StyleRange {
            start: 0,
            end: 4,
            style: Style { foreground: None, background: None, italic: false },
        }
    );
}

#[test]
fn a_zero_length_span_is_kept_by_conversion_and_paints_nothing() {
    let mut style_registry = TermionStyles::new();
    style_registry.save(1, Some(RGBColor { r: 255, g: 0, b: 0 }), None, false);

    // The triple encodes an empty span at offset 5: conversion keeps it as
    // it stands.
    let triples: Vec<i16> = vec![5, 0, 1];
    let converted = style_registry.convert_to_style_range(&triples);
    assert_eq!(1, converted.len());
    assert_eq!(5, converted[0].start);
    assert_eq!(5, converted[0].end);
    assert_eq!(fg(255, 0, 0), converted[0].style);

    // Resolution discards it: it covers no offset and paints nothing.
    assert_eq!(0, style_registry.new_line_descriptor(&triples).len());
}

#[test]
fn an_empty_line_resolves_to_no_ranges() {
    let style_registry = TermionStyles::new();
    let triples: Vec<i16> = Vec::new();
    assert_eq!(0, style_registry.apply_to(&triples, "").len());
    assert_eq!(0, style_registry.new_line_descriptor(&triples).len());
}

#[test]
fn spans_past_the_end_of_the_line_are_clipped() {
    let mut style_registry = TermionStyles::new();
    style_registry.save(1, Some(RGBColor { r: 255, g: 0, b: 0 }), None, false);

    // The span [1, 7) sticks out of the 4-char line and is clipped to it.
    let triples: Vec<i16> = vec![1, 6, 1];
    let res = style_registry.apply_to(&triples, "abcd");

    assert_eq!(2, res.len());
    assert_eq!(
        res[0],
        StyleRange {
            start: 0,
            end: 1,
            style: Style { foreground: None, background: None, italic: false },
        }
    );
    assert_eq!(res[1], StyleRange { start: 1, end: 4, style: fg(255, 0, 0) });
}
