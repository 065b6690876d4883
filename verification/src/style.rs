use vstd::prelude::*;

use crate::gutter::dec_rep;
use crate::gutter::push_char;
use crate::gutter::push_dec;

verus! {

/// Identifier the editing engine uses to refer to a defined style.
pub type StyleID = i16;

/// The style id reserved for the selection overlay.
pub const SELECTION_STYLE_ID: i16 = 0;

/// The style id reserved for the line-number gutter decoration.
pub const LINE_SECTION_STYLE_ID: i16 = 9999;

/// An RGB color description.
///
/// Each channel goes from `0` (absence of the primary color) to `255` (full
/// presence of it).
#[derive(Debug, Clone, Copy, PartialEq, Eq, Structural)]
pub struct RGBColor {
    /// red
    pub r: u8,
    /// green
    pub g: u8,
    /// blue
    pub b: u8,
}

/// A renderable style: optional foreground and background colors plus an
/// italic flag.  A channel left as `None` lets whatever is painted underneath
/// show through.
#[derive(Debug, Clone, Copy, PartialEq, Eq)]
pub struct Style {
    pub background: Option<RGBColor>,
    pub foreground: Option<RGBColor>,
    pub italic: bool,
}

/// A contiguous span `[start, end)` of one line's character offsets sharing a
/// single resolved style.
#[derive(Debug, Clone, Copy, PartialEq, Eq)]
pub struct StyleRange {
    pub start: u32,
    pub end: u32,
    pub style: Style,
}

/// The style used when a style id is unknown or a span carries no style.
pub open spec fn spec_default_style() -> Style {
    Style { background: None, foreground: None, italic: false }
}

/// Executable twin of [`spec_default_style`].
pub fn default_style() -> (r: Style)
    ensures
        r == spec_default_style(),
{
    Style { background: None, foreground: None, italic: false }
}

/// The composition rule for two overlapping spans: explicit channels of the
/// later-drawn span win, unset channels fall back to the earlier span, and
/// italic survives from either side.
pub open spec fn spec_compose(earlier: Style, later: Style) -> Style {
    Style {
        background: if later.background is Some {
            later.background
        } else {
            earlier.background
        },
        foreground: if later.foreground is Some {
            later.foreground
        } else {
            earlier.foreground
        },
        italic: earlier.italic || later.italic,
    }
}

/// Executable twin of [`spec_compose`].
pub fn compose_style(earlier: &Style, later: &Style) -> (r: Style)
    ensures
        r == spec_compose(*earlier, *later),
{
    Style {
        background: if later.background.is_some() {
            later.background
        } else {
            earlier.background
        },
        foreground: if later.foreground.is_some() {
            later.foreground
        } else {
            earlier.foreground
        },
        italic: earlier.italic || later.italic,
    }
}

/// Composition loses no channel: a later span that sets only the foreground,
/// laid over an earlier span that sets only the background, keeps both
/// channels in the composed style.
pub proof fn lemma_compose_keeps_channels(earlier: Style, later: Style)
    requires
        earlier.foreground is None,
        earlier.background is Some,
        later.foreground is Some,
        later.background is None,
    ensures
        spec_compose(earlier, later).foreground == later.foreground,
        spec_compose(earlier, later).background == earlier.background,
{
}

/// The map described by a sequence of `(id, style)` entries, later entries
/// overwriting earlier ones.
pub open spec fn map_of_entries(entries: Seq<(i16, Style)>) -> Map<int, Style>
    decreases entries.len(),
{
    if entries.len() == 0 {
        Map::empty()
    } else {
        map_of_entries(entries.drop_last()).insert(
            entries.last().0 as int,
            entries.last().1,
        )
    }
}

/// The style registry: it owns the mapping from a style identifier to a
/// renderable style.  Saving an id a second time overwrites the mapping, and
/// looking up an unknown id falls back to the default style.
pub struct TermionStyles {
    entries: Vec<(StyleID, Style)>,
}

/// What a lookup of `id` in the registry map `m` yields: the stored style, or
/// the default style for an unknown id.
pub open spec fn spec_style_of(m: Map<int, Style>, id: int) -> Style {
    if m.contains_key(id) {
        m[id]
    } else {
        spec_default_style()
    }
}

proof fn lemma_map_of_skips_other_keys(entries: Seq<(i16, Style)>, i: int, id: i16)
    requires
        0 <= i <= entries.len(),
        forall|j: int| i <= j < entries.len() ==> (#[trigger] entries[j]).0 != id,
    ensures
        map_of_entries(entries).contains_key(id as int) == map_of_entries(
            entries.take(i),
        ).contains_key(id as int),
        map_of_entries(entries).contains_key(id as int) ==> map_of_entries(entries)[id as int]
            == map_of_entries(entries.take(i))[id as int],
    decreases entries.len() - i,
{
    if i < entries.len() {
        lemma_map_of_skips_other_keys(entries.take(entries.len() - 1), i, id);
        assert(entries.take(entries.len() as int) =~= entries);
        assert(entries.take(entries.len() - 1).take(i) =~= entries.take(i));
    } else {
        assert(entries.take(entries.len() as int) =~= entries);
    }
}

proof fn lemma_map_of_found(entries: Seq<(i16, Style)>, i: int, id: i16)
    requires
        0 <= i < entries.len(),
        entries[i].0 == id,
        forall|j: int| i < j < entries.len() ==> (#[trigger] entries[j]).0 != id,
    ensures
        map_of_entries(entries).contains_key(id as int),
        map_of_entries(entries)[id as int] == entries[i].1,
{
    lemma_map_of_skips_other_keys(entries, i + 1, id);
    assert(entries.take(i + 1).drop_last() =~= entries.take(i));
    assert(entries.take(i + 1).last() == entries[i]);
}

impl TermionStyles {
    /// The registry's abstract contents, as a map from id to style.
    pub closed spec fn styles_map(&self) -> Map<int, Style> {
        map_of_entries(self.entries@)
    }

    /// A fresh registry, pre-seeded with the reserved selection and gutter
    /// styles so the first paint is valid before any style definition
    /// arrives.
    pub fn new() -> (r: Self)
        ensures
            r.styles_map() == Map::<int, Style>::empty().insert(
                SELECTION_STYLE_ID as int,
                Style {
                    background: Some(RGBColor { r: 70, g: 70, b: 70 }),
                    foreground: None,
                    italic: false,
                },
            ).insert(
                LINE_SECTION_STYLE_ID as int,
                Style {
                    background: None,
                    foreground: Some(RGBColor { r: 255, g: 0, b: 0 }),
                    italic: false,
                },
            ),
    {
        let mut client = Self { entries: Vec::new() };

        client.save(
            SELECTION_STYLE_ID,
            None,
            Some(RGBColor { r: 70, g: 70, b: 70 }),
            false,
        );

        client.save(
            LINE_SECTION_STYLE_ID,
            Some(RGBColor { r: 255, g: 0, b: 0 }),
            None,
            false,
        );

        client
    }

    /// Inserts or overwrites the mapping for `style_id`.
    pub fn save(
        &mut self,
        style_id: StyleID,
        fg_color: Option<RGBColor>,
        bg_color: Option<RGBColor>,
        italic: bool,
    )
        ensures
            final(self).styles_map() == old(self).styles_map().insert(
                style_id as int,
                Style { background: bg_color, foreground: fg_color, italic },
            ),
    {
        self.entries.push(
            (style_id, Style { background: bg_color, foreground: fg_color, italic }),
        );
        proof {
            assert(self.entries@.drop_last() =~= old(self).entries@);
        }
    }

    /// Returns the style stored for `style_id`, or the default style when the
    /// id was never defined.
    pub fn style_of(&self, style_id: StyleID) -> (r: Style)
        ensures
            r == spec_style_of(self.styles_map(), style_id as int),
    {
        let n: usize = self.entries.len();
        let mut idx: usize = n;
        while idx > 0
            invariant
                idx <= n,
                n == self.entries.len(),
                forall|j: int| idx <= j < n ==> (#[trigger] self.entries@[j]).0 != style_id,
            decreases idx,
        {
            idx = idx - 1;
            if self.entries[idx].0 == style_id {
                proof {
                    lemma_map_of_found(self.entries@, idx as int, style_id);
                }
                return self.entries[idx].1;
            }
        }
        proof {
            lemma_map_of_skips_other_keys(self.entries@, 0, style_id);
            assert(self.entries@.take(0) =~= Seq::<(i16, Style)>::empty());
        }
        default_style()
    }
}

/// The color a packed little-endian `R,G,B,A` word carries.
pub open spec fn spec_rgb_of_packed(packed: u32) -> RGBColor {
    RGBColor {
        r: (packed % 256) as u8,
        g: ((packed / 256) % 256) as u8,
        b: ((packed / 65536) % 256) as u8,
    }
}

/// Unpacks a color sent as a little-endian `R,G,B,A` word, dropping the
/// alpha byte.
pub fn rgb_of_packed(packed: u32) -> (r: RGBColor)
    ensures
        r == spec_rgb_of_packed(packed),
{
    RGBColor {
        r: (packed % 256) as u8,
        g: ((packed / 256) % 256) as u8,
        b: ((packed / 65536) % 256) as u8,
    }
}

/// The escape sequence that sets the foreground to `c`.
pub open spec fn spec_fg_escape(c: RGBColor) -> Seq<char> {
    seq!['\u{1b}', '[', '3', '8', ';', '2', ';'] + dec_rep(c.r as nat) + seq![';'] + dec_rep(
        c.g as nat,
    ) + seq![';'] + dec_rep(c.b as nat) + seq!['m']
}

/// The escape sequence that sets the background to `c`.
pub open spec fn spec_bg_escape(c: RGBColor) -> Seq<char> {
    seq!['\u{1b}', '[', '4', '8', ';', '2', ';'] + dec_rep(c.r as nat) + seq![';'] + dec_rep(
        c.g as nat,
    ) + seq![';'] + dec_rep(c.b as nat) + seq!['m']
}

/// The escape sequence that sets the foreground to the given color.
pub fn fg(color: RGBColor) -> (r: String)
    ensures
        r@ == spec_fg_escape(color),
{
    let mut s = String::new();
    push_char(&mut s, '\u{1b}');
    push_char(&mut s, '[');
    push_char(&mut s, '3');
    push_char(&mut s, '8');
    push_char(&mut s, ';');
    push_char(&mut s, '2');
    push_char(&mut s, ';');
    push_dec(color.r as u64, &mut s);
    push_char(&mut s, ';');
    push_dec(color.g as u64, &mut s);
    push_char(&mut s, ';');
    push_dec(color.b as u64, &mut s);
    push_char(&mut s, 'm');
    proof {
        assert(s@ =~= spec_fg_escape(color));
    }
    s
}

/// The escape sequence that sets the background to the given color.
pub fn bg(color: RGBColor) -> (r: String)
    ensures
        r@ == spec_bg_escape(color),
{
    let mut s = String::new();
    push_char(&mut s, '\u{1b}');
    push_char(&mut s, '[');
    push_char(&mut s, '4');
    push_char(&mut s, '8');
    push_char(&mut s, ';');
    push_char(&mut s, '2');
    push_char(&mut s, ';');
    push_dec(color.r as u64, &mut s);
    push_char(&mut s, ';');
    push_dec(color.g as u64, &mut s);
    push_char(&mut s, ';');
    push_dec(color.b as u64, &mut s);
    push_char(&mut s, 'm');
    proof {
        assert(s@ =~= spec_bg_escape(color));
    }
    s
}

/// The escape sequence that puts the foreground back to the default.
pub open spec fn spec_fg_reset_escape() -> Seq<char> {
    seq!['\u{1b}', '[', '3', '9', 'm']
}

/// The escape sequence that puts the background back to the default.
pub open spec fn spec_bg_reset_escape() -> Seq<char> {
    seq!['\u{1b}', '[', '4', '9', 'm']
}

/// The escape sequence that puts the foreground back to the default.
pub fn fg_reset() -> (r: String)
    ensures
        r@ == spec_fg_reset_escape(),
{
    let mut s = String::new();
    push_char(&mut s, '\u{1b}');
    push_char(&mut s, '[');
    push_char(&mut s, '3');
    push_char(&mut s, '9');
    push_char(&mut s, 'm');
    proof {
        assert(s@ =~= spec_fg_reset_escape());
    }
    s
}

/// The escape sequence that puts the background back to the default.
pub fn bg_reset() -> (r: String)
    ensures
        r@ == spec_bg_reset_escape(),
{
    let mut s = String::new();
    push_char(&mut s, '\u{1b}');
    push_char(&mut s, '[');
    push_char(&mut s, '4');
    push_char(&mut s, '9');
    push_char(&mut s, 'm');
    proof {
        assert(s@ =~= spec_bg_reset_escape());
    }
    s
}

/// The escape prefix a span's style paints with: its background sequence,
/// if any, then its foreground sequence, if any.
pub open spec fn spec_style_prefix(st: Style) -> Seq<char> {
    (match st.background {
        Some(c) => spec_bg_escape(c),
        None => Seq::<char>::empty(),
    }) + (match st.foreground {
        Some(c) => spec_fg_escape(c),
        None => Seq::<char>::empty(),
    })
}

/// The text of a line rendered with its paint plan, from character offset
/// `from` on: each span's text is bracketed by its style's escape prefix
/// and the two reset sequences, and the characters between and after the
/// spans pass through untouched.
pub open spec fn spec_styled_text(
    content: Seq<char>,
    ranges: Seq<StyleRange>,
    from: int,
) -> Seq<char>
    decreases ranges.len(),
{
    if ranges.len() == 0 {
        content.subrange(from, content.len() as int)
    } else {
        let r = ranges.first();
        content.subrange(from, r.start as int) + spec_style_prefix(r.style) + content.subrange(
            r.start as int,
            r.end as int,
        ) + spec_bg_reset_escape() + spec_fg_reset_escape() + spec_styled_text(
            content,
            ranges.drop_first(),
            r.end as int,
        )
    }
}

/// Renders a line's text with its paint plan into the byte-for-byte string
/// the terminal receives: exactly [`spec_styled_text`] from offset zero.
pub fn render_styled_text(content: &str, ranges: &Vec<StyleRange>) -> (r: String)
    requires
        crate::resolver::chained_disjoint(ranges@),
        forall|i: int|
            0 <= i < ranges@.len() ==> (#[trigger] ranges@[i]).start <= ranges@[i].end
                && ranges@[i].end <= content@.len(),
    ensures
        r@ == spec_styled_text(content@, ranges@, 0),
{
    let mut out = String::new();
    let len: usize = content.unicode_len();
    let mut cursor: usize = 0;
    let mut i: usize = 0;

    proof {
        assert(ranges@.skip(0) =~= ranges@);
        assert(spec_styled_text(content@, ranges@, 0) =~= out@ + spec_styled_text(
            content@,
            ranges@.skip(0),
            0,
        ));
    }

    while i < ranges.len()
        invariant
            i <= ranges.len(),
            len == content@.len(),
            crate::resolver::chained_disjoint(ranges@),
            forall|k: int|
                0 <= k < ranges@.len() ==> (#[trigger] ranges@[k]).start <= ranges@[k].end
                    && ranges@[k].end <= content@.len(),
            cursor <= len,
            i < ranges.len() ==> cursor <= ranges@[i as int].start,
            spec_styled_text(content@, ranges@, 0) == out@ + spec_styled_text(
                content@,
                ranges@.skip(i as int),
                cursor as int,
            ),
        decreases ranges.len() - i,
    {
        let ghost out_at_entry = out@;
        let r = ranges[i];
        out.append(content.substring_char(cursor, r.start as usize));
        match r.style.background {
            Some(c) => out.append(bg(c).as_str()),
            None => (),
        }
        match r.style.foreground {
            Some(c) => out.append(fg(c).as_str()),
            None => (),
        }
        out.append(content.substring_char(r.start as usize, r.end as usize));
        out.append(bg_reset().as_str());
        out.append(fg_reset().as_str());
        proof {
            assert(ranges@.skip(i as int).first() == ranges@[i as int]);
            assert(ranges@.skip(i as int).drop_first() =~= ranges@.skip(i as int + 1));
            assert(out@ =~= out_at_entry + (content@.subrange(
                cursor as int,
                r.start as int,
            ) + spec_style_prefix(r.style) + content@.subrange(r.start as int, r.end as int)
                + spec_bg_reset_escape() + spec_fg_reset_escape()));
            assert(spec_styled_text(content@, ranges@, 0) =~= out@ + spec_styled_text(
                content@,
                ranges@.skip(i as int + 1),
                r.end as int,
            ));
            if i + 1 < ranges.len() {
                assert(ranges@[i as int].end <= ranges@[i as int + 1].start);
            }
        }
        cursor = r.end as usize;
        i = i + 1;
    }

    out.append(content.substring_char(cursor, len));
    proof {
        assert(ranges@.skip(i as int) =~= Seq::<StyleRange>::empty());
        assert(spec_styled_text(content@, ranges@.skip(i as int), cursor as int)
            == content@.subrange(cursor as int, content@.len() as int));
        assert(out@ =~= spec_styled_text(content@, ranges@, 0));
    }
    out
}

} // verus!
