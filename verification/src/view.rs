use vstd::prelude::*;

use crate::gutter::build_line_section;
use crate::gutter::count_digits;
use crate::gutter::dec_rep;
use crate::gutter::spec_line_section_text;
use crate::gutter::SPACES_IN_LINE_SECTION;
use crate::resolver::covers;
use crate::resolver::in_range;
use crate::resolver::spec_triples_to_ranges;
use crate::style::spec_default_style;
use crate::style::spec_style_of;
use crate::style::RGBColor;
use crate::style::TermionStyles;
use crate::style::LINE_SECTION_STYLE_ID;
use crate::style::Style;
use crate::style::StyleRange;
use crate::window::DrawCmd;
use crate::window::Window;

verus! {

/// The handle the editing engine uses to name one document view.
pub type ViewID = String;

/// The cursor's position on the screen: row `y`, column `x` (the column
/// includes the gutter).
#[derive(Debug, Clone, Copy, PartialEq, Eq, Structural)]
pub struct Cursor {
    pub y: u32,
    pub x: u32,
}

/// One line of the buffer: its text, its pre-resolved paint plan, its
/// logical line number, and whether its screen row must be repainted on the
/// next redraw.
#[derive(Debug, Clone)]
pub struct Line {
    pub raw: String,
    pub styles: Vec<StyleRange>,
    /// The "real" line number.
    ///
    /// A line wrapped in two lines will keep the same `ln` value.
    pub ln: Option<usize>,
    /// Indicates whether the line needs to be rendered during the next
    /// redraw.
    pub is_dirty: bool,
}

/// The mathematical shape of a [`Line`].
pub struct LineModel {
    pub raw: Seq<char>,
    pub styles: Seq<StyleRange>,
    pub ln: Option<usize>,
    pub is_dirty: bool,
}

impl vstd::view::View for Line {
    type V = LineModel;

    open spec fn view(&self) -> LineModel {
        LineModel { raw: self.raw@, styles: self.styles@, ln: self.ln, is_dirty: self.is_dirty }
    }
}

/// The line buffer: the lines received so far plus the count of lines the
/// engine has announced but not yet sent.
#[derive(Debug)]
pub struct Buffer {
    pub lines: Vec<Line>,
    pub nb_invalid_lines: usize,
}

impl Default for Buffer {
    fn default() -> (r: Self)
        ensures
            r.lines@.len() == 0,
            r.nb_invalid_lines == 0,
    {
        Buffer { lines: Vec::new(), nb_invalid_lines: 0 }
    }
}

/// The models of a buffer's lines.
pub open spec fn lines_model(b: Buffer) -> Seq<LineModel> {
    b.lines@.map_values(|l: Line| l@)
}

impl Buffer {
    /// The buffer's logical length: received lines plus not-yet-received
    /// ones.
    pub fn total_len(&self) -> (r: usize)
        requires
            self.lines@.len() + self.nb_invalid_lines <= usize::MAX,
        ensures
            r == self.lines@.len() + self.nb_invalid_lines,
    {
        self.lines.len() + self.nb_invalid_lines
    }

    /// How many received lines stand at or after the logical row `start`.
    pub fn lines_availables_after(&self, start: u32) -> (r: u32)
        requires
            self.lines@.len() <= u32::MAX,
            start <= self.lines@.len(),
        ensures
            r == self.lines@.len() - start,
    {
        (self.lines.len() as u32) - start
    }
}

/// Whether a redraw repaints every visible row or only the dirty ones.
#[derive(Eq, PartialEq, Structural, Debug, Clone, Copy)]
pub enum RedrawBehavior {
    OnlyDirty,
    Everything,
}

/// One line of an `ins` operation: its text, its relatively-encoded style
/// triples, and its logical line number.
#[derive(Debug, Clone)]
pub struct LineDescription {
    pub text: String,
    pub styles: Vec<i16>,
    pub ln: Option<usize>,
}

/// The mathematical shape of a [`LineDescription`].
pub struct LineDescModel {
    pub text: Seq<char>,
    pub styles: Seq<i16>,
    pub ln: Option<usize>,
}

impl vstd::view::View for LineDescription {
    type V = LineDescModel;

    open spec fn view(&self) -> LineDescModel {
        LineDescModel { text: self.text@, styles: self.styles@, ln: self.ln }
    }
}

/// The kinds of diff operation an update can carry.  An operation whose tag
/// the protocol decoder does not recognize arrives as `Unknown` and is
/// ignored.
#[derive(Debug, Clone, Copy, PartialEq, Eq, Structural)]
pub enum OperationKind {
    Copy,
    Skip,
    Invalidate,
    Ins,
    Unknown,
}

/// One diff operation of an update event.
#[derive(Debug, Clone)]
pub struct Operation {
    pub kind: OperationKind,
    pub n: usize,
    pub ln: Option<usize>,
    pub lines: Vec<LineDescription>,
}

/// The mathematical shape of an [`Operation`].
pub struct OpModel {
    pub kind: OperationKind,
    pub n: int,
    pub ln: Option<usize>,
    pub lines: Seq<LineDescModel>,
}

impl vstd::view::View for Operation {
    type V = OpModel;

    open spec fn view(&self) -> OpModel {
        OpModel {
            kind: self.kind,
            n: self.n as int,
            ln: self.ln,
            lines: self.lines@.map_values(|d: LineDescription| d@),
        }
    }
}

/// The models of a sequence of operations.
pub open spec fn ops_model(ops: Seq<Operation>) -> Seq<OpModel> {
    ops.map_values(|o: Operation| o@)
}

/// Where a replayed line's paint plan comes from: carried over from the
/// previous buffer, or freshly resolved from an inserted line's triples.
pub enum LineSrc {
    Copied(Seq<StyleRange>),
    Inserted(Seq<i16>),
}

/// One line of the replayed buffer.
pub struct ReplayLine {
    pub raw: Seq<char>,
    pub ln: Option<usize>,
    pub is_dirty: bool,
    pub src: LineSrc,
}

/// The replay's running state: the lines built so far, the invalid-line
/// count, and the read cursor into the previous buffer.
pub struct ReplayState {
    pub lines: Seq<ReplayLine>,
    pub nb_invalid: int,
    pub old_idx: int,
}

/// The replay's starting state.
pub open spec fn init_replay() -> ReplayState {
    ReplayState { lines: Seq::empty(), nb_invalid: 0, old_idx: 0 }
}

/// The lines a `copy` operation appends: the next `n` previous-buffer lines,
/// re-tagged with `ln + offset` when `ln` is given, keeping their prior tag
/// otherwise.  They are dirty exactly when the operation started with the
/// read and write cursors apart, that is, when their screen position moved.
pub open spec fn copied_lines(old_lines: Seq<LineModel>, op: OpModel, st: ReplayState) -> Seq<
    ReplayLine,
> {
    Seq::new(
        op.n as nat,
        |i: int|
            ReplayLine {
                raw: old_lines[st.old_idx + i].raw,
                ln: match op.ln {
                    Some(l) => Some((l + i) as usize),
                    None => old_lines[st.old_idx + i].ln,
                },
                is_dirty: st.old_idx != st.lines.len(),
                src: LineSrc::Copied(old_lines[st.old_idx + i].styles),
            },
    )
}

/// The lines an `ins` operation appends: one always-dirty line per
/// description.
pub open spec fn inserted_lines(op: OpModel) -> Seq<ReplayLine> {
    op.lines.map_values(
        |d: LineDescModel|
            ReplayLine { raw: d.text, ln: d.ln, is_dirty: true, src: LineSrc::Inserted(d.styles) },
    )
}

/// One step of the replay: how a single operation transforms the state.
pub open spec fn replay_step(old_lines: Seq<LineModel>, op: OpModel, st: ReplayState) -> ReplayState {
    match op.kind {
        OperationKind::Copy => ReplayState {
            lines: st.lines + copied_lines(old_lines, op, st),
            nb_invalid: st.nb_invalid,
            old_idx: st.old_idx + op.n,
        },
        OperationKind::Skip => ReplayState {
            lines: st.lines,
            nb_invalid: st.nb_invalid,
            old_idx: st.old_idx + op.n,
        },
        OperationKind::Invalidate => ReplayState {
            lines: st.lines,
            nb_invalid: st.nb_invalid + op.n,
            old_idx: st.old_idx,
        },
        OperationKind::Ins => ReplayState {
            lines: st.lines + inserted_lines(op),
            nb_invalid: st.nb_invalid,
            old_idx: st.old_idx,
        },
        OperationKind::Unknown => st,
    }
}

/// What must hold for one operation to replay without reading out of bounds
/// or overflowing a count.
pub open spec fn step_wf(old_lines: Seq<LineModel>, op: OpModel, st: ReplayState) -> bool {
    match op.kind {
        OperationKind::Copy => {
            &&& st.old_idx + op.n <= old_lines.len()
            &&& match op.ln {
                Some(l) => l + op.n <= usize::MAX,
                None => true,
            }
            &&& st.lines.len() + st.nb_invalid + op.n <= usize::MAX
        },
        OperationKind::Skip => st.old_idx + op.n <= old_lines.len(),
        OperationKind::Invalidate => st.lines.len() + st.nb_invalid + op.n <= usize::MAX,
        OperationKind::Ins => {
            &&& st.lines.len() + st.nb_invalid + op.lines.len() <= usize::MAX
            &&& forall|i: int| 0 <= i < op.lines.len() ==> (#[trigger] op.lines[i]).text.len()
                <= u32::MAX
        },
        OperationKind::Unknown => true,
    }
}

/// The state after replaying all of `ops` from `st`.
pub open spec fn spec_replay(old_lines: Seq<LineModel>, ops: Seq<OpModel>, st: ReplayState) -> ReplayState
    decreases ops.len(),
{
    if ops.len() == 0 {
        st
    } else {
        spec_replay(old_lines, ops.drop_first(), replay_step(old_lines, ops.first(), st))
    }
}

/// Every operation of `ops`, replayed in order from `st`, satisfies
/// [`step_wf`].
pub open spec fn spec_ops_wf(old_lines: Seq<LineModel>, ops: Seq<OpModel>, st: ReplayState) -> bool
    decreases ops.len(),
{
    if ops.len() == 0 {
        true
    } else {
        step_wf(old_lines, ops.first(), st) && spec_ops_wf(
            old_lines,
            ops.drop_first(),
            replay_step(old_lines, ops.first(), st),
        )
    }
}

proof fn lemma_replay_push(old_lines: Seq<LineModel>, ops: Seq<OpModel>, x: OpModel, st: ReplayState)
    ensures
        spec_replay(old_lines, ops.push(x), st) == replay_step(
            old_lines,
            x,
            spec_replay(old_lines, ops, st),
        ),
    decreases ops.len(),
{
    if ops.len() == 0 {
        assert(ops.push(x).drop_first() =~= Seq::<OpModel>::empty());
        assert(ops.push(x).first() == x);
        let st1 = replay_step(old_lines, x, st);
        assert(spec_replay(old_lines, Seq::<OpModel>::empty(), st1) == st1);
        assert(spec_replay(old_lines, ops.push(x), st) == spec_replay(
            old_lines,
            ops.push(x).drop_first(),
            replay_step(old_lines, ops.push(x).first(), st),
        ));
        assert(spec_replay(old_lines, ops.push(x), st) == replay_step(old_lines, x, st));
    } else {
        assert(ops.push(x).drop_first() =~= ops.drop_first().push(x));
        assert(ops.push(x).first() == ops.first());
        lemma_replay_push(
            old_lines,
            ops.drop_first(),
            x,
            replay_step(old_lines, ops.first(), st),
        );
    }
}

/// If all of `ops` replays well-formed from `st`, then the `k`-th operation
/// is well-formed in the state reached after the first `k`.
proof fn lemma_ops_wf_at(old_lines: Seq<LineModel>, ops: Seq<OpModel>, st: ReplayState, k: int)
    requires
        spec_ops_wf(old_lines, ops, st),
        0 <= k < ops.len(),
    ensures
        step_wf(old_lines, ops[k], spec_replay(old_lines, ops.take(k), st)),
    decreases k,
{
    if k == 0 {
        assert(ops.take(0) =~= Seq::<OpModel>::empty());
    } else {
        let st1 = replay_step(old_lines, ops.first(), st);
        lemma_ops_wf_at(old_lines, ops.drop_first(), st1, k - 1);
        assert(ops.drop_first()[k - 1] == ops[k]);
        assert(ops.take(k).drop_first() =~= ops.drop_first().take(k - 1));
        assert(ops.take(k).first() == ops.first());
    }
}

/// Conversely, if each operation is well-formed in the state the prefix
/// before it reaches, the whole sequence replays well-formed.
proof fn lemma_ops_wf_from_steps(old_lines: Seq<LineModel>, ops: Seq<OpModel>, st: ReplayState)
    requires
        forall|k: int|
            0 <= k < ops.len() ==> step_wf(
                old_lines,
                #[trigger] ops[k],
                spec_replay(old_lines, ops.take(k), st),
            ),
    ensures
        spec_ops_wf(old_lines, ops, st),
    decreases ops.len(),
{
    if ops.len() > 0 {
        assert(ops.take(0) =~= Seq::<OpModel>::empty());
        assert(step_wf(old_lines, ops[0], st));
        let st1 = replay_step(old_lines, ops.first(), st);
        assert forall|k: int| 0 <= k < ops.drop_first().len() implies step_wf(
            old_lines,
            #[trigger] ops.drop_first()[k],
            spec_replay(old_lines, ops.drop_first().take(k), st1),
        ) by {
            assert(ops.drop_first()[k] == ops[k + 1]);
            assert(ops.take(k + 1).drop_first() =~= ops.drop_first().take(k));
            assert(ops.take(k + 1).first() == ops.first());
            assert(step_wf(
                old_lines,
                ops[k + 1],
                spec_replay(old_lines, ops.take(k + 1), st),
            ));
        }
        lemma_ops_wf_from_steps(old_lines, ops.drop_first(), st1);
    }
}

/// The copy dirty rule: the lines a `copy` operation appends are clean
/// exactly when the read and write cursors agreed when the operation
/// started, that is, when the lines' screen positions did not move.
pub proof fn lemma_copy_dirty_rule(old_lines: Seq<LineModel>, op: OpModel, st: ReplayState)
    requires
        op.kind == OperationKind::Copy,
    ensures
        forall|i: int|
            st.lines.len() <= i < replay_step(old_lines, op, st).lines.len() ==> (#[trigger] replay_step(
                old_lines,
                op,
                st,
            ).lines[i]).is_dirty == (st.old_idx != st.lines.len()),
{
}

impl Buffer {
    /// Decides whether `operations` can be replayed against this buffer
    /// without reading out of bounds or overflowing any count: exactly the
    /// condition [`spec_ops_wf`] describes, which
    /// [`EditorView::update_buffer`] requires.
    pub fn operations_in_bounds(&self, operations: &Vec<Operation>) -> (r: bool)
        ensures
            r == spec_ops_wf(lines_model(*self), ops_model(operations@), init_replay()),
    {
        let ghost old_lines = lines_model(*self);
        let ghost ops = ops_model(operations@);
        let mut count: usize = 0;
        let mut invalid: usize = 0;
        let mut old_idx: usize = 0;
        let mut oi: usize = 0;

        proof {
            assert(ops.take(0) =~= Seq::<OpModel>::empty());
        }

        while oi < operations.len()
            invariant
                oi <= operations.len(),
                ops == ops_model(operations@),
                old_lines == lines_model(*self),
                ops.len() == operations@.len(),
                forall|k: int| 0 <= k < oi ==> step_wf(
                    old_lines,
                    #[trigger] ops[k],
                    spec_replay(old_lines, ops.take(k), init_replay()),
                ),
                ({
                    let st = spec_replay(old_lines, ops.take(oi as int), init_replay());
                    &&& st.lines.len() == count
                    &&& st.nb_invalid == invalid
                    &&& st.old_idx == old_idx
                }),
                count + invalid <= usize::MAX,
                old_idx <= self.lines@.len(),
            decreases operations.len() - oi,
        {
            let ghost st = spec_replay(old_lines, ops.take(oi as int), init_replay());
            let op = &operations[oi];
            proof {
                assert(ops[oi as int] == operations@[oi as int]@);
                assert(old_lines.len() == self.lines@.len());
                assert(ops[oi as int].n == op.n as int);
                assert(ops[oi as int].kind == op.kind);
                assert(ops[oi as int].ln == op.ln);
                assert(ops[oi as int].lines.len() == op.lines@.len());
            }
            let mut ok: bool = true;
            match op.kind {
                OperationKind::Copy => {
                    if op.n > self.lines.len() - old_idx {
                        ok = false;
                    } else {
                        if let Some(l) = op.ln {
                            if op.n > usize::MAX - l {
                                ok = false;
                            }
                        }
                        if op.n > usize::MAX - count - invalid {
                            ok = false;
                        }
                    }
                    proof {
                        assert(ok == step_wf(old_lines, ops[oi as int], st));
                    }
                    if ok {
                        count = count + op.n;
                        old_idx = old_idx + op.n;
                    }
                },
                OperationKind::Skip => {
                    if op.n > self.lines.len() - old_idx {
                        ok = false;
                    } else {
                        old_idx = old_idx + op.n;
                    }
                    proof {
                        assert(ok == step_wf(old_lines, ops[oi as int], st));
                    }
                },
                OperationKind::Invalidate => {
                    if op.n > usize::MAX - count - invalid {
                        ok = false;
                    } else {
                        invalid = invalid + op.n;
                    }
                    proof {
                        assert(ok == step_wf(old_lines, ops[oi as int], st));
                    }
                },
                OperationKind::Ins => {
                    if op.lines.len() > usize::MAX - count - invalid {
                        ok = false;
                    } else {
                        let mut di: usize = 0;
                        while di < op.lines.len()
                            invariant
                                di <= op.lines@.len(),
                                ok == forall|i: int|
                                    0 <= i < di ==> (#[trigger] op.lines@[i])@.text.len()
                                        <= u32::MAX,
                            decreases op.lines@.len() - di,
                        {
                            if op.lines[di].text.unicode_len() > u32::MAX as usize {
                                proof {
                                    assert(op.lines@[di as int]@.text.len() > u32::MAX);
                                }
                                ok = false;
                            }
                            di = di + 1;
                        }
                        proof {
                            if ok {
                                assert forall|i: int|
                                    0 <= i < ops[oi as int].lines.len() implies (#[trigger] ops[oi as int].lines[i]).text.len()
                                    <= u32::MAX by {
                                    assert(op.lines@[i]@.text.len() <= u32::MAX);
                                    assert(ops[oi as int].lines[i] == op.lines@[i]@);
                                }
                                assert(step_wf(old_lines, ops[oi as int], st));
                            } else {
                                let i = choose|i: int|
                                    0 <= i < op.lines@.len() && !(op.lines@[i]@.text.len()
                                        <= u32::MAX);
                                assert(ops[oi as int].lines[i] == op.lines@[i]@);
                                assert(!step_wf(old_lines, ops[oi as int], st));
                            }
                        }
                        if ok {
                            count = count + op.lines.len();
                        }
                    }
                },
                OperationKind::Unknown => {},
            }
            if !ok {
                proof {
                    assert(op@ == ops[oi as int]);
                    assert(!step_wf(old_lines, ops[oi as int], st));
                    if spec_ops_wf(old_lines, ops, init_replay()) {
                        lemma_ops_wf_at(old_lines, ops, init_replay(), oi as int);
                    }
                }
                return false;
            }
            proof {
                assert(op@ == ops[oi as int]);
                assert(step_wf(old_lines, ops[oi as int], st));
                assert(ops.take(oi as int).push(ops[oi as int]) =~= ops.take(oi as int + 1));
                lemma_replay_push(old_lines, ops.take(oi as int), ops[oi as int], init_replay());
                assert(spec_replay(old_lines, ops.take(oi as int + 1), init_replay())
                    == replay_step(old_lines, ops[oi as int], st));
            }
            oi = oi + 1;
        }

        proof {
            assert(ops.take(oi as int) =~= ops);
            lemma_ops_wf_from_steps(old_lines, ops, init_replay());
        }
        true
    }
}

/// What the final buffer says of one replayed line: the text, tag and dirty
/// flag are exactly the replay's; a copied line keeps its paint plan; an
/// inserted line's paint plan tiles its text exactly, chained without gaps
/// or overlaps, styled away from the default only where its triples placed a
/// span.
pub open spec fn spec_line_matches(l: LineModel, r: ReplayLine, reg: Map<int, Style>) -> bool {
    &&& l.raw == r.raw
    &&& l.ln == r.ln
    &&& l.is_dirty == r.is_dirty
    &&& match r.src {
        LineSrc::Copied(st) => l.styles == st,
        LineSrc::Inserted(triples) => {
            &&& crate::resolver::all_nonempty(l.styles)
            &&& forall|i: int|
                0 <= i < l.styles.len() - 1 ==> (#[trigger] l.styles[i]).end == l.styles[i
                    + 1].start
            &&& (l.styles.len() == 0 <==> l.raw.len() == 0)
            &&& l.styles.len() > 0 ==> l.styles[0].start == 0 && l.styles[l.styles.len()
                - 1].end == l.raw.len()
            &&& forall|k: int, p: int|
                0 <= k < l.styles.len() && #[trigger] in_range(l.styles[k], p) && l.styles[k].style
                    != spec_default_style() ==> covers(spec_triples_to_ranges(reg, triples, 0, 0), p)
            &&& ({
                let conv = spec_triples_to_ranges(reg, triples, 0, 0);
                forall|i: int, p: int|
                    0 <= i < conv.len() && #[trigger] in_range(conv[i], p) && crate::resolver::cover_count(
                        conv,
                        p,
                    ) == 1 && 0 <= p < l.raw.len() ==> exists|k: int|
                        0 <= k < l.styles.len() && #[trigger] in_range(l.styles[k], p)
                            && l.styles[k].style == conv[i].style
            })
            &&& crate::resolver::spec_resolved_plan(
                spec_triples_to_ranges(reg, triples, 0, 0),
                l.styles,
                l.raw.len() as int,
            )
        },
    }
}

/// Every line of the final buffer matches its replayed counterpart.
pub open spec fn spec_lines_match(ms: Seq<LineModel>, rs: Seq<ReplayLine>, reg: Map<int, Style>) -> bool {
    &&& ms.len() == rs.len()
    &&& forall|i: int| 0 <= i < rs.len() ==> spec_line_matches(#[trigger] ms[i], rs[i], reg)
}

/// Copies a paint plan span by span.
fn clone_ranges(v: &Vec<StyleRange>) -> (r: Vec<StyleRange>)
    ensures
        r@ == v@,
{
    let mut r: Vec<StyleRange> = Vec::new();
    let mut i: usize = 0;
    while i < v.len()
        invariant
            i <= v.len(),
            r@ == v@.take(i as int),
        decreases v.len() - i,
    {
        r.push(v[i]);
        proof {
            assert(r@ =~= v@.take(i as int + 1));
        }
        i = i + 1;
    }
    proof {
        assert(r@ =~= v@);
    }
    r
}

/// Appends to `dst` the `n` lines of `src` starting at `old_idx`, re-tagged
/// from `ln` when it is given, each marked with `is_dirty`.
fn append_copied(
    dst: &mut Vec<Line>,
    src: &Vec<Line>,
    old_idx: usize,
    n: usize,
    ln: Option<usize>,
    is_dirty: bool,
)
    requires
        old_idx + n <= src.len(),
        match ln {
            Some(l) => l + n <= usize::MAX,
            None => true,
        },
    ensures
        final(dst)@.len() == old(dst)@.len() + n,
        final(dst)@.take(old(dst)@.len() as int) == old(dst)@,
        forall|i: int|
            0 <= i < n ==> (#[trigger] final(dst)@[old(dst)@.len() + i])@ == (LineModel {
                raw: src@[old_idx + i]@.raw,
                styles: src@[old_idx + i]@.styles,
                ln: match ln {
                    Some(l) => Some((l + i) as usize),
                    None => src@[old_idx + i]@.ln,
                },
                is_dirty: is_dirty,
            }),
{
    let mut i: usize = 0;
    while i < n
        invariant
            i <= n,
            old_idx + n <= src.len(),
            match ln {
                Some(l) => l + n <= usize::MAX,
                None => true,
            },
            dst@.len() == old(dst)@.len() + i,
            dst@.take(old(dst)@.len() as int) == old(dst)@,
            forall|j: int|
                0 <= j < i ==> (#[trigger] dst@[old(dst)@.len() + j])@ == (LineModel {
                    raw: src@[old_idx + j]@.raw,
                    styles: src@[old_idx + j]@.styles,
                    ln: match ln {
                        Some(l) => Some((l + j) as usize),
                        None => src@[old_idx + j]@.ln,
                    },
                    is_dirty: is_dirty,
                }),
        decreases n - i,
    {
        let source = &src[old_idx + i];
        let tagged: Option<usize> = match ln {
            Some(l) => Some(l + i),
            None => source.ln,
        };
        dst.push(
            Line {
                raw: source.raw.clone(),
                styles: clone_ranges(&source.styles),
                ln: tagged,
                is_dirty,
            },
        );
        proof {
            assert(dst@.take(old(dst)@.len() as int) =~= old(dst)@);
        }
        i = i + 1;
    }
}

/// Appends to `dst` one always-dirty line per description, resolving each
/// description's style triples against the registry into the line's paint
/// plan.
fn append_inserted(dst: &mut Vec<Line>, descs: &Vec<LineDescription>, styles: &TermionStyles)
    requires
        forall|i: int| 0 <= i < descs@.len() ==> (#[trigger] descs@[i])@.text.len() <= u32::MAX,
    ensures
        final(dst)@.len() == old(dst)@.len() + descs@.len(),
        final(dst)@.take(old(dst)@.len() as int) == old(dst)@,
        forall|i: int|
            0 <= i < descs@.len() ==> spec_line_matches(
                (#[trigger] final(dst)@[old(dst)@.len() + i])@,
                ReplayLine {
                    raw: descs@[i]@.text,
                    ln: descs@[i]@.ln,
                    is_dirty: true,
                    src: LineSrc::Inserted(descs@[i]@.styles),
                },
                styles.styles_map(),
            ),
{
    let mut i: usize = 0;
    while i < descs.len()
        invariant
            i <= descs@.len(),
            forall|k: int| 0 <= k < descs@.len() ==> (#[trigger] descs@[k])@.text.len()
                <= u32::MAX,
            dst@.len() == old(dst)@.len() + i,
            dst@.take(old(dst)@.len() as int) == old(dst)@,
            forall|j: int|
                0 <= j < i ==> spec_line_matches(
                    (#[trigger] dst@[old(dst)@.len() + j])@,
                    ReplayLine {
                        raw: descs@[j]@.text,
                        ln: descs@[j]@.ln,
                        is_dirty: true,
                        src: LineSrc::Inserted(descs@[j]@.styles),
                    },
                    styles.styles_map(),
                ),
        decreases descs@.len() - i,
    {
        let d = &descs[i];
        let plan = styles.apply_to(&d.styles, d.text.as_str());
        dst.push(Line { raw: d.text.clone(), styles: plan, ln: d.ln, is_dirty: true });
        proof {
            assert(dst@.take(old(dst)@.len() as int) =~= old(dst)@);
        }
        i = i + 1;
    }
}

/// The drawing instructions that repaint one screen row: clear it, emit the
/// gutter in the gutter style, then emit the line's pre-resolved text.
pub open spec fn spec_row_cmds(l: LineModel, row: int, width: int, gutter_style: Style) -> Seq<
    DrawCmd,
> {
    seq![
        DrawCmd::ClearLine { y: row as u32 },
        DrawCmd::Text {
            content: spec_line_section_text(l.ln, width),
            ranges: seq![
                StyleRange {
                    start: 0,
                    end: spec_line_section_text(l.ln, width).len() as u32,
                    style: gutter_style,
                },
            ],
        },
        DrawCmd::Text { content: l.raw, ranges: l.styles },
    ]
}

/// The drawing instructions a redraw of the first `count` visible rows
/// emits: each row whose line is dirty, or every row under `Everything`, is
/// repainted in order.
pub open spec fn spec_paint_rows(
    lines: Seq<LineModel>,
    start: int,
    count: int,
    width: int,
    gutter_style: Style,
    behavior: RedrawBehavior,
) -> Seq<DrawCmd>
    decreases count,
{
    if count <= 0 {
        Seq::empty()
    } else {
        let row = count - 1;
        let prev = spec_paint_rows(lines, start, row, width, gutter_style, behavior);
        if behavior == RedrawBehavior::Everything || lines[start + row].is_dirty {
            prev + spec_row_cmds(lines[start + row], row, width, gutter_style)
        } else {
            prev
        }
    }
}

/// The buffer's lines after a redraw: every repainted line is clean, the
/// rest are untouched.
pub open spec fn spec_mark_clean(
    lines: Seq<LineModel>,
    start: int,
    count: int,
    behavior: RedrawBehavior,
) -> Seq<LineModel> {
    Seq::new(
        lines.len(),
        |i: int|
            if start <= i < start + count && (behavior == RedrawBehavior::Everything
                || lines[i].is_dirty) {
                LineModel {
                    raw: lines[i].raw,
                    styles: lines[i].styles,
                    ln: lines[i].ln,
                    is_dirty: false,
                }
            } else {
                lines[i]
            },
    )
}

/// How many rows a redraw walks: the visible window, shortened when fewer
/// lines are available after the scroll anchor.
pub open spec fn spec_visible_count(lines_len: int, start: int, height: int) -> int {
    let avail = if start < lines_len {
        lines_len - start
    } else {
        0
    };
    if avail < height {
        avail
    } else {
        height
    }
}

/// Redrawing with `Everything` and then with `OnlyDirty`, with no update in
/// between, repaints nothing the second time: the first pass left no
/// visible line dirty.
pub proof fn lemma_only_dirty_after_everything(
    lines: Seq<LineModel>,
    start: int,
    count: int,
    width: int,
    gutter_style: Style,
)
    requires
        0 <= start,
        0 <= count,
        start + count <= lines.len(),
    ensures
        spec_paint_rows(
            spec_mark_clean(lines, start, count, RedrawBehavior::Everything),
            start,
            count,
            width,
            gutter_style,
            RedrawBehavior::OnlyDirty,
        ) == Seq::<DrawCmd>::empty(),
    decreases count,
{
    if count > 0 {
        lemma_paint_rows_prefix(lines, start, count, count - 1, width, gutter_style);
    }
}

proof fn lemma_paint_rows_prefix(
    lines: Seq<LineModel>,
    start: int,
    count: int,
    upto: int,
    width: int,
    gutter_style: Style,
)
    requires
        0 <= start,
        0 <= upto <= count,
        start + count <= lines.len(),
    ensures
        spec_paint_rows(
            spec_mark_clean(lines, start, count, RedrawBehavior::Everything),
            start,
            upto,
            width,
            gutter_style,
            RedrawBehavior::OnlyDirty,
        ) == Seq::<DrawCmd>::empty(),
    decreases upto,
{
    if upto > 0 {
        lemma_paint_rows_prefix(lines, start, count, upto - 1, width, gutter_style);
        assert(!spec_mark_clean(lines, start, count, RedrawBehavior::Everything)[start + upto
            - 1].is_dirty);
    }
}

/// One document view: its cursor, its buffer, its style registry, its
/// output window, and its scroll anchor.
pub struct EditorView<W: Window> {
    id: ViewID,
    cursor: Cursor,
    buffer: Buffer,
    window: W,
    /// An index pointing to the line rendered at the top of the screen.
    ///
    /// Changing its value makes the screen scroll up or down.
    screen_start: u32,
    styles: TermionStyles,
    width_line_section: u32,
}

impl<W: Window> EditorView<W> {
    /// The view's buffer.
    pub closed spec fn spec_buffer(&self) -> Buffer {
        self.buffer
    }

    /// The view's cursor.
    pub closed spec fn spec_cursor(&self) -> Cursor {
        self.cursor
    }

    /// The logical row rendered at the top of the screen.
    pub closed spec fn spec_screen_start(&self) -> u32 {
        self.screen_start
    }

    /// The width of the line-number gutter, blank columns included.
    pub closed spec fn spec_width(&self) -> u32 {
        self.width_line_section
    }

    /// The view's style registry.
    pub closed spec fn spec_styles(&self) -> TermionStyles {
        self.styles
    }

    /// The view's output window.
    pub closed spec fn spec_window(&self) -> W {
        self.window
    }

    /// The view's identifier.
    pub closed spec fn spec_id(&self) -> ViewID {
        self.id
    }

    /// The view's structural invariant: the buffer's logical length fits the
    /// machine, and as soon as lines arrived the gutter width is the width
    /// the update computed.
    pub open spec fn wf(&self) -> bool {
        &&& self.spec_buffer().lines@.len() + self.spec_buffer().nb_invalid_lines <= usize::MAX
        &&& (self.spec_buffer().lines@.len() > 0 ==> 3 <= self.spec_width() <= 22)
    }

    /// A fresh view on an empty buffer.
    pub fn new(view_id: &str, window: W, styles: TermionStyles) -> (r: Self)
        ensures
            r.wf(),
            r.spec_cursor() == (Cursor { y: 0u32, x: 0u32 }),
            r.spec_screen_start() == 0u32,
            r.spec_width() == 0u32,
            r.spec_buffer().lines@.len() == 0,
            r.spec_buffer().nb_invalid_lines == 0,
            r.spec_styles() == styles,
            r.spec_window() == window,
            r.spec_id()@ == view_id@,
    {
        EditorView {
            id: view_id.to_owned(),
            cursor: Cursor { y: 0, x: 0 },
            buffer: Buffer::default(),
            window,
            screen_start: 0,
            styles,
            width_line_section: 0,
        }
    }

    /// The view's buffer, for reading.
    pub fn buffer(&self) -> (r: &Buffer)
        ensures
            *r == self.spec_buffer(),
    {
        &self.buffer
    }

    /// The view's cursor.
    pub fn cursor(&self) -> (r: Cursor)
        ensures
            r == self.spec_cursor(),
    {
        self.cursor
    }

    /// The logical row rendered at the top of the screen.
    pub fn screen_start(&self) -> (r: u32)
        ensures
            r == self.spec_screen_start(),
    {
        self.screen_start
    }

    /// The width of the line-number gutter.
    pub fn width_line_section(&self) -> (r: u32)
        ensures
            r == self.spec_width(),
    {
        self.width_line_section
    }

    /// The view's output window, for reading.
    pub fn window(&self) -> (r: &W)
        ensures
            *r == self.spec_window(),
    {
        &self.window
    }

    /// Inserts or overwrites one style definition in the view's registry.
    pub fn define_style(
        &mut self,
        style_id: i16,
        fg_color: Option<RGBColor>,
        bg_color: Option<RGBColor>,
        italic: bool,
    )
        requires
            old(self).wf(),
        ensures
            final(self).wf(),
            final(self).spec_styles().styles_map() == old(self).spec_styles().styles_map().insert(
                style_id as int,
                Style { background: bg_color, foreground: fg_color, italic },
            ),
            final(self).spec_buffer() == old(self).spec_buffer(),
            final(self).spec_cursor() == old(self).spec_cursor(),
            final(self).spec_screen_start() == old(self).spec_screen_start(),
            final(self).spec_width() == old(self).spec_width(),
            final(self).spec_window() == old(self).spec_window(),
    {
        self.styles.save(style_id, fg_color, bg_color, italic);
    }

    /// Replays an update's operations against the previous buffer, replacing
    /// it with the freshly built one, and recomputes the gutter width from
    /// the new logical length.  Returns whether the gutter width changed,
    /// which the caller must propagate to the editing engine as a resize.
    #[verifier::rlimit(50)]
    pub fn update_buffer(&mut self, operations: Vec<Operation>) -> (resized: bool)
        requires
            old(self).wf(),
            spec_ops_wf(
                lines_model(old(self).spec_buffer()),
                ops_model(operations@),
                init_replay(),
            ),
        ensures
            final(self).wf(),
            ({
                let rp = spec_replay(
                    lines_model(old(self).spec_buffer()),
                    ops_model(operations@),
                    init_replay(),
                );
                &&& spec_lines_match(
                    lines_model(final(self).spec_buffer()),
                    rp.lines,
                    old(self).spec_styles().styles_map(),
                )
                &&& final(self).spec_buffer().nb_invalid_lines == rp.nb_invalid
            }),
            final(self).spec_width() == dec_rep(
                (final(self).spec_buffer().lines@.len()
                    + final(self).spec_buffer().nb_invalid_lines) as nat,
            ).len() + SPACES_IN_LINE_SECTION,
            resized == (final(self).spec_width() != old(self).spec_width()),
            final(self).spec_cursor() == old(self).spec_cursor(),
            final(self).spec_screen_start() == old(self).spec_screen_start(),
            final(self).spec_styles() == old(self).spec_styles(),
            final(self).spec_window() == old(self).spec_window(),
    {
        let ghost old_lines = lines_model(self.buffer);
        let ghost ops = ops_model(operations@);
        let ghost reg = self.styles.styles_map();

        let mut new_lines: Vec<Line> = Vec::new();
        let mut nb_invalid: usize = 0;
        let mut old_idx: usize = 0;
        let mut oi: usize = 0;

        proof {
            assert(ops.take(0) =~= Seq::<OpModel>::empty());
            assert(new_lines@.map_values(|l: Line| l@) =~= Seq::<LineModel>::empty());
        }

        while oi < operations.len()
            invariant
                oi <= operations.len(),
                ops == ops_model(operations@),
                ops.len() == operations@.len(),
                old_lines == lines_model(self.buffer),
                reg == self.styles.styles_map(),
                spec_ops_wf(old_lines, ops, init_replay()),
                old_lines.len() == self.buffer.lines@.len(),
                ({
                    let st = spec_replay(old_lines, ops.take(oi as int), init_replay());
                    &&& spec_lines_match(new_lines@.map_values(|l: Line| l@), st.lines, reg)
                    &&& st.nb_invalid == nb_invalid
                    &&& st.old_idx == old_idx
                }),
                new_lines@.len() + nb_invalid <= usize::MAX,
                old_idx <= self.buffer.lines@.len(),
            decreases operations.len() - oi,
        {
            let ghost st = spec_replay(old_lines, ops.take(oi as int), init_replay());
            proof {
                lemma_ops_wf_at(old_lines, ops, init_replay(), oi as int);
                assert(ops[oi as int] == operations@[oi as int]@);
            }
            let op = &operations[oi];
            let ghost dst_before = new_lines@;
            match op.kind {
                OperationKind::Copy => {
                    proof {
                        assert(st.old_idx + ops[oi as int].n <= old_lines.len());
                        assert(old_lines.len() == self.buffer.lines.len());
                    }
                    let is_dirty = old_idx != new_lines.len();
                    append_copied(&mut new_lines, &self.buffer.lines, old_idx, op.n, op.ln, is_dirty);
                    old_idx = old_idx + op.n;
                    proof {
                        let appended = copied_lines(old_lines, ops[oi as int], st);
                        let cur = new_lines@.map_values(|l: Line| l@);
                        assert forall|i: int|
                            0 <= i < st.lines.len() + ops[oi as int].n implies spec_line_matches(
                            #[trigger] cur[i],
                            (st.lines + appended)[i],
                            reg,
                        ) by {
                            if i < st.lines.len() {
                                assert(new_lines@[i] == dst_before[i]);
                                assert(new_lines@.map_values(|l: Line| l@)[i]
                                    == dst_before.map_values(|l: Line| l@)[i]);
                            } else {
                                let j = i - st.lines.len();
                                assert(new_lines@.map_values(|l: Line| l@)[i] == new_lines@[i]@);
                                assert(dst_before.map_values(|l: Line| l@).len()
                                    == st.lines.len());
                                assert(dst_before.len() == st.lines.len());
                                assert(new_lines@[dst_before.len() + j]@ == new_lines@[i]@);
                                assert(new_lines@[i]@ == (LineModel {
                                    raw: self.buffer.lines@[st.old_idx + j]@.raw,
                                    styles: self.buffer.lines@[st.old_idx + j]@.styles,
                                    ln: match ops[oi as int].ln {
                                        Some(l) => Some((l + j) as usize),
                                        None => self.buffer.lines@[st.old_idx + j]@.ln,
                                    },
                                    is_dirty: st.old_idx != st.lines.len(),
                                }));
                                assert(old_lines[st.old_idx + j]
                                    == self.buffer.lines@[st.old_idx + j]@);
                                assert((st.lines + appended)[i] == appended[j]);
                            }
                        }
                        assert(spec_lines_match(
                            new_lines@.map_values(|l: Line| l@),
                            st.lines + appended,
                            reg,
                        ));
                    }
                },
                OperationKind::Skip => {
                    proof {
                        assert(st.old_idx + ops[oi as int].n <= old_lines.len());
                        assert(old_lines.len() == self.buffer.lines.len());
                    }
                    old_idx = old_idx + op.n;
                },
                OperationKind::Invalidate => {
                    nb_invalid = nb_invalid + op.n;
                },
                OperationKind::Ins => {
                    proof {
                        assert forall|i: int| 0 <= i < op.lines@.len() implies (#[trigger] op.lines@[i])@.text.len() <= u32::MAX by {
                            assert(ops[oi as int].lines[i] == op.lines@[i]@);
                            assert(ops[oi as int].lines[i].text.len() <= u32::MAX);
                        }
                    }
                    append_inserted(&mut new_lines, &op.lines, &self.styles);
                    proof {
                        let appended = inserted_lines(ops[oi as int]);
                        let cur = new_lines@.map_values(|l: Line| l@);
                        assert forall|i: int|
                            0 <= i < st.lines.len() + ops[oi as int].lines.len() implies
                            spec_line_matches(
                            #[trigger] cur[i],
                            (st.lines + appended)[i],
                            reg,
                        ) by {
                            if i < st.lines.len() {
                                assert(new_lines@[i] == dst_before[i]);
                                assert(new_lines@.map_values(|l: Line| l@)[i]
                                    == dst_before.map_values(|l: Line| l@)[i]);
                            } else {
                                let j = i - st.lines.len();
                                assert(new_lines@.map_values(|l: Line| l@)[i] == new_lines@[i]@);
                                assert(ops[oi as int].lines[j] == op.lines@[j]@);
                                assert((st.lines + appended)[i] == appended[j]);
                                assert(dst_before.map_values(|l: Line| l@).len()
                                    == st.lines.len());
                                assert(dst_before.len() == st.lines.len());
                                assert(new_lines@[dst_before.len() + j]@ == new_lines@[i]@);
                                assert(spec_line_matches(
                                    new_lines@[i]@,
                                    ReplayLine {
                                        raw: op.lines@[j]@.text,
                                        ln: op.lines@[j]@.ln,
                                        is_dirty: true,
                                        src: LineSrc::Inserted(op.lines@[j]@.styles),
                                    },
                                    reg,
                                ));
                            }
                        }
                        assert(spec_lines_match(
                            new_lines@.map_values(|l: Line| l@),
                            st.lines + appended,
                            reg,
                        ));
                    }
                },
                OperationKind::Unknown => {},
            }
            proof {
                assert(ops.take(oi as int).push(ops[oi as int]) =~= ops.take(oi as int + 1));
                lemma_replay_push(old_lines, ops.take(oi as int), ops[oi as int], init_replay());
            }
            oi = oi + 1;
        }

        proof {
            assert(ops.take(oi as int) =~= ops);
        }

        let total: usize = new_lines.len() + nb_invalid;
        let digits: usize = count_digits(total as u64);
        let wls: u32 = (digits as u32) + SPACES_IN_LINE_SECTION;
        let resized = wls != self.width_line_section;
        self.buffer = Buffer { lines: new_lines, nb_invalid_lines: nb_invalid };
        self.width_line_section = wls;
        resized
    }

    /// Repaints the visible window: walks the buffer's lines from the scroll
    /// anchor, repaints each dirty row (or every row under `Everything`),
    /// then repositions the cursor and refreshes.  A repainted row is
    /// cleared, given its gutter text in the gutter style, then given the
    /// line's pre-resolved text; its line is clean afterwards.
    pub fn redraw_view(&mut self, redraw_behavior: RedrawBehavior)
        requires
            old(self).wf(),
        ensures
            final(self).wf(),
            ({
                let lines = lines_model(old(self).spec_buffer());
                let start = old(self).spec_screen_start() as int;
                let height = old(self).spec_window().size().height as int;
                let count = spec_visible_count(lines.len() as int, start, height);
                let g = spec_style_of(
                    old(self).spec_styles().styles_map(),
                    LINE_SECTION_STYLE_ID as int,
                );
                &&& final(self).spec_window().cmds() == old(self).spec_window().cmds()
                    + spec_paint_rows(
                    lines,
                    start,
                    count,
                    old(self).spec_width() as int,
                    g,
                    redraw_behavior,
                ) + seq![
                    DrawCmd::MoveCursor {
                        y: old(self).spec_cursor().y,
                        x: old(self).spec_cursor().x,
                    },
                    DrawCmd::Refresh,
                ]
                &&& lines_model(final(self).spec_buffer()) == spec_mark_clean(
                    lines,
                    start,
                    count,
                    redraw_behavior,
                )
            }),
            final(self).spec_window().size() == old(self).spec_window().size(),
            final(self).spec_cursor() == old(self).spec_cursor(),
            final(self).spec_screen_start() == old(self).spec_screen_start(),
            final(self).spec_width() == old(self).spec_width(),
            final(self).spec_styles() == old(self).spec_styles(),
            final(self).spec_buffer().nb_invalid_lines == old(self).spec_buffer().nb_invalid_lines,
    {
        let ghost lines0 = lines_model(self.buffer);
        let ghost g = spec_style_of(self.styles.styles_map(), LINE_SECTION_STYLE_ID as int);
        let ghost cmds0 = self.window.cmds();

        let size = self.window.get_size();
        let start_us: usize = self.screen_start as usize;
        let lines_len: usize = self.buffer.lines.len();
        let avail: usize = if start_us < lines_len {
            lines_len - start_us
        } else {
            0
        };
        let count: usize = if avail < (size.height as usize) {
            avail
        } else {
            size.height as usize
        };
        proof {
            assert(count == spec_visible_count(
                lines0.len() as int,
                self.screen_start as int,
                size.height as int,
            ));
            assert(lines0.len() == self.buffer.lines@.len());
        }
        let gstyle = self.styles.style_of(LINE_SECTION_STYLE_ID);

        let mut row: usize = 0;
        while row < count
            invariant
                row <= count,
                count == spec_visible_count(
                    lines0.len() as int,
                    old(self).spec_screen_start() as int,
                    old(self).spec_window().size().height as int,
                ),
                start_us == old(self).spec_screen_start() as int,
                count == 0 || start_us + count <= self.buffer.lines.len(),
                count <= old(self).spec_window().size().height,
                lines0 == lines_model(old(self).spec_buffer()),
                lines0.len() == self.buffer.lines@.len(),
                gstyle == g,
                g == spec_style_of(
                    old(self).spec_styles().styles_map(),
                    LINE_SECTION_STYLE_ID as int,
                ),
                cmds0 == old(self).spec_window().cmds(),
                self.spec_styles() == old(self).spec_styles(),
                self.spec_cursor() == old(self).spec_cursor(),
                self.spec_screen_start() == old(self).spec_screen_start(),
                self.spec_width() == old(self).spec_width(),
                self.spec_buffer().nb_invalid_lines == old(self).spec_buffer().nb_invalid_lines,
                self.spec_window().size() == old(self).spec_window().size(),
                count > 0 ==> 3 <= self.spec_width() <= 22,
                self.spec_window().cmds() == cmds0 + spec_paint_rows(
                    lines0,
                    start_us as int,
                    row as int,
                    old(self).spec_width() as int,
                    g,
                    redraw_behavior,
                ),
                lines_model(self.spec_buffer()) == spec_mark_clean(
                    lines0,
                    start_us as int,
                    row as int,
                    redraw_behavior,
                ),
            decreases count - row,
        {
            let i: usize = start_us + row;
            proof {
                assert(lines_model(self.spec_buffer())[i as int] == lines0[i as int]);
                assert(self.buffer.lines@[i as int]@ == lines0[i as int]);
            }
            let paint = match redraw_behavior {
                RedrawBehavior::Everything => true,
                RedrawBehavior::OnlyDirty => self.buffer.lines[i].is_dirty,
            };
            if paint {
                self.window.move_cursor_and_clear_line(row as u32);
                let section = build_line_section(&self.buffer.lines[i].ln, self.width_line_section);
                let mut section_ranges: Vec<StyleRange> = Vec::new();
                section_ranges.push(
                    StyleRange { start: 0, end: section.1 as u32, style: gstyle },
                );
                self.window.append_text(section.0.as_str(), &section_ranges);
                let content = self.buffer.lines[i].raw.clone();
                let plan = clone_ranges(&self.buffer.lines[i].styles);
                self.window.append_text(content.as_str(), &plan);
                let ghost pre_vec = self.buffer.lines@;
                self.buffer.lines[i].is_dirty = false;
                proof {
                    assert(seq![
                        StyleRange { start: 0u32, end: section.1 as u32, style: gstyle },
                    ] =~= section_ranges@);
                    assert(self.spec_window().cmds() =~= cmds0 + spec_paint_rows(
                        lines0,
                        start_us as int,
                        row as int + 1,
                        old(self).spec_width() as int,
                        g,
                        redraw_behavior,
                    ));
                    let cur = lines_model(self.spec_buffer());
                    let prev = pre_vec.map_values(|l: Line| l@);
                    let next = spec_mark_clean(
                        lines0,
                        start_us as int,
                        row as int + 1,
                        redraw_behavior,
                    );
                    assert(self.buffer.lines@ == pre_vec.update(
                        i as int,
                        self.buffer.lines@[i as int],
                    ));
                    assert forall|k: int| 0 <= k < cur.len() implies cur[k] == next[k] by {
                        if k == i {
                            assert(cur[k] == self.buffer.lines@[i as int]@);
                            assert(self.buffer.lines@[i as int]@ == (LineModel {
                                raw: pre_vec[i as int]@.raw,
                                styles: pre_vec[i as int]@.styles,
                                ln: pre_vec[i as int]@.ln,
                                is_dirty: false,
                            }));
                            assert(prev[k] == lines0[k]);
                        } else {
                            assert(cur[k] == prev[k]);
                        }
                    }
                    assert(cur =~= next);
                }
            } else {
                proof {
                    assert(self.spec_window().cmds() =~= cmds0 + spec_paint_rows(
                        lines0,
                        start_us as int,
                        row as int + 1,
                        old(self).spec_width() as int,
                        g,
                        redraw_behavior,
                    ));
                    assert(lines_model(self.spec_buffer()) =~= spec_mark_clean(
                        lines0,
                        start_us as int,
                        row as int + 1,
                        redraw_behavior,
                    ));
                }
            }
            row = row + 1;
        }

        self.window.move_cursor(self.cursor.y, self.cursor.x);
        self.window.refresh();
        proof {
            assert(final(self).spec_window().cmds() =~= cmds0 + spec_paint_rows(
                lines0,
                start_us as int,
                count as int,
                old(self).spec_width() as int,
                g,
                redraw_behavior,
            ) + seq![
                DrawCmd::MoveCursor { y: old(self).spec_cursor().y, x: old(self).spec_cursor().x },
                DrawCmd::Refresh,
            ]);
        }
    }

    /// Moves the cursor to the given document position.  When the target
    /// row stands outside the visible window the view scrolls so the cursor
    /// lands on the nearest window edge, a full repaint is drawn at once,
    /// and the new visible line range is returned so the caller can ask the
    /// engine for that window; otherwise only the cursor glyph is moved and
    /// the screen refreshed.  The cursor's row always lands inside
    /// `[0, height)`.
    pub fn move_cursor(&mut self, line: u32, col: u32) -> (scroll: Option<(u64, u64)>)
        requires
            old(self).wf(),
            old(self).spec_window().size().height >= 1,
            col + old(self).spec_width() <= u32::MAX,
        ensures
            final(self).wf(),
            final(self).spec_width() == old(self).spec_width(),
            final(self).spec_styles() == old(self).spec_styles(),
            final(self).spec_window().size() == old(self).spec_window().size(),
            final(self).spec_buffer().nb_invalid_lines == old(self).spec_buffer().nb_invalid_lines,
            0 <= final(self).spec_cursor().y < old(self).spec_window().size().height,
            ({
                let h = old(self).spec_window().size().height as int;
                let start0 = old(self).spec_screen_start() as int;
                let down = line as int >= start0 + h;
                let up = (line as int) < start0;
                let new_start: int = if down {
                    line - h + 1
                } else if up {
                    line as int
                } else {
                    start0
                };
                let cy: int = if down {
                    h - 1
                } else if up {
                    0
                } else {
                    line - start0
                };
                let lines = lines_model(old(self).spec_buffer());
                let count = spec_visible_count(lines.len() as int, new_start, h);
                let g = spec_style_of(
                    old(self).spec_styles().styles_map(),
                    LINE_SECTION_STYLE_ID as int,
                );
                let cursor_after = Cursor {
                    y: cy as u32,
                    x: (col + old(self).spec_width()) as u32,
                };
                &&& final(self).spec_screen_start() == new_start
                &&& final(self).spec_cursor() == cursor_after
                &&& scroll == if down || up {
                    Some((new_start as u64, (new_start + h) as u64))
                } else {
                    None::<(u64, u64)>
                }
                &&& if down || up {
                    &&& final(self).spec_window().cmds() == old(self).spec_window().cmds()
                        + spec_paint_rows(
                        lines,
                        new_start,
                        count,
                        old(self).spec_width() as int,
                        g,
                        RedrawBehavior::Everything,
                    ) + seq![
                        DrawCmd::MoveCursor { y: cy as u32, x: cursor_after.x },
                        DrawCmd::Refresh,
                    ]
                    &&& lines_model(final(self).spec_buffer()) == spec_mark_clean(
                        lines,
                        new_start,
                        count,
                        RedrawBehavior::Everything,
                    )
                } else {
                    &&& final(self).spec_window().cmds() == old(self).spec_window().cmds()
                        + seq![
                        DrawCmd::MoveCursor { y: cy as u32, x: cursor_after.x },
                        DrawCmd::Refresh,
                    ]
                    &&& lines_model(final(self).spec_buffer()) == lines_model(
                        old(self).spec_buffer(),
                    )
                }
            }),
    {
        let size = self.window.get_size();
        let h = size.height;
        let scrolled: bool;

        if (line as u64) >= (self.screen_start as u64) + (h as u64) {
            // The cursor is below the visible window: scroll down.
            self.screen_start = line - (h - 1);
            self.cursor = Cursor { y: h - 1, x: col + self.width_line_section };
            scrolled = true;
        } else if line < self.screen_start {
            // The cursor is above the visible window: scroll up.
            self.screen_start = line;
            self.cursor = Cursor { y: 0, x: col + self.width_line_section };
            scrolled = true;
        } else {
            self.cursor = Cursor { y: line - self.screen_start, x: col + self.width_line_section };
            scrolled = false;
        }

        if scrolled {
            // The scroll requires a full redraw.
            self.redraw_view(RedrawBehavior::Everything);
            Some((self.screen_start as u64, self.screen_start as u64 + h as u64))
        } else {
            // No scroll needed, so the cursor moves without any redraw.
            let ghost mid = self.window.cmds();
            self.window.move_cursor(self.cursor.y, self.cursor.x);
            self.window.refresh();
            proof {
                assert(self.window.cmds() =~= mid + seq![
                    DrawCmd::MoveCursor { y: self.cursor.y, x: self.cursor.x },
                    DrawCmd::Refresh,
                ]);
            }
            None
        }
    }
}

} // verus!
