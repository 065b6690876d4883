use vstd::prelude::*;

use crate::style::StyleRange;

verus! {

/// A position on the output surface, in screen rows and columns.
#[derive(Debug, Copy, Clone, PartialEq, Eq, Structural)]
pub struct WindowPosition {
    pub y: u32,
    pub x: u32,
}

/// The dimensions of the output surface, in screen rows and columns.
#[derive(Debug, Copy, Clone, PartialEq, Eq, Structural)]
pub struct WindowSize {
    pub height: u32,
    pub width: u32,
}

/// One drawing instruction handed to the output surface.
#[derive(Debug, Clone, PartialEq)]
pub enum DrawCommand {
    /// Place the terminal cursor at screen row `y`, column `x`.
    MoveCursor { y: u32, x: u32 },
    /// Clear screen row `y` and leave the cursor at its start.
    ClearLine { y: u32 },
    /// Emit `content` at the cursor, painted according to `ranges`.
    Text { content: String, ranges: Vec<StyleRange> },
    /// Make everything emitted so far visible.
    Refresh,
    /// Remember the cursor position.
    SaveCursor,
    /// Put the cursor back at the remembered position.
    RestoreCursor,
}

/// The mathematical shape of a drawing instruction.
pub enum DrawCmd {
    MoveCursor { y: u32, x: u32 },
    ClearLine { y: u32 },
    Text { content: Seq<char>, ranges: Seq<StyleRange> },
    Refresh,
    SaveCursor,
    RestoreCursor,
}

impl View for DrawCommand {
    type V = DrawCmd;

    open spec fn view(&self) -> DrawCmd {
        match self {
            DrawCommand::MoveCursor { y, x } => DrawCmd::MoveCursor { y: *y, x: *x },
            DrawCommand::ClearLine { y } => DrawCmd::ClearLine { y: *y },
            DrawCommand::Text { content, ranges } => DrawCmd::Text {
                content: content@,
                ranges: ranges@,
            },
            DrawCommand::Refresh => DrawCmd::Refresh,
            DrawCommand::SaveCursor => DrawCmd::SaveCursor,
            DrawCommand::RestoreCursor => DrawCmd::RestoreCursor,
        }
    }
}

/// The output surface the renderer draws on.  A backend keeps, in the ghost
/// world, the trace of the drawing instructions it has received; every
/// drawing method appends exactly its own instruction to that trace.
pub trait Window: Sized {
    /// The surface's dimensions.  A backend outside the verified world can
    /// leave the default model.
    open spec fn size(&self) -> WindowSize {
        WindowSize { height: 0, width: 0 }
    }

    /// The trace of drawing instructions received so far.  A backend
    /// outside the verified world can leave the default model.
    open spec fn cmds(&self) -> Seq<DrawCmd> {
        Seq::empty()
    }

    fn get_size(&self) -> (s: WindowSize)
        ensures
            s == self.size(),
    ;

    fn move_cursor(&mut self, y: u32, x: u32)
        ensures
            final(self).size() == old(self).size(),
            final(self).cmds() == old(self).cmds().push(DrawCmd::MoveCursor { y, x }),
    ;

    fn move_cursor_and_clear_line(&mut self, line: u32)
        ensures
            final(self).size() == old(self).size(),
            final(self).cmds() == old(self).cmds().push(DrawCmd::ClearLine { y: line }),
    ;

    fn append_text(&mut self, content: &str, ranges: &Vec<StyleRange>)
        ensures
            final(self).size() == old(self).size(),
            final(self).cmds() == old(self).cmds().push(
                DrawCmd::Text { content: content@, ranges: ranges@ },
            ),
    ;

    fn refresh(&mut self)
        ensures
            final(self).size() == old(self).size(),
            final(self).cmds() == old(self).cmds().push(DrawCmd::Refresh),
    ;

    fn save_cursor_pos(&mut self)
        ensures
            final(self).size() == old(self).size(),
            final(self).cmds() == old(self).cmds().push(DrawCmd::SaveCursor),
    ;

    fn restore_cursor_pos(&mut self)
        ensures
            final(self).size() == old(self).size(),
            final(self).cmds() == old(self).cmds().push(DrawCmd::RestoreCursor),
    ;
}

/// A backend that records every drawing instruction instead of painting a
/// terminal: the concrete adapter used by the tests, and the witness that the
/// [`Window`] contract can be met.
pub struct RecordingWindow {
    dims: WindowSize,
    log: Vec<DrawCommand>,
}

impl RecordingWindow {
    pub fn new(size: WindowSize) -> (r: Self)
        ensures
            r.size() == size,
            r.cmds() == Seq::<DrawCmd>::empty(),
    {
        let r = RecordingWindow { dims: size, log: Vec::new() };
        proof {
            assert(r.log@.map_values(|c: DrawCommand| c@) =~= Seq::<DrawCmd>::empty());
        }
        r
    }

    /// The instructions recorded so far.
    pub fn recorded(&self) -> (r: &Vec<DrawCommand>)
        ensures
            r@.map_values(|c: DrawCommand| c@) == self.cmds(),
    {
        &self.log
    }
}

impl Window for RecordingWindow {
    closed spec fn size(&self) -> WindowSize {
        self.dims
    }

    closed spec fn cmds(&self) -> Seq<DrawCmd> {
        self.log@.map_values(|c: DrawCommand| c@)
    }

    fn get_size(&self) -> (s: WindowSize) {
        self.dims
    }

    fn move_cursor(&mut self, y: u32, x: u32) {
        self.log.push(DrawCommand::MoveCursor { y, x });
        proof {
            assert(self.log@.map_values(|c: DrawCommand| c@) =~= old(self).log@.map_values(
                |c: DrawCommand| c@,
            ).push(DrawCmd::MoveCursor { y, x }));
        }
    }

    fn move_cursor_and_clear_line(&mut self, line: u32) {
        self.log.push(DrawCommand::ClearLine { y: line });
        proof {
            assert(self.log@.map_values(|c: DrawCommand| c@) =~= old(self).log@.map_values(
                |c: DrawCommand| c@,
            ).push(DrawCmd::ClearLine { y: line }));
        }
    }

    fn append_text(&mut self, content: &str, ranges: &Vec<StyleRange>) {
        let mut copied: Vec<StyleRange> = Vec::new();
        let mut i: usize = 0;
        while i < ranges.len()
            invariant
                i <= ranges.len(),
                copied@ == ranges@.take(i as int),
            decreases ranges.len() - i,
        {
            copied.push(ranges[i]);
            proof {
                assert(copied@ =~= ranges@.take(i as int + 1));
            }
            i = i + 1;
        }
        proof {
            assert(copied@ =~= ranges@);
        }
        self.log.push(DrawCommand::Text { content: content.to_owned(), ranges: copied });
        proof {
            assert(self.log@.map_values(|c: DrawCommand| c@) =~= old(self).log@.map_values(
                |c: DrawCommand| c@,
            ).push(DrawCmd::Text { content: content@, ranges: ranges@ }));
        }
    }

    fn refresh(&mut self) {
        self.log.push(DrawCommand::Refresh);
        proof {
            assert(self.log@.map_values(|c: DrawCommand| c@) =~= old(self).log@.map_values(
                |c: DrawCommand| c@,
            ).push(DrawCmd::Refresh));
        }
    }

    fn save_cursor_pos(&mut self) {
        self.log.push(DrawCommand::SaveCursor);
        proof {
            assert(self.log@.map_values(|c: DrawCommand| c@) =~= old(self).log@.map_values(
                |c: DrawCommand| c@,
            ).push(DrawCmd::SaveCursor));
        }
    }

    fn restore_cursor_pos(&mut self) {
        self.log.push(DrawCommand::RestoreCursor);
        proof {
            assert(self.log@.map_values(|c: DrawCommand| c@) =~= old(self).log@.map_values(
                |c: DrawCommand| c@,
            ).push(DrawCmd::RestoreCursor));
        }
    }
}

} // verus!
