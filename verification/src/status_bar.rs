use vstd::prelude::*;

use crate::style::StyleRange;
use crate::window::DrawCmd;
use crate::window::Window;

verus! {

/// The one-row bar that shows the editor's current mode.
pub struct StatusBar<W: Window> {
    window: W,
}

impl<W: Window> StatusBar<W> {
    /// The bar's output window.
    pub closed spec fn spec_window(&self) -> W {
        self.window
    }

    pub fn new(window: W) -> (r: Self)
        ensures
            r.spec_window() == window,
    {
        StatusBar { window }
    }

    /// The bar's output window, for reading.
    pub fn window(&self) -> (r: &W)
        ensures
            *r == self.spec_window(),
    {
        &self.window
    }

    /// Rewrites the bar's row with the given mode name, putting the cursor
    /// back where it stood.
    pub fn update_mode(&mut self, mode: &str)
        ensures
            final(self).spec_window().size() == old(self).spec_window().size(),
            final(self).spec_window().cmds() == old(self).spec_window().cmds() + seq![
                DrawCmd::SaveCursor,
                DrawCmd::ClearLine { y: 0u32 },
                DrawCmd::Text { content: mode@, ranges: Seq::<StyleRange>::empty() },
                DrawCmd::RestoreCursor,
                DrawCmd::Refresh,
            ],
    {
        let ghost cmds0 = self.window.cmds();
        self.window.save_cursor_pos();
        self.window.move_cursor_and_clear_line(0);
        let unstyled: Vec<StyleRange> = Vec::new();
        self.window.append_text(mode, &unstyled);
        self.window.restore_cursor_pos();
        self.window.refresh();
        proof {
            assert(unstyled@ =~= Seq::<StyleRange>::empty());
            assert(self.window.cmds() =~= cmds0 + seq![
                DrawCmd::SaveCursor,
                DrawCmd::ClearLine { y: 0u32 },
                DrawCmd::Text { content: mode@, ranges: Seq::<StyleRange>::empty() },
                DrawCmd::RestoreCursor,
                DrawCmd::Refresh,
            ]);
        }
    }
}

} // verus!
