use vstd::prelude::*;

use crate::chars::str_eq;
use crate::keyboard::KeyStroke;

verus! {

/// What the editor does next after a command ran: keep going, stop, or
/// change mode.
#[derive(Debug, Clone, Copy, Eq, PartialEq, Structural)]
pub enum Response {
    Continue,
    Stop,
    SwitchToInsertMode,
    SwitchToNormalMode,
    SwitchToVisualMode,
    SwitchToActionMode,
}

/// Everything a keystroke can be bound to in the command dialect, whose
/// configuration names carry a leading colon.
#[derive(Debug, Copy, Clone, Eq, PartialEq, Structural)]
pub enum Command {
    WriteToFile,
    Quite,
    SwitchToInsertMode,
    SwitchToVisualMode,
    SwitchToActionMode,
    SwitchToNormalMode,
    MoveUp,
    MoveDown,
    MoveLeft,
    MoveRight,
    MoveWordRight,
    MoveWordLeft,
    PageUp,
    PageDown,
    MoveUpAndSelect,
    MoveDownAndSelect,
    MoveLeftAndSelect,
    MoveRightAndSelect,
    MoveWordRightAndSelect,
    MoveWordLeftAndSelect,
    YankSelection,
    DeleteSelection,
    DeleteSelectionAndPaste,
    Paste,
    InsertLineBelow,
    InsertLineAbove,
    DeleteBackward,
    DeleteForward,
    Indent,
    Outdent,
    /// Used for the insert mode; not configurable.
    InsertKeyStroke(KeyStroke),
}

/// The command a configuration name stands for.
pub open spec fn spec_command_of(s: Seq<char>) -> Option<Command> {
    if s == ":write_to_file"@ {
        Some(Command::WriteToFile)
    } else if s == ":quit"@ {
        Some(Command::Quite)
    } else if s == ":switch_to_insert_mode"@ {
        Some(Command::SwitchToInsertMode)
    } else if s == ":switch_to_visual_mode"@ {
        Some(Command::SwitchToVisualMode)
    } else if s == ":switch_to_action_mode"@ {
        Some(Command::SwitchToActionMode)
    } else if s == ":switch_to_normal_mode"@ {
        Some(Command::SwitchToNormalMode)
    } else if s == ":move_up"@ {
        Some(Command::MoveUp)
    } else if s == ":move_down"@ {
        Some(Command::MoveDown)
    } else if s == ":move_left"@ {
        Some(Command::MoveLeft)
    } else if s == ":move_right"@ {
        Some(Command::MoveRight)
    } else if s == ":page_up"@ {
        Some(Command::PageUp)
    } else if s == ":page_down"@ {
        Some(Command::PageDown)
    } else if s == ":move_up_and_select"@ {
        Some(Command::MoveUpAndSelect)
    } else if s == ":move_down_and_select"@ {
        Some(Command::MoveDownAndSelect)
    } else if s == ":move_left_and_select"@ {
        Some(Command::MoveLeftAndSelect)
    } else if s == ":move_right_and_select"@ {
        Some(Command::MoveRightAndSelect)
    } else if s == ":yank_selection"@ {
        Some(Command::YankSelection)
    } else if s == ":delete_selection"@ {
        Some(Command::DeleteSelection)
    } else if s == ":delete_selection_and_past"@ {
        Some(Command::DeleteSelectionAndPaste)
    } else if s == ":paste"@ {
        Some(Command::Paste)
    } else if s == ":insert_line_below"@ {
        Some(Command::InsertLineBelow)
    } else if s == ":insert_line_above"@ {
        Some(Command::InsertLineAbove)
    } else if s == ":delete_backward"@ {
        Some(Command::DeleteBackward)
    } else if s == ":delete_forward"@ {
        Some(Command::DeleteForward)
    } else {
        None
    }
}

impl Command {
    /// Parses a configuration name into a command.
    pub fn from_description(desc: &str) -> (r: Option<Command>)
        ensures
            r == spec_command_of(desc@),
    {
        if str_eq(desc, ":write_to_file") {
            Some(Command::WriteToFile)
        } else if str_eq(desc, ":quit") {
            Some(Command::Quite)
        } else if str_eq(desc, ":switch_to_insert_mode") {
            Some(Command::SwitchToInsertMode)
        } else if str_eq(desc, ":switch_to_visual_mode") {
            Some(Command::SwitchToVisualMode)
        } else if str_eq(desc, ":switch_to_action_mode") {
            Some(Command::SwitchToActionMode)
        } else if str_eq(desc, ":switch_to_normal_mode") {
            Some(Command::SwitchToNormalMode)
        } else if str_eq(desc, ":move_up") {
            Some(Command::MoveUp)
        } else if str_eq(desc, ":move_down") {
            Some(Command::MoveDown)
        } else if str_eq(desc, ":move_left") {
            Some(Command::MoveLeft)
        } else if str_eq(desc, ":move_right") {
            Some(Command::MoveRight)
        } else if str_eq(desc, ":page_up") {
            Some(Command::PageUp)
        } else if str_eq(desc, ":page_down") {
            Some(Command::PageDown)
        } else if str_eq(desc, ":move_up_and_select") {
            Some(Command::MoveUpAndSelect)
        } else if str_eq(desc, ":move_down_and_select") {
            Some(Command::MoveDownAndSelect)
        } else if str_eq(desc, ":move_left_and_select") {
            Some(Command::MoveLeftAndSelect)
        } else if str_eq(desc, ":move_right_and_select") {
            Some(Command::MoveRightAndSelect)
        } else if str_eq(desc, ":yank_selection") {
            Some(Command::YankSelection)
        } else if str_eq(desc, ":delete_selection") {
            Some(Command::DeleteSelection)
        } else if str_eq(desc, ":delete_selection_and_past") {
            Some(Command::DeleteSelectionAndPaste)
        } else if str_eq(desc, ":paste") {
            Some(Command::Paste)
        } else if str_eq(desc, ":insert_line_below") {
            Some(Command::InsertLineBelow)
        } else if str_eq(desc, ":insert_line_above") {
            Some(Command::InsertLineAbove)
        } else if str_eq(desc, ":delete_backward") {
            Some(Command::DeleteBackward)
        } else if str_eq(desc, ":delete_forward") {
            Some(Command::DeleteForward)
        } else {
            None
        }
    }
}

} // verus!
