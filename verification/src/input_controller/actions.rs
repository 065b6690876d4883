use vstd::prelude::*;

use crate::chars::str_eq;
use crate::keyboard::KeyStroke;

verus! {

/// What the editor does next after an action ran: keep going, stop, or
/// change mode.
#[derive(Debug, Clone, Copy, Eq, PartialEq, Structural)]
pub enum Response {
    Continue,
    Stop,
    SwitchToInsertMode,
    SwitchToNormalMode,
    SwitchToVisualMode,
    SwitchToActionMode,
}

/// Everything a keystroke can be bound to, over all modes.  Performing an
/// action (sending the edit request it stands for) is the caller's part;
/// this type only names the decision.
#[derive(Debug, Copy, Clone, Eq, PartialEq, Structural)]
pub enum Action {
    WriteToFile,
    Quite,
    SwitchToInsertMode,
    SwitchToVisualMode,
    SwitchToActionMode,
    SwitchToNormalMode,
    MoveUp,
    MoveDown,
    MoveLeft,
    MoveRight,
    MoveWordRight,
    MoveWordLeft,
    PageUp,
    PageDown,
    MoveUpAndSelect,
    MoveDownAndSelect,
    MoveLeftAndSelect,
    MoveRightAndSelect,
    MoveWordRightAndSelect,
    MoveWordLeftAndSelect,
    YankSelection,
    DeleteSelection,
    DeleteSelectionAndPaste,
    Paste,
    InsertLineBelow,
    InsertLineAbove,
    DeleteBackward,
    DeleteForward,
    Indent,
    Outdent,
    /// Used for the insert mode; not configurable.
    InsertKeyStroke(KeyStroke),
}

/// The action a configuration name stands for.
pub open spec fn spec_action_of(s: Seq<char>) -> Option<Action> {
    if s == "write_to_file"@ {
        Some(Action::WriteToFile)
    } else if s == "quit"@ {
        Some(Action::Quite)
    } else if s == "switch_to_insert_mode"@ {
        Some(Action::SwitchToInsertMode)
    } else if s == "switch_to_visual_mode"@ {
        Some(Action::SwitchToVisualMode)
    } else if s == "switch_to_action_mode"@ {
        Some(Action::SwitchToActionMode)
    } else if s == "switch_to_normal_mode"@ {
        Some(Action::SwitchToNormalMode)
    } else if s == "move_up"@ {
        Some(Action::MoveUp)
    } else if s == "move_down"@ {
        Some(Action::MoveDown)
    } else if s == "move_left"@ {
        Some(Action::MoveLeft)
    } else if s == "move_right"@ {
        Some(Action::MoveRight)
    } else if s == "page_up"@ {
        Some(Action::PageUp)
    } else if s == "page_down"@ {
        Some(Action::PageDown)
    } else if s == "move_up_and_select"@ {
        Some(Action::MoveUpAndSelect)
    } else if s == "move_down_and_select"@ {
        Some(Action::MoveDownAndSelect)
    } else if s == "move_left_and_select"@ {
        Some(Action::MoveLeftAndSelect)
    } else if s == "move_right_and_select"@ {
        Some(Action::MoveRightAndSelect)
    } else if s == "yank_selection"@ {
        Some(Action::YankSelection)
    } else if s == "delete_selection"@ {
        Some(Action::DeleteSelection)
    } else if s == "delete_selection_and_past"@ {
        Some(Action::DeleteSelectionAndPaste)
    } else if s == "paste"@ {
        Some(Action::Paste)
    } else if s == "insert_line_below"@ {
        Some(Action::InsertLineBelow)
    } else if s == "insert_line_above"@ {
        Some(Action::InsertLineAbove)
    } else if s == "delete_backward"@ {
        Some(Action::DeleteBackward)
    } else if s == "delete_forward"@ {
        Some(Action::DeleteForward)
    } else {
        None
    }
}

impl Action {
    /// Parses a configuration name into an action.
    pub fn from_description(desc: &str) -> (r: Option<Action>)
        ensures
            r == spec_action_of(desc@),
    {
        if str_eq(desc, "write_to_file") {
            Some(Action::WriteToFile)
        } else if str_eq(desc, "quit") {
            Some(Action::Quite)
        } else if str_eq(desc, "switch_to_insert_mode") {
            Some(Action::SwitchToInsertMode)
        } else if str_eq(desc, "switch_to_visual_mode") {
            Some(Action::SwitchToVisualMode)
        } else if str_eq(desc, "switch_to_action_mode") {
            Some(Action::SwitchToActionMode)
        } else if str_eq(desc, "switch_to_normal_mode") {
            Some(Action::SwitchToNormalMode)
        } else if str_eq(desc, "move_up") {
            Some(Action::MoveUp)
        } else if str_eq(desc, "move_down") {
            Some(Action::MoveDown)
        } else if str_eq(desc, "move_left") {
            Some(Action::MoveLeft)
        } else if str_eq(desc, "move_right") {
            Some(Action::MoveRight)
        } else if str_eq(desc, "page_up") {
            Some(Action::PageUp)
        } else if str_eq(desc, "page_down") {
            Some(Action::PageDown)
        } else if str_eq(desc, "move_up_and_select") {
            Some(Action::MoveUpAndSelect)
        } else if str_eq(desc, "move_down_and_select") {
            Some(Action::MoveDownAndSelect)
        } else if str_eq(desc, "move_left_and_select") {
            Some(Action::MoveLeftAndSelect)
        } else if str_eq(desc, "move_right_and_select") {
            Some(Action::MoveRightAndSelect)
        } else if str_eq(desc, "yank_selection") {
            Some(Action::YankSelection)
        } else if str_eq(desc, "delete_selection") {
            Some(Action::DeleteSelection)
        } else if str_eq(desc, "delete_selection_and_past") {
            Some(Action::DeleteSelectionAndPaste)
        } else if str_eq(desc, "paste") {
            Some(Action::Paste)
        } else if str_eq(desc, "insert_line_below") {
            Some(Action::InsertLineBelow)
        } else if str_eq(desc, "insert_line_above") {
            Some(Action::InsertLineAbove)
        } else if str_eq(desc, "delete_backward") {
            Some(Action::DeleteBackward)
        } else if str_eq(desc, "delete_forward") {
            Some(Action::DeleteForward)
        } else {
            None
        }
    }
}

} // verus!
