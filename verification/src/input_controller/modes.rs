use vstd::prelude::*;

use crate::input_controller::commands::Command;
use crate::input_controller::Mode;
use crate::keyboard::KeyStroke;
use crate::keymap::Bindings;

verus! {

/// The keystroke-to-command bindings of one input mode.
pub struct ModeCommands {
    map: Bindings<KeyStroke, Command>,
}

impl vstd::view::View for ModeCommands {
    type V = Map<KeyStroke, Command>;

    closed spec fn view(&self) -> Map<KeyStroke, Command> {
        self.map@
    }
}

/// The command bindings each mode starts with.
pub open spec fn spec_default_mode_commands(mode: Mode) -> Map<KeyStroke, Command> {
    match mode {
        Mode::Normal => Map::empty().insert(
            KeyStroke::KeyUp,
            Command::MoveUpAndSelect,
        ).insert(
            KeyStroke::KeyDown,
            Command::MoveDownAndSelect,
        ).insert(
            KeyStroke::KeyLeft,
            Command::MoveLeftAndSelect,
        ).insert(
            KeyStroke::KeyRight,
            Command::MoveRightAndSelect,
        ).insert(
            KeyStroke::Char('k'),
            Command::MoveUpAndSelect,
        ).insert(
            KeyStroke::Char('j'),
            Command::MoveDownAndSelect,
        ).insert(
            KeyStroke::Char('h'),
            Command::MoveLeftAndSelect,
        ).insert(
            KeyStroke::Char('l'),
            Command::MoveRightAndSelect,
        ).insert(
            KeyStroke::Char('i'),
            Command::SwitchToInsertMode,
        ).insert(
            KeyStroke::Char('v'),
            Command::SwitchToVisualMode,
        ).insert(
            KeyStroke::Char('o'),
            Command::InsertLineBelow,
        ).insert(
            KeyStroke::Char('O'),
            Command::InsertLineAbove,
        ),
        Mode::Action => Map::empty().insert(
            KeyStroke::KeyEscape,
            Command::SwitchToNormalMode,
        ).insert(
            KeyStroke::Char('q'),
            Command::Quite,
        ).insert(
            KeyStroke::Char('w'),
            Command::WriteToFile,
        ),
        Mode::Insert => Map::empty().insert(
            KeyStroke::KeyEscape,
            Command::SwitchToNormalMode,
        ).insert(
            KeyStroke::KeyBackSpace,
            Command::DeleteBackward,
        ).insert(
            KeyStroke::KeyDelete,
            Command::DeleteForward,
        ).insert(
            KeyStroke::KeyUp,
            Command::MoveUp,
        ).insert(
            KeyStroke::KeyDown,
            Command::MoveDown,
        ).insert(
            KeyStroke::KeyLeft,
            Command::MoveLeft,
        ).insert(
            KeyStroke::KeyRight,
            Command::MoveRight,
        ).insert(
            KeyStroke::KeyPreviousPage,
            Command::PageUp,
        ).insert(
            KeyStroke::KeyNextPage,
            Command::PageDown,
        ),
        Mode::Visual => Map::empty().insert(
            KeyStroke::KeyEscape,
            Command::SwitchToNormalMode,
        ).insert(
            KeyStroke::Char('y'),
            Command::YankSelection,
        ).insert(
            KeyStroke::Char('d'),
            Command::DeleteSelection,
        ).insert(
            KeyStroke::Char('p'),
            Command::DeleteSelectionAndPaste,
        ).insert(
            KeyStroke::KeyUp,
            Command::MoveUpAndSelect,
        ).insert(
            KeyStroke::KeyDown,
            Command::MoveDownAndSelect,
        ).insert(
            KeyStroke::KeyLeft,
            Command::MoveLeftAndSelect,
        ).insert(
            KeyStroke::KeyRight,
            Command::MoveRightAndSelect,
        ).insert(
            KeyStroke::Char('k'),
            Command::MoveUpAndSelect,
        ).insert(
            KeyStroke::Char('j'),
            Command::MoveDownAndSelect,
        ).insert(
            KeyStroke::Char('h'),
            Command::MoveLeftAndSelect,
        ).insert(
            KeyStroke::Char('l'),
            Command::MoveRightAndSelect,
        ),
    }
}

/// The already-parsed configuration pairs folded onto the bindings from
/// index `i` on, each overriding the binding for its key.
pub open spec fn spec_pairs_fold(
    m: Map<KeyStroke, Command>,
    pairs: Seq<(KeyStroke, Command)>,
    i: int,
) -> Map<KeyStroke, Command>
    decreases pairs.len() - i,
{
    if i < 0 || i >= pairs.len() {
        m
    } else {
        spec_pairs_fold(m.insert(pairs[i].0, pairs[i].1), pairs, i + 1)
    }
}

impl ModeCommands {
    /// The mode's default command bindings, each configuration pair
    /// overriding the binding for its key.
    pub fn setup(mode: Mode, config_map: &Vec<(KeyStroke, Command)>) -> (r: Self)
        ensures
            r@ == spec_pairs_fold(spec_default_mode_commands(mode), config_map@, 0),
    {
        let mut map: Bindings<KeyStroke, Command> = Bindings::new();
        match mode {
            Mode::Normal => {
            map.insert(KeyStroke::KeyUp, Command::MoveUpAndSelect);
            map.insert(KeyStroke::KeyDown, Command::MoveDownAndSelect);
            map.insert(KeyStroke::KeyLeft, Command::MoveLeftAndSelect);
            map.insert(KeyStroke::KeyRight, Command::MoveRightAndSelect);
            map.insert(KeyStroke::Char('k'), Command::MoveUpAndSelect);
            map.insert(KeyStroke::Char('j'), Command::MoveDownAndSelect);
            map.insert(KeyStroke::Char('h'), Command::MoveLeftAndSelect);
            map.insert(KeyStroke::Char('l'), Command::MoveRightAndSelect);
            map.insert(KeyStroke::Char('i'), Command::SwitchToInsertMode);
            map.insert(KeyStroke::Char('v'), Command::SwitchToVisualMode);
            map.insert(KeyStroke::Char('o'), Command::InsertLineBelow);
            map.insert(KeyStroke::Char('O'), Command::InsertLineAbove);
            },
            Mode::Action => {
            map.insert(KeyStroke::KeyEscape, Command::SwitchToNormalMode);
            map.insert(KeyStroke::Char('q'), Command::Quite);
            map.insert(KeyStroke::Char('w'), Command::WriteToFile);
            },
            Mode::Insert => {
            map.insert(KeyStroke::KeyEscape, Command::SwitchToNormalMode);
            map.insert(KeyStroke::KeyBackSpace, Command::DeleteBackward);
            map.insert(KeyStroke::KeyDelete, Command::DeleteForward);
            map.insert(KeyStroke::KeyUp, Command::MoveUp);
            map.insert(KeyStroke::KeyDown, Command::MoveDown);
            map.insert(KeyStroke::KeyLeft, Command::MoveLeft);
            map.insert(KeyStroke::KeyRight, Command::MoveRight);
            map.insert(KeyStroke::KeyPreviousPage, Command::PageUp);
            map.insert(KeyStroke::KeyNextPage, Command::PageDown);
            },
            Mode::Visual => {
            map.insert(KeyStroke::KeyEscape, Command::SwitchToNormalMode);
            map.insert(KeyStroke::Char('y'), Command::YankSelection);
            map.insert(KeyStroke::Char('d'), Command::DeleteSelection);
            map.insert(KeyStroke::Char('p'), Command::DeleteSelectionAndPaste);
            map.insert(KeyStroke::KeyUp, Command::MoveUpAndSelect);
            map.insert(KeyStroke::KeyDown, Command::MoveDownAndSelect);
            map.insert(KeyStroke::KeyLeft, Command::MoveLeftAndSelect);
            map.insert(KeyStroke::KeyRight, Command::MoveRightAndSelect);
            map.insert(KeyStroke::Char('k'), Command::MoveUpAndSelect);
            map.insert(KeyStroke::Char('j'), Command::MoveDownAndSelect);
            map.insert(KeyStroke::Char('h'), Command::MoveLeftAndSelect);
            map.insert(KeyStroke::Char('l'), Command::MoveRightAndSelect);
            },
        }
        let mut table = ModeCommands { map };
        let mut i: usize = 0;
        while i < config_map.len()
            invariant
                i <= config_map@.len(),
                spec_pairs_fold(spec_default_mode_commands(mode), config_map@, 0)
                    == spec_pairs_fold(table@, config_map@, i as int),
            decreases config_map@.len() - i,
        {
            table.map.insert(config_map[i].0, config_map[i].1);
            i = i + 1;
        }
        table
    }

    /// The command the mode binds to `keystroke`, if any.
    pub fn get_action_from_keystroke(&self, keystroke: &KeyStroke) -> (r: Option<Command>)
        ensures
            r == if self@.contains_key(*keystroke) {
                Some(self@[*keystroke])
            } else {
                None::<Command>
            },
    {
        self.map.get(*keystroke)
    }
}

} // verus!
