use vstd::prelude::*;

use crate::input_controller::actions::spec_action_of;
use crate::input_controller::actions::Action;
use crate::input_controller::Mode;
use crate::keyboard::spec_keystroke_of;
use crate::keyboard::KeyStroke;
use crate::keymap::config_pairs_view;
use crate::keymap::Bindings;

verus! {

/// The keystroke bindings of one input mode.
pub struct ModeActions {
    map: Bindings<KeyStroke, Action>,
}

impl vstd::view::View for ModeActions {
    type V = Map<KeyStroke, Action>;

    closed spec fn view(&self) -> Map<KeyStroke, Action> {
        self.map@
    }
}

/// The bindings each mode starts with.
pub open spec fn spec_default_mode_actions(mode: Mode) -> Map<KeyStroke, Action> {
    match mode {
        Mode::Normal => Map::empty().insert(
            KeyStroke::KeyUp,
            Action::MoveUp,
        ).insert(
            KeyStroke::KeyDown,
            Action::MoveDown,
        ).insert(
            KeyStroke::KeyLeft,
            Action::MoveLeft,
        ).insert(
            KeyStroke::KeyRight,
            Action::MoveRight,
        ).insert(
            KeyStroke::Char('k'),
            Action::MoveUp,
        ).insert(
            KeyStroke::Char('j'),
            Action::MoveDown,
        ).insert(
            KeyStroke::Char('h'),
            Action::MoveLeft,
        ).insert(
            KeyStroke::Char('l'),
            Action::MoveRight,
        ).insert(
            KeyStroke::Char('p'),
            Action::Paste,
        ).insert(
            KeyStroke::Char('q'),
            Action::Quite,
        ).insert(
            KeyStroke::Char('i'),
            Action::SwitchToInsertMode,
        ).insert(
            KeyStroke::Char('v'),
            Action::SwitchToVisualMode,
        ).insert(
            KeyStroke::KeySpace,
            Action::SwitchToActionMode,
        ).insert(
            KeyStroke::Char('o'),
            Action::InsertLineBelow,
        ).insert(
            KeyStroke::Char('O'),
            Action::InsertLineAbove,
        ).insert(
            KeyStroke::Char('w'),
            Action::MoveWordRight,
        ).insert(
            KeyStroke::Char('W'),
            Action::MoveWordLeft,
        ).insert(
            KeyStroke::Char('x'),
            Action::DeleteForward,
        ).insert(
            KeyStroke::Char('X'),
            Action::DeleteBackward,
        ).insert(
            KeyStroke::Char('>'),
            Action::Indent,
        ).insert(
            KeyStroke::Char('<'),
            Action::Outdent,
        ),
        Mode::Action => Map::empty().insert(
            KeyStroke::KeyEscape,
            Action::SwitchToNormalMode,
        ).insert(
            KeyStroke::Char('q'),
            Action::Quite,
        ).insert(
            KeyStroke::Char('w'),
            Action::WriteToFile,
        ),
        Mode::Insert => Map::empty().insert(
            KeyStroke::KeyEscape,
            Action::SwitchToNormalMode,
        ).insert(
            KeyStroke::KeyBackSpace,
            Action::DeleteBackward,
        ).insert(
            KeyStroke::KeyDelete,
            Action::DeleteForward,
        ).insert(
            KeyStroke::KeyUp,
            Action::MoveUp,
        ).insert(
            KeyStroke::KeyDown,
            Action::MoveDown,
        ).insert(
            KeyStroke::KeyLeft,
            Action::MoveLeft,
        ).insert(
            KeyStroke::KeyRight,
            Action::MoveRight,
        ).insert(
            KeyStroke::KeyPreviousPage,
            Action::PageUp,
        ).insert(
            KeyStroke::KeyNextPage,
            Action::PageDown,
        ),
        Mode::Visual => Map::empty().insert(
            KeyStroke::KeyEscape,
            Action::SwitchToNormalMode,
        ).insert(
            KeyStroke::Char('q'),
            Action::SwitchToNormalMode,
        ).insert(
            KeyStroke::Char('y'),
            Action::YankSelection,
        ).insert(
            KeyStroke::Char('d'),
            Action::DeleteSelection,
        ).insert(
            KeyStroke::Char('p'),
            Action::DeleteSelectionAndPaste,
        ).insert(
            KeyStroke::KeyUp,
            Action::MoveUpAndSelect,
        ).insert(
            KeyStroke::KeyDown,
            Action::MoveDownAndSelect,
        ).insert(
            KeyStroke::KeyLeft,
            Action::MoveLeftAndSelect,
        ).insert(
            KeyStroke::KeyRight,
            Action::MoveRightAndSelect,
        ).insert(
            KeyStroke::Char('k'),
            Action::MoveUpAndSelect,
        ).insert(
            KeyStroke::Char('j'),
            Action::MoveDownAndSelect,
        ).insert(
            KeyStroke::Char('h'),
            Action::MoveLeftAndSelect,
        ).insert(
            KeyStroke::Char('l'),
            Action::MoveRightAndSelect,
        ).insert(
            KeyStroke::Char('w'),
            Action::MoveWordRightAndSelect,
        ).insert(
            KeyStroke::Char('W'),
            Action::MoveWordLeftAndSelect,
        ),
    }
}

/// The configuration pairs `(action name, key description)` folded onto the
/// bindings from index `i` on: a pair both of whose sides parse overrides
/// the binding for its key, any other pair is ignored.
pub open spec fn spec_config_fold(
    m: Map<KeyStroke, Action>,
    pairs: Seq<(Seq<char>, Seq<char>)>,
    i: int,
) -> Map<KeyStroke, Action>
    decreases pairs.len() - i,
{
    if i < 0 || i >= pairs.len() {
        m
    } else {
        let next = match (spec_keystroke_of(pairs[i].1), spec_action_of(pairs[i].0)) {
            (Some(k), Some(a)) => m.insert(k, a),
            _ => m,
        };
        spec_config_fold(next, pairs, i + 1)
    }
}

impl ModeActions {
    /// The mode's default bindings, overridden by every configuration pair
    /// whose key description and action name both parse; invalid pairs
    /// change nothing.
    pub fn setup(mode: Mode, config_pairs: &Vec<(String, String)>) -> (r: Self)
        ensures
            r@ == spec_config_fold(
                spec_default_mode_actions(mode),
                config_pairs_view(config_pairs@),
                0,
            ),
    {
        let ghost pv = config_pairs_view(config_pairs@);
        let mut map: Bindings<KeyStroke, Action> = Bindings::new();
        match mode {
            Mode::Normal => {
            map.insert(KeyStroke::KeyUp, Action::MoveUp);
            map.insert(KeyStroke::KeyDown, Action::MoveDown);
            map.insert(KeyStroke::KeyLeft, Action::MoveLeft);
            map.insert(KeyStroke::KeyRight, Action::MoveRight);
            map.insert(KeyStroke::Char('k'), Action::MoveUp);
            map.insert(KeyStroke::Char('j'), Action::MoveDown);
            map.insert(KeyStroke::Char('h'), Action::MoveLeft);
            map.insert(KeyStroke::Char('l'), Action::MoveRight);
            map.insert(KeyStroke::Char('p'), Action::Paste);
            map.insert(KeyStroke::Char('q'), Action::Quite);
            map.insert(KeyStroke::Char('i'), Action::SwitchToInsertMode);
            map.insert(KeyStroke::Char('v'), Action::SwitchToVisualMode);
            map.insert(KeyStroke::KeySpace, Action::SwitchToActionMode);
            map.insert(KeyStroke::Char('o'), Action::InsertLineBelow);
            map.insert(KeyStroke::Char('O'), Action::InsertLineAbove);
            map.insert(KeyStroke::Char('w'), Action::MoveWordRight);
            map.insert(KeyStroke::Char('W'), Action::MoveWordLeft);
            map.insert(KeyStroke::Char('x'), Action::DeleteForward);
            map.insert(KeyStroke::Char('X'), Action::DeleteBackward);
            map.insert(KeyStroke::Char('>'), Action::Indent);
            map.insert(KeyStroke::Char('<'), Action::Outdent);
            },
            Mode::Action => {
            map.insert(KeyStroke::KeyEscape, Action::SwitchToNormalMode);
            map.insert(KeyStroke::Char('q'), Action::Quite);
            map.insert(KeyStroke::Char('w'), Action::WriteToFile);
            },
            Mode::Insert => {
            map.insert(KeyStroke::KeyEscape, Action::SwitchToNormalMode);
            map.insert(KeyStroke::KeyBackSpace, Action::DeleteBackward);
            map.insert(KeyStroke::KeyDelete, Action::DeleteForward);
            map.insert(KeyStroke::KeyUp, Action::MoveUp);
            map.insert(KeyStroke::KeyDown, Action::MoveDown);
            map.insert(KeyStroke::KeyLeft, Action::MoveLeft);
            map.insert(KeyStroke::KeyRight, Action::MoveRight);
            map.insert(KeyStroke::KeyPreviousPage, Action::PageUp);
            map.insert(KeyStroke::KeyNextPage, Action::PageDown);
            },
            Mode::Visual => {
            map.insert(KeyStroke::KeyEscape, Action::SwitchToNormalMode);
            map.insert(KeyStroke::Char('q'), Action::SwitchToNormalMode);
            map.insert(KeyStroke::Char('y'), Action::YankSelection);
            map.insert(KeyStroke::Char('d'), Action::DeleteSelection);
            map.insert(KeyStroke::Char('p'), Action::DeleteSelectionAndPaste);
            map.insert(KeyStroke::KeyUp, Action::MoveUpAndSelect);
            map.insert(KeyStroke::KeyDown, Action::MoveDownAndSelect);
            map.insert(KeyStroke::KeyLeft, Action::MoveLeftAndSelect);
            map.insert(KeyStroke::KeyRight, Action::MoveRightAndSelect);
            map.insert(KeyStroke::Char('k'), Action::MoveUpAndSelect);
            map.insert(KeyStroke::Char('j'), Action::MoveDownAndSelect);
            map.insert(KeyStroke::Char('h'), Action::MoveLeftAndSelect);
            map.insert(KeyStroke::Char('l'), Action::MoveRightAndSelect);
            map.insert(KeyStroke::Char('w'), Action::MoveWordRightAndSelect);
            map.insert(KeyStroke::Char('W'), Action::MoveWordLeftAndSelect);
            },
        }
        let mut table = ModeActions { map };
        let mut i: usize = 0;
        while i < config_pairs.len()
            invariant
                i <= config_pairs@.len(),
                pv == config_pairs_view(config_pairs@),
                pv.len() == config_pairs@.len(),
                spec_config_fold(spec_default_mode_actions(mode), pv, 0) == spec_config_fold(
                    table@,
                    pv,
                    i as int,
                ),
            decreases config_pairs@.len() - i,
        {
            proof {
                assert(pv[i as int] == (config_pairs@[i as int].0@, config_pairs@[i as int].1@));
            }
            let key_res = KeyStroke::from_description(config_pairs[i].1.as_str());
            let action_res = Action::from_description(config_pairs[i].0.as_str());
            if key_res.is_some() && action_res.is_some() {
                table.map.insert(key_res.unwrap(), action_res.unwrap());
            }
            i = i + 1;
        }
        table
    }

    /// The action the mode binds to `keystroke`, if any.
    pub fn get_action_from_keystroke(&self, keystroke: KeyStroke) -> (r: Option<Action>)
        ensures
            r == if self@.contains_key(keystroke) {
                Some(self@[keystroke])
            } else {
                None::<Action>
            },
    {
        self.map.get(keystroke)
    }
}

} // verus!
