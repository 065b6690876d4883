pub mod action_mode;
pub mod actions;
pub mod commands;
pub mod key_map;
pub mod mode_actions;
pub mod modes;
pub mod normal_mode;
pub mod nouns;
pub mod verbs;
pub mod visual_mode;

use vstd::prelude::*;

use crate::input_controller::actions::Action;
use crate::input_controller::actions::Response;
use crate::input_controller::mode_actions::spec_config_fold;
use crate::input_controller::mode_actions::spec_default_mode_actions;
use crate::input_controller::mode_actions::ModeActions;
use crate::keyboard::KeyStroke;
use crate::keymap::config_pairs_view;

verus! {

/// The editor's input modes.
#[derive(Debug, Clone, Copy, Eq, PartialEq, Structural)]
pub enum Mode {
    Normal,
    Insert,
    Visual,
    Action,
}

impl Mode {
    /// The mode's display name, as the status bar shows it.
    pub fn to_string(self) -> (r: String)
        ensures
            self == Mode::Normal ==> r@ == "NORMAL"@,
            self == Mode::Insert ==> r@ == "INSERT"@,
            self == Mode::Visual ==> r@ == "VISUAL"@,
            self == Mode::Action ==> r@ == "ACTION"@,
    {
        match self {
            Mode::Normal => "NORMAL".to_owned(),
            Mode::Insert => "INSERT".to_owned(),
            Mode::Visual => "VISUAL".to_owned(),
            Mode::Action => "ACTION".to_owned(),
        }
    }
}

/// The keyboard configuration: per mode, the `(action name, key
/// description)` pairs that override the default bindings.
pub struct Config {
    pub normal_mode: Vec<(String, String)>,
    pub insert_mode: Vec<(String, String)>,
    pub visual_mode: Vec<(String, String)>,
    pub action_mode: Vec<(String, String)>,
}

impl Default for Config {
    /// An empty configuration: every mode keeps its defaults.
    fn default() -> (r: Self)
        ensures
            r.normal_mode@.len() == 0,
            r.insert_mode@.len() == 0,
            r.visual_mode@.len() == 0,
            r.action_mode@.len() == 0,
    {
        Config {
            normal_mode: Vec::new(),
            insert_mode: Vec::new(),
            visual_mode: Vec::new(),
            action_mode: Vec::new(),
        }
    }
}

/// The modal dispatch core of the input controller: which mode the editor
/// is in, and what a keystroke resolves to there.  The caller owns the
/// event loop; it reads keystrokes, performs the actions this type
/// resolves, and hands back each action's response.
pub struct InputModes {
    normal_mode: ModeActions,
    insert_mode: ModeActions,
    visual_mode: ModeActions,
    action_mode: ModeActions,
    mode: Mode,
}

impl InputModes {
    /// The current input mode.
    pub closed spec fn spec_mode(&self) -> Mode {
        self.mode
    }

    /// The bindings the given mode dispatches with.
    pub closed spec fn spec_bindings(&self, mode: Mode) -> Map<KeyStroke, Action> {
        match mode {
            Mode::Normal => self.normal_mode@,
            Mode::Insert => self.insert_mode@,
            Mode::Visual => self.visual_mode@,
            Mode::Action => self.action_mode@,
        }
    }

    /// A dispatcher in normal mode, each mode's default bindings overridden
    /// by its part of the configuration.
    pub fn new(config: &Config) -> (r: Self)
        ensures
            r.spec_mode() == Mode::Normal,
            r.spec_bindings(Mode::Normal) == spec_config_fold(
                spec_default_mode_actions(Mode::Normal),
                config_pairs_view(config.normal_mode@),
                0,
            ),
            r.spec_bindings(Mode::Insert) == spec_config_fold(
                spec_default_mode_actions(Mode::Insert),
                config_pairs_view(config.insert_mode@),
                0,
            ),
            r.spec_bindings(Mode::Visual) == spec_config_fold(
                spec_default_mode_actions(Mode::Visual),
                config_pairs_view(config.visual_mode@),
                0,
            ),
            r.spec_bindings(Mode::Action) == spec_config_fold(
                spec_default_mode_actions(Mode::Action),
                config_pairs_view(config.action_mode@),
                0,
            ),
    {
        InputModes {
            normal_mode: ModeActions::setup(Mode::Normal, &config.normal_mode),
            insert_mode: ModeActions::setup(Mode::Insert, &config.insert_mode),
            visual_mode: ModeActions::setup(Mode::Visual, &config.visual_mode),
            action_mode: ModeActions::setup(Mode::Action, &config.action_mode),
            mode: Mode::Normal,
        }
    }

    /// The current input mode.
    pub fn mode(&self) -> (r: Mode)
        ensures
            r == self.spec_mode(),
    {
        self.mode
    }

    /// What one keystroke resolves to in the current mode: its binding if
    /// the mode has one; in insert mode an unbound keystroke is typed into
    /// the document; anywhere else it is ignored.
    pub fn action_for_keystroke(&self, key: KeyStroke) -> (r: Option<Action>)
        ensures
            r == if self.spec_bindings(self.spec_mode()).contains_key(key) {
                Some(self.spec_bindings(self.spec_mode())[key])
            } else if self.spec_mode() == Mode::Insert {
                Some(Action::InsertKeyStroke(key))
            } else {
                None::<Action>
            },
    {
        let bound = match self.mode {
            Mode::Normal => self.normal_mode.get_action_from_keystroke(key),
            Mode::Insert => self.insert_mode.get_action_from_keystroke(key),
            Mode::Visual => self.visual_mode.get_action_from_keystroke(key),
            Mode::Action => self.action_mode.get_action_from_keystroke(key),
        };
        if bound.is_none() {
            if let Mode::Insert = self.mode {
                return Some(Action::InsertKeyStroke(key));
            }
        }
        bound
    }

    /// Applies an action's response: a mode switch changes the current
    /// mode, `Stop` ends the loop, and `Continue` changes nothing.
    pub fn apply_response(&mut self, response: Response) -> (keep_running: bool)
        ensures
            keep_running == (response != Response::Stop),
            final(self).spec_mode() == match response {
                Response::Continue => old(self).spec_mode(),
                Response::Stop => old(self).spec_mode(),
                Response::SwitchToInsertMode => Mode::Insert,
                Response::SwitchToNormalMode => Mode::Normal,
                Response::SwitchToVisualMode => Mode::Visual,
                Response::SwitchToActionMode => Mode::Action,
            },
            forall|m: Mode| final(self).spec_bindings(m) == old(self).spec_bindings(m),
    {
        match response {
            Response::Continue => true,
            Response::Stop => false,
            Response::SwitchToInsertMode => {
                self.mode = Mode::Insert;
                true
            },
            Response::SwitchToNormalMode => {
                self.mode = Mode::Normal;
                true
            },
            Response::SwitchToVisualMode => {
                self.mode = Mode::Visual;
                true
            },
            Response::SwitchToActionMode => {
                self.mode = Mode::Action;
                true
            },
        }
    }
}

} // verus!
