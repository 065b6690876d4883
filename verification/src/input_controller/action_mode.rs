use vstd::prelude::*;

use crate::chars::str_eq;
use crate::keymap::config_pairs_view;
use crate::keymap::Bindings;
use crate::keyboard::spec_keystroke_of;
use crate::keyboard::KeyStroke;

verus! {

/// What a keystroke does in action mode.
#[derive(Debug, Copy, Clone, Eq, PartialEq, Structural)]
pub enum Action {
    ExitActionMode,
    WriteToFile,
    Quite,
}

/// The action a configuration name stands for.
pub open spec fn spec_action_of(s: Seq<char>) -> Option<Action> {
    if s == "quite"@ {
        Some(Action::Quite)
    } else if s == "write_to_file"@ {
        Some(Action::WriteToFile)
    } else if s == "exit_action_mode"@ {
        Some(Action::ExitActionMode)
    } else {
        None
    }
}

impl Action {
    /// Parses a configuration name into a action.
    pub fn from_description(desc: &str) -> (r: Option<Action>)
        ensures
            r == spec_action_of(desc@),
    {
        if str_eq(desc, "quite") {
            Some(Action::Quite)
        } else if str_eq(desc, "write_to_file") {
            Some(Action::WriteToFile)
        } else if str_eq(desc, "exit_action_mode") {
            Some(Action::ExitActionMode)
        } else {
            None
        }
    }
}

/// The keystroke bindings of this table.
pub struct Actions {
    map: Bindings<KeyStroke, Action>,
}

impl vstd::view::View for Actions {
    type V = Map<KeyStroke, Action>;

    closed spec fn view(&self) -> Map<KeyStroke, Action> {
        self.map@
    }
}

/// The bindings the table starts with.
pub open spec fn spec_default_actions() -> Map<KeyStroke, Action> {
    Map::empty().insert(
        KeyStroke::KeyEscape,
        Action::ExitActionMode,
    ).insert(
        KeyStroke::Char('q'),
        Action::Quite,
    ).insert(
        KeyStroke::Char('w'),
        Action::WriteToFile,
    )
}

/// The configuration pairs `(name, key description)` folded onto the
/// bindings from index `i` on: a pair both of whose sides parse overrides
/// the binding for its key, any other pair is ignored.
pub open spec fn spec_config_fold(
    m: Map<KeyStroke, Action>,
    pairs: Seq<(Seq<char>, Seq<char>)>,
    i: int,
) -> Map<KeyStroke, Action>
    decreases pairs.len() - i,
{
    if i < 0 || i >= pairs.len() {
        m
    } else {
        let next = match (spec_keystroke_of(pairs[i].1), spec_action_of(pairs[i].0)) {
            (Some(k), Some(a)) => m.insert(k, a),
            _ => m,
        };
        spec_config_fold(next, pairs, i + 1)
    }
}

impl Default for Actions {
    /// The default bindings.
    fn default() -> (r: Self)
        ensures
            r@ == spec_default_actions(),
    {
        let mut map: Bindings<KeyStroke, Action> = Bindings::new();
        map.insert(KeyStroke::KeyEscape, Action::ExitActionMode);
        map.insert(KeyStroke::Char('q'), Action::Quite);
        map.insert(KeyStroke::Char('w'), Action::WriteToFile);
        Actions { map }
    }
}

impl Actions {
    /// The action bound to `key`, if any.
    pub fn get(&self, key: KeyStroke) -> (r: Option<Action>)
        ensures
            r == if self@.contains_key(key) {
                Some(self@[key])
            } else {
                None::<Action>
            },
    {
        self.map.get(key)
    }

    /// Binds `value` to `key`, overwriting any earlier binding.
    pub fn insert(&mut self, key: KeyStroke, value: Action)
        ensures
            final(self)@ == old(self)@.insert(key, value),
    {
        self.map.insert(key, value);
    }

    /// The default bindings, overridden by every configuration pair whose
    /// key description and name both parse; invalid pairs change nothing.
    pub fn from_config(config_pairs: &Vec<(String, String)>) -> (r: Self)
        ensures
            r@ == spec_config_fold(
                spec_default_actions(),
                config_pairs_view(config_pairs@),
                0,
            ),
    {
        let ghost pv = config_pairs_view(config_pairs@);
        let mut table = Actions::default();
        let mut i: usize = 0;
        while i < config_pairs.len()
            invariant
                i <= config_pairs@.len(),
                pv == config_pairs_view(config_pairs@),
                pv.len() == config_pairs@.len(),
                spec_config_fold(spec_default_actions(), pv, 0) == spec_config_fold(
                    table@,
                    pv,
                    i as int,
                ),
            decreases config_pairs@.len() - i,
        {
            proof {
                assert(pv[i as int] == (config_pairs@[i as int].0@, config_pairs@[i as int].1@));
            }
            let key_res = KeyStroke::from_description(config_pairs[i].1.as_str());
            let value_res = Action::from_description(config_pairs[i].0.as_str());
            if key_res.is_some() && value_res.is_some() {
                table.insert(key_res.unwrap(), value_res.unwrap());
            }
            i = i + 1;
        }
        table
    }
}

} // verus!
