use vstd::prelude::*;

use crate::chars::str_eq;
use crate::devices::keyboard::spec_keystroke_of;
use crate::devices::keyboard::KeyStroke;
use crate::input_controller::normal_mode::Action;
use crate::input_controller::verbs::spec_verb_of;
use crate::input_controller::verbs::Verb;
use crate::keymap::config_pairs_view;
use crate::keymap::Bindings;

verus! {

/// Why a keyboard configuration was rejected.
#[derive(Debug, Clone, PartialEq, Eq)]
pub enum KeyMapError {
    /// The key description did not parse.
    InvalidKeystroke { key: String, target: String },
    /// The name bound to the key did not parse.
    InvalidTarget { key: String, target: String },
}

/// A thing a verb can act on.
#[derive(Debug, Copy, Clone, Eq, PartialEq, Structural)]
pub enum Noun {
    Line,
}

/// A key modifier; none is defined yet.
#[derive(Debug, Copy, Clone, Eq, PartialEq, Structural)]
pub enum Modifier {
    Unused,
}

/// The raw keyboard configuration: per section, `(key description, name)`
/// pairs.
pub struct Config {
    pub actions: Vec<(String, String)>,
    pub verbs: Vec<(String, String)>,
    pub modifiers: Vec<(String, String)>,
    pub nouns: Vec<(String, String)>,
}

impl Default for Config {
    /// An empty configuration.
    fn default() -> (r: Self)
        ensures
            r.actions@.len() == 0,
            r.verbs@.len() == 0,
            r.modifiers@.len() == 0,
            r.nouns@.len() == 0,
    {
        Config {
            actions: Vec::new(),
            verbs: Vec::new(),
            modifiers: Vec::new(),
            nouns: Vec::new(),
        }
    }
}

/// Parses a plain-named key description.
pub fn convert_description_to_keystroke(description: &str) -> (r: Option<KeyStroke>)
    ensures
        r == spec_keystroke_of(description@),
{
    KeyStroke::from_description(description)
}

/// The noun a configuration name stands for.
pub open spec fn spec_noun_name_of(s: Seq<char>) -> Option<Noun> {
    if s == "line"@ {
        Some(Noun::Line)
    } else {
        None
    }
}

/// The action a configuration name stands for in the key map.
pub open spec fn spec_action_name_of(s: Seq<char>) -> Option<Action> {
    if s == "move_up"@ {
        Some(Action::MoveUp)
    } else if s == "move_down"@ {
        Some(Action::MoveDown)
    } else if s == "move_left"@ {
        Some(Action::MoveLeft)
    } else if s == "move_right"@ {
        Some(Action::MoveRight)
    } else if s == "exit"@ {
        Some(Action::Exit)
    } else if s == "page_up"@ {
        Some(Action::PageUp)
    } else if s == "page_down"@ {
        Some(Action::PageDown)
    } else {
        None
    }
}

/// Every pair of the section parses: the key description on the left, the
/// name on the right under `name_ok`.
pub open spec fn spec_verbs_ok(pairs: Seq<(Seq<char>, Seq<char>)>) -> bool {
    forall|i: int|
        0 <= i < pairs.len() ==> spec_keystroke_of((#[trigger] pairs[i]).0) is Some
            && spec_verb_of(pairs[i].1) is Some
}

pub open spec fn spec_nouns_ok(pairs: Seq<(Seq<char>, Seq<char>)>) -> bool {
    forall|i: int|
        0 <= i < pairs.len() ==> spec_keystroke_of((#[trigger] pairs[i]).0) is Some
            && spec_noun_name_of(pairs[i].1) is Some
}

pub open spec fn spec_actions_ok(pairs: Seq<(Seq<char>, Seq<char>)>) -> bool {
    forall|i: int|
        0 <= i < pairs.len() ==> spec_keystroke_of((#[trigger] pairs[i]).0) is Some
            && spec_action_name_of(pairs[i].1) is Some
}

/// The section's valid pairs folded into a map, later pairs overriding
/// earlier ones.
pub open spec fn spec_verbs_fold(
    m: Map<KeyStroke, Verb>,
    pairs: Seq<(Seq<char>, Seq<char>)>,
    i: int,
) -> Map<KeyStroke, Verb>
    decreases pairs.len() - i,
{
    if i < 0 || i >= pairs.len() {
        m
    } else {
        let next = match (spec_keystroke_of(pairs[i].0), spec_verb_of(pairs[i].1)) {
            (Some(k), Some(v)) => m.insert(k, v),
            _ => m,
        };
        spec_verbs_fold(next, pairs, i + 1)
    }
}

pub open spec fn spec_nouns_fold(
    m: Map<KeyStroke, Noun>,
    pairs: Seq<(Seq<char>, Seq<char>)>,
    i: int,
) -> Map<KeyStroke, Noun>
    decreases pairs.len() - i,
{
    if i < 0 || i >= pairs.len() {
        m
    } else {
        let next = match (spec_keystroke_of(pairs[i].0), spec_noun_name_of(pairs[i].1)) {
            (Some(k), Some(v)) => m.insert(k, v),
            _ => m,
        };
        spec_nouns_fold(next, pairs, i + 1)
    }
}

pub open spec fn spec_actions_fold(
    m: Map<KeyStroke, Action>,
    pairs: Seq<(Seq<char>, Seq<char>)>,
    i: int,
) -> Map<KeyStroke, Action>
    decreases pairs.len() - i,
{
    if i < 0 || i >= pairs.len() {
        m
    } else {
        let next = match (spec_keystroke_of(pairs[i].0), spec_action_name_of(pairs[i].1)) {
            (Some(k), Some(v)) => m.insert(k, v),
            _ => m,
        };
        spec_actions_fold(next, pairs, i + 1)
    }
}

/// The error blames the pair `(key, target)`: `InvalidKeystroke` when the
/// key description itself did not parse, `InvalidTarget` when the name
/// bound to it did not.
pub open spec fn spec_blames(e: KeyMapError, key: Seq<char>, target: Seq<char>) -> bool {
    match e {
        KeyMapError::InvalidKeystroke { key: k, target: t } => k@ == key && t@ == target
            && spec_keystroke_of(key) is None,
        KeyMapError::InvalidTarget { key: k, target: t } => k@ == key && t@ == target
            && spec_keystroke_of(key) is Some,
    }
}

/// The parsed key map: what each keystroke means as an action, a verb, a
/// modifier or a noun.
pub struct KeyMap {
    pub actions: Bindings<KeyStroke, Action>,
    pub verbs: Bindings<KeyStroke, Verb>,
    pub modifiers: Bindings<KeyStroke, Modifier>,
    pub nouns: Bindings<KeyStroke, Noun>,
}

impl KeyMap {
    /// Parses a whole keyboard configuration.  It succeeds exactly when
    /// every pair of the verb, noun and action sections parses, and then
    /// holds each section's bindings; otherwise the error blames an
    /// offending pair.
    pub fn from_config(config_map: &Config) -> (r: Result<Self, KeyMapError>)
        ensures
            ({
                let av = config_pairs_view(config_map.actions@);
                let vv = config_pairs_view(config_map.verbs@);
                let nv = config_pairs_view(config_map.nouns@);
                match r {
                    Ok(km) => {
                        &&& spec_verbs_ok(vv)
                        &&& spec_nouns_ok(nv)
                        &&& spec_actions_ok(av)
                        &&& km.verbs@ == spec_verbs_fold(Map::empty(), vv, 0)
                        &&& km.nouns@ == spec_nouns_fold(Map::empty(), nv, 0)
                        &&& km.actions@ == spec_actions_fold(Map::empty(), av, 0)
                        &&& km.modifiers@ == Map::<KeyStroke, Modifier>::empty()
                    },
                    Err(e) => {
                        &&& !(spec_verbs_ok(vv) && spec_nouns_ok(nv) && spec_actions_ok(av))
                        &&& {
                            ||| exists|i: int|
                                0 <= i < vv.len() && spec_blames(e, (#[trigger] vv[i]).0, vv[i].1)
                                    && !(spec_keystroke_of(vv[i].0) is Some && spec_verb_of(
                                    vv[i].1,
                                ) is Some)
                            ||| exists|i: int|
                                0 <= i < nv.len() && spec_blames(e, (#[trigger] nv[i]).0, nv[i].1)
                                    && !(spec_keystroke_of(nv[i].0) is Some && spec_noun_name_of(
                                    nv[i].1,
                                ) is Some)
                            ||| exists|i: int|
                                0 <= i < av.len() && spec_blames(e, (#[trigger] av[i]).0, av[i].1)
                                    && !(spec_keystroke_of(av[i].0) is Some && spec_action_name_of(
                                    av[i].1,
                                ) is Some)
                        }
                    },
                }
            }),
    {
        let ghost av = config_pairs_view(config_map.actions@);
        let ghost vv = config_pairs_view(config_map.verbs@);
        let ghost nv = config_pairs_view(config_map.nouns@);

        let mut verbs: Bindings<KeyStroke, Verb> = Bindings::new();
        let mut nouns: Bindings<KeyStroke, Noun> = Bindings::new();
        let mut actions: Bindings<KeyStroke, Action> = Bindings::new();
        let modifiers: Bindings<KeyStroke, Modifier> = Bindings::new();

        let mut i: usize = 0;
        while i < config_map.verbs.len()
            invariant
                i <= config_map.verbs@.len(),
                vv == config_pairs_view(config_map.verbs@),
                vv.len() == config_map.verbs@.len(),
                forall|j: int|
                    0 <= j < i ==> spec_keystroke_of((#[trigger] vv[j]).0) is Some && spec_verb_of(
                        vv[j].1,
                    ) is Some,
                spec_verbs_fold(Map::empty(), vv, 0) == spec_verbs_fold(verbs@, vv, i as int),
            decreases config_map.verbs@.len() - i,
        {
            proof {
                assert(vv[i as int] == (
                    config_map.verbs@[i as int].0@,
                    config_map.verbs@[i as int].1@,
                ));
            }
            let key_desc = &config_map.verbs[i].0;
            let name = &config_map.verbs[i].1;
            let keystroke = match convert_description_to_keystroke(key_desc.as_str()) {
                Some(k) => k,
                None => {
                    let e = KeyMapError::InvalidKeystroke {
                        key: key_desc.clone(),
                        target: name.clone(),
                    };
                    proof {
                        assert(spec_blames(e, vv[i as int].0, vv[i as int].1));
                        assert(!spec_verbs_ok(vv));
                    }
                    return Err(e);
                },
            };
            let verb = match Verb::from_description(name.as_str()) {
                Some(v) => v,
                None => {
                    let e = KeyMapError::InvalidTarget {
                        key: key_desc.clone(),
                        target: name.clone(),
                    };
                    proof {
                        assert(spec_blames(e, vv[i as int].0, vv[i as int].1));
                        assert(!spec_verbs_ok(vv));
                    }
                    return Err(e);
                },
            };
            verbs.insert(keystroke, verb);
            i = i + 1;
        }

        let mut i: usize = 0;
        while i < config_map.nouns.len()
            invariant
                i <= config_map.nouns@.len(),
                nv == config_pairs_view(config_map.nouns@),
                nv.len() == config_map.nouns@.len(),
                spec_verbs_ok(vv),
                forall|j: int|
                    0 <= j < i ==> spec_keystroke_of((#[trigger] nv[j]).0) is Some
                        && spec_noun_name_of(nv[j].1) is Some,
                spec_nouns_fold(Map::empty(), nv, 0) == spec_nouns_fold(nouns@, nv, i as int),
                verbs@ == spec_verbs_fold(Map::empty(), vv, 0),
            decreases config_map.nouns@.len() - i,
        {
            proof {
                assert(nv[i as int] == (
                    config_map.nouns@[i as int].0@,
                    config_map.nouns@[i as int].1@,
                ));
            }
            let key_desc = &config_map.nouns[i].0;
            let name = &config_map.nouns[i].1;
            let keystroke = match convert_description_to_keystroke(key_desc.as_str()) {
                Some(k) => k,
                None => {
                    let e = KeyMapError::InvalidKeystroke {
                        key: key_desc.clone(),
                        target: name.clone(),
                    };
                    proof {
                        assert(spec_blames(e, nv[i as int].0, nv[i as int].1));
                        assert(!spec_nouns_ok(nv));
                    }
                    return Err(e);
                },
            };
            let noun = if str_eq(name.as_str(), "line") {
                Noun::Line
            } else {
                let e = KeyMapError::InvalidTarget {
                    key: key_desc.clone(),
                    target: name.clone(),
                };
                proof {
                    assert(spec_blames(e, nv[i as int].0, nv[i as int].1));
                    assert(!spec_nouns_ok(nv));
                }
                return Err(e);
            };
            nouns.insert(keystroke, noun);
            i = i + 1;
        }

        let mut i: usize = 0;
        while i < config_map.actions.len()
            invariant
                i <= config_map.actions@.len(),
                av == config_pairs_view(config_map.actions@),
                av.len() == config_map.actions@.len(),
                spec_verbs_ok(vv),
                spec_nouns_ok(nv),
                forall|j: int|
                    0 <= j < i ==> spec_keystroke_of((#[trigger] av[j]).0) is Some
                        && spec_action_name_of(av[j].1) is Some,
                spec_actions_fold(Map::empty(), av, 0) == spec_actions_fold(
                    actions@,
                    av,
                    i as int,
                ),
                verbs@ == spec_verbs_fold(Map::empty(), vv, 0),
                nouns@ == spec_nouns_fold(Map::empty(), nv, 0),
            decreases config_map.actions@.len() - i,
        {
            proof {
                assert(av[i as int] == (
                    config_map.actions@[i as int].0@,
                    config_map.actions@[i as int].1@,
                ));
            }
            let key_desc = &config_map.actions[i].0;
            let name = &config_map.actions[i].1;
            let keystroke = match convert_description_to_keystroke(key_desc.as_str()) {
                Some(k) => k,
                None => {
                    let e = KeyMapError::InvalidKeystroke {
                        key: key_desc.clone(),
                        target: name.clone(),
                    };
                    proof {
                        assert(spec_blames(e, av[i as int].0, av[i as int].1));
                        assert(!spec_actions_ok(av));
                    }
                    return Err(e);
                },
            };
            let action = if str_eq(name.as_str(), "move_up") {
                Action::MoveUp
            } else if str_eq(name.as_str(), "move_down") {
                Action::MoveDown
            } else if str_eq(name.as_str(), "move_left") {
                Action::MoveLeft
            } else if str_eq(name.as_str(), "move_right") {
                Action::MoveRight
            } else if str_eq(name.as_str(), "exit") {
                Action::Exit
            } else if str_eq(name.as_str(), "page_up") {
                Action::PageUp
            } else if str_eq(name.as_str(), "page_down") {
                Action::PageDown
            } else {
                let e = KeyMapError::InvalidTarget {
                    key: key_desc.clone(),
                    target: name.clone(),
                };
                proof {
                    assert(spec_blames(e, av[i as int].0, av[i as int].1));
                    assert(!spec_actions_ok(av));
                }
                return Err(e);
            };
            actions.insert(keystroke, action);
            i = i + 1;
        }

        Ok(KeyMap { actions, verbs, modifiers, nouns })
    }
}

} // verus!
