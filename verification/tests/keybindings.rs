use vixi::devices;
use vixi::devices::keyboard::KeyStroke as Plain;
use vixi::input_controller::key_map::{Config as KeyMapConfig, KeyMap, KeyMapError};
use vixi::input_controller::mode_actions::ModeActions;
use vixi::input_controller::{action_mode, normal_mode, nouns, verbs, visual_mode};
use vixi::input_controller::{Config, InputModes, Mode};
use vixi::input_controller::actions::{Action as BoundAction, Response};
use vixi::keyboard::KeyStroke;

fn pairs(entries: &[(&str, &str)]) -> Vec<(String, String)> {
    entries.iter().map(|(a, b)| (String::from(*a), String::from(*b))).collect()
}

// --- action mode -----------------------------------------------------------

#[test]
fn created_with_an_empty_config_keeps_the_default_values() {
    // The config is empty.
    let actions = action_mode::Actions::from_config(&Vec::new());

    // It loads the default configs.
    assert_eq!(Some(action_mode::Action::Quite), actions.get(KeyStroke::Char('q')));
}

#[test]
fn a_config_value_override_the_defaults() {
    let config = pairs(&[("quite", "<key_up>")]);

    let actions = action_mode::Actions::from_config(&config);

    assert_eq!(Some(action_mode::Action::Quite), actions.get(KeyStroke::KeyUp));
}

#[test]
fn an_invalid_config_value_doesnt_change_the_default_config() {
    let config = pairs(&[("quite", "invalid_key")]);

    let actions = action_mode::Actions::from_config(&config);

    assert_eq!(Some(action_mode::Action::Quite), actions.get(KeyStroke::Char('q')));
}

// --- normal mode ------------------------------------------------------------

#[test]
fn actions_created_with_an_empty_config_keeps_the_default_values() {
    // The config is empty.
    let actions = normal_mode::Actions::from_config(&Vec::new());

    // It loads the default configs.
    assert_eq!(Some(normal_mode::Action::MoveUp), actions.get(KeyStroke::KeyUp));
}

#[test]
fn actions_a_config_value_override_the_defaults() {
    // The default for "key_up" is "move_up" but the config should modify
    // the behavior.
    let config = pairs(&[("move_down", "<key_up>")]);

    let actions = normal_mode::Actions::from_config(&config);

    assert_eq!(Some(normal_mode::Action::MoveDown), actions.get(KeyStroke::KeyUp));
}

#[test]
fn actions_an_invalid_config_value_doesnt_change_the_default_config() {
    let config = pairs(&[("move_up", "<key_up>"), ("move_down", "invalid_key")]);

    let actions = normal_mode::Actions::from_config(&config);

    assert_eq!(Some(normal_mode::Action::MoveDown), actions.get(KeyStroke::KeyDown));
    assert_eq!(Some(normal_mode::Action::MoveUp), actions.get(KeyStroke::KeyUp));
}

// --- visual mode -------------------------------------------------------------

#[test]
fn visual_created_with_an_empty_config_keeps_the_default_values() {
    // The config is empty.
    let actions = visual_mode::Actions::from_config(&Vec::new());

    // It loads the default configs.
    assert_eq!(
        Some(visual_mode::Action::MoveUp),
        actions.get(devices::keyboard::KeyStroke::KeyUp)
    );
}

#[test]
fn visual_a_config_value_override_the_defaults() {
    // The default for "key_up" is "move_up" but the config should modify
    // the behavior.
    let config = pairs(&[("move_down", "key_up")]);

    let actions = visual_mode::Actions::from_config(&config);

    assert_eq!(
        Some(visual_mode::Action::MoveDown),
        actions.get(devices::keyboard::KeyStroke::KeyUp)
    );
}

#[test]
fn visual_an_invalid_config_value_doesnt_change_the_default_config() {
    let config = pairs(&[("move_up", "key_up"), ("move_down", "invalid_key")]);

    let actions = visual_mode::Actions::from_config(&config);

    assert_eq!(
        Some(visual_mode::Action::MoveDown),
        actions.get(devices::keyboard::KeyStroke::KeyDown)
    );
    assert_eq!(
        Some(visual_mode::Action::MoveUp),
        actions.get(devices::keyboard::KeyStroke::KeyUp)
    );
}

// --- nouns and verbs ----------------------------------------------------------

#[test]
fn nouns_created_with_an_empty_config_keeps_the_default_values() {
    // The config is empty.
    let table = nouns::Nouns::from_config(&Vec::new());

    // It loads the default configs.
    assert_eq!(Some(nouns::Noun::Line), table.get(devices::keyboard::KeyStroke::Char('l')));
}

#[test]
fn verbs_created_with_an_empty_config_keeps_the_default_values() {
    // The config is empty.
    let table = verbs::Verbs::from_config(&Vec::new());

    // It loads the default configs.
    assert_eq!(Some(verbs::Verb::Delete), table.get(devices::keyboard::KeyStroke::Char('d')));
}

// --- keystroke descriptions ---------------------------------------------------

#[test]
fn bracketed_descriptions_name_the_special_keys() {
    assert_eq!(Some(KeyStroke::KeyUp), KeyStroke::from_description("<key_up>"));
    assert_eq!(Some(KeyStroke::KeySpace), KeyStroke::from_description("<space>"));
    assert_eq!(Some(KeyStroke::KeyEscape), KeyStroke::from_description("<esc>"));
    assert_eq!(Some(KeyStroke::KeyF(1)), KeyStroke::from_description("<f1>"));
    assert_eq!(Some(KeyStroke::Char('x')), KeyStroke::from_description("x"));
    assert_eq!(None, KeyStroke::from_description("not_a_key"));
}

#[test]
fn plain_descriptions_name_the_devices_keys() {
    assert_eq!(Some(Plain::KeyUp), Plain::from_description("key_up"));
    assert_eq!(Some(Plain::KeyF(1)), Plain::from_description("f1"));
    assert_eq!(Some(Plain::Char('q')), Plain::from_description("q"));
    assert_eq!(None, Plain::from_description("<key_up>"));
}

// --- the key map ---------------------------------------------------------------

#[test]
fn a_valid_key_map_config_parses_every_section() {
    let mut config = KeyMapConfig::default();
    config.actions = pairs(&[("key_up", "move_up"), ("f1", "exit")]);
    config.verbs = pairs(&[("d", "delete")]);
    config.nouns = pairs(&[("l", "line")]);

    let km = KeyMap::from_config(&config).unwrap();
    assert_eq!(
        Some(normal_mode::Action::MoveUp),
        km.actions.get(devices::keyboard::KeyStroke::KeyUp)
    );
    assert_eq!(
        Some(normal_mode::Action::Exit),
        km.actions.get(devices::keyboard::KeyStroke::KeyF(1))
    );
    assert_eq!(Some(verbs::Verb::Delete), km.verbs.get(devices::keyboard::KeyStroke::Char('d')));
}

#[test]
fn a_bad_keystroke_in_the_key_map_is_reported() {
    let mut config = KeyMapConfig::default();
    config.verbs = pairs(&[("no_such_key", "delete")]);

    match KeyMap::from_config(&config) {
        Err(KeyMapError::InvalidKeystroke { key, target }) => {
            assert_eq!(key, "no_such_key");
            assert_eq!(target, "delete");
        }
        other => panic!("expected an invalid keystroke error, got {:?}", other.is_ok()),
    }
}

#[test]
fn a_bad_name_in_the_key_map_is_reported() {
    let mut config = KeyMapConfig::default();
    config.actions = pairs(&[("k", "no_such_action")]);

    match KeyMap::from_config(&config) {
        Err(KeyMapError::InvalidTarget { key, target }) => {
            assert_eq!(key, "k");
            assert_eq!(target, "no_such_action");
        }
        other => panic!("expected an invalid target error, got {:?}", other.is_ok()),
    }
}

// --- the modal dispatcher ------------------------------------------------------

#[test]
fn the_dispatcher_starts_in_normal_mode_and_follows_responses() {
    let mut modes = InputModes::new(&Config::default());
    assert_eq!(Mode::Normal, modes.mode());

    // 'i' switches to insert mode by default.
    assert_eq!(
        Some(BoundAction::SwitchToInsertMode),
        modes.action_for_keystroke(KeyStroke::Char('i'))
    );
    assert!(modes.apply_response(Response::SwitchToInsertMode));
    assert_eq!(Mode::Insert, modes.mode());

    // In insert mode an unbound keystroke is typed into the document.
    assert_eq!(
        Some(BoundAction::InsertKeyStroke(KeyStroke::Char('z'))),
        modes.action_for_keystroke(KeyStroke::Char('z'))
    );

    // Escape goes back to normal mode; `Stop` ends the loop.
    assert!(modes.apply_response(Response::SwitchToNormalMode));
    assert_eq!(Mode::Normal, modes.mode());
    assert!(!modes.apply_response(Response::Stop));
}

#[test]
fn an_unbound_keystroke_outside_insert_mode_is_ignored() {
    let modes = InputModes::new(&Config::default());
    assert_eq!(None, modes.action_for_keystroke(KeyStroke::Char('z')));
}

#[test]
fn mode_actions_honour_the_configuration() {
    let table = ModeActions::setup(Mode::Normal, &pairs(&[("paste", "<key_down>")]));
    assert_eq!(Some(BoundAction::Paste), table.get_action_from_keystroke(KeyStroke::KeyDown));
    assert_eq!(Some(BoundAction::Paste), table.get_action_from_keystroke(KeyStroke::Char('p')));
}

#[test]
fn mode_names_render_for_the_status_bar() {
    assert_eq!("NORMAL", Mode::Normal.to_string());
    assert_eq!("INSERT", Mode::Insert.to_string());
    assert_eq!("VISUAL", Mode::Visual.to_string());
    assert_eq!("ACTION", Mode::Action.to_string());
}
