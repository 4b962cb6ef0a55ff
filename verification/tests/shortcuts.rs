//! Shortcut configuration: defaults, action metadata, and chord validation.

use lai_core::shortcuts::{
    decode_shortcut_config, encode_shortcut_config, get_shortcut_config, update_shortcut_config,
    validate_shortcut, GlobalShortcut, ShortcutAction, ShortcutConfig,
};
use lai_core::store::{Database, DeletionPolicy};

#[test]
fn all_actions_have_metadata() {
    let actions = ShortcutAction::all_actions();
    assert_eq!(actions.len(), 5);
    assert_eq!(actions[0].display_name(), "Toggle Window");
    assert_eq!(actions[0].description(), "Show/hide the main application window");
    assert_eq!(actions[0].default_shortcut(), "CommandOrControl+Space");
    assert_eq!(actions[4].display_name(), "Focus Input");
    assert_eq!(actions[4].default_shortcut(), "CommandOrControl+Shift+I");
}

#[test]
fn default_config_binds_every_action() {
    let config = ShortcutConfig::default();
    assert_eq!(config.shortcuts.len(), 5);
    assert!(config.shortcuts[0].enabled);
    assert!(config.shortcuts.iter().skip(1).all(|s| !s.enabled));
    for binding in &config.shortcuts {
        assert_eq!(binding.shortcut, binding.action.default_shortcut());
    }
}

#[test]
fn chord_validation() {
    assert_eq!(validate_shortcut("CommandOrControl+K"), Ok(true));
    assert_eq!(validate_shortcut("Alt+Shift+P"), Ok(true));
    assert_eq!(
        validate_shortcut("   "),
        Err("Shortcut cannot be empty".to_string())
    );
    assert_eq!(
        validate_shortcut("K"),
        Err("Shortcut must include a modifier key (CommandOrControl, Alt, Shift) and a main key".to_string())
    );
    assert_eq!(
        validate_shortcut("Shift"),
        Err("Shortcut must include a modifier key (CommandOrControl, Alt, Shift) and a main key".to_string())
    );
}

#[test]
fn config_round_trips_through_the_settings_store() {
    let mut db = Database::new(DeletionPolicy::Soft);
    // nothing stored yet: the defaults come back
    let initial = get_shortcut_config(&db).expect("default table");
    assert_eq!(initial.shortcuts.len(), 5);

    let mut config = ShortcutConfig::default();
    config.shortcuts[1] = GlobalShortcut {
        action: ShortcutAction::NewConversation,
        shortcut: "Alt+Shift+N".to_string(),
        enabled: true,
    };
    update_shortcut_config(&mut db, &config, 77);
    let loaded = get_shortcut_config(&db).expect("stored table reads back");
    assert_eq!(loaded.shortcuts.len(), 5);
    assert_eq!(loaded.shortcuts[1].shortcut, "Alt+Shift+N");
    assert!(loaded.shortcuts[1].enabled);
    assert!(matches!(loaded.shortcuts[1].action, ShortcutAction::NewConversation));
    assert_eq!(loaded.shortcuts[0].shortcut, "CommandOrControl+Space");

    // the encoder and decoder are inverse on the wire text too
    let text = encode_shortcut_config(&config);
    let back = decode_shortcut_config(&text).expect("decodes");
    assert_eq!(back.shortcuts.len(), config.shortcuts.len());
    for (a, b) in back.shortcuts.iter().zip(config.shortcuts.iter()) {
        assert_eq!(a.shortcut, b.shortcut);
        assert_eq!(a.enabled, b.enabled);
        assert_eq!(a.action, b.action);
    }

    // a stored value that does not read back is reported, not guessed at
    db.set_setting("shortcut_config", "not a table", 78);
    assert!(get_shortcut_config(&db).is_err());
}
