use fluxcut::shortcuts::{is_handled, shortcut_action, KeyName, ShortcutAction};

#[test]
fn playback_keys() {
    assert_eq!(shortcut_action(KeyName::Space, false, false, true), ShortcutAction::Pause);
    assert_eq!(shortcut_action(KeyName::Space, false, false, false), ShortcutAction::PlayForward);
    assert_eq!(shortcut_action(KeyName::J, false, false, true), ShortcutAction::StepBackward);
    assert_eq!(shortcut_action(KeyName::K, false, false, true), ShortcutAction::Pause);
    assert_eq!(shortcut_action(KeyName::L, false, false, false), ShortcutAction::PlayForward);
    assert_eq!(shortcut_action(KeyName::Left, false, false, false), ShortcutAction::StepBackward);
    assert_eq!(shortcut_action(KeyName::Right, false, false, false), ShortcutAction::StepForward);
    assert_eq!(shortcut_action(KeyName::Home, false, false, false), ShortcutAction::SeekStart);
}

#[test]
fn editing_keys() {
    assert_eq!(shortcut_action(KeyName::M, false, false, false), ShortcutAction::ToggleMute);
    assert_eq!(shortcut_action(KeyName::S, false, false, false), ShortcutAction::SplitAtPlayhead);
    assert_eq!(shortcut_action(KeyName::Delete, false, false, false), ShortcutAction::DeleteSelected);
    assert_eq!(
        shortcut_action(KeyName::Delete, true, false, false),
        ShortcutAction::RippleDeleteSelected
    );
    assert_eq!(
        shortcut_action(KeyName::BackSpace, true, false, false),
        ShortcutAction::RippleDeleteSelected
    );
    assert_eq!(shortcut_action(KeyName::Z, false, true, false), ShortcutAction::Undo);
    assert_eq!(shortcut_action(KeyName::Z, true, true, false), ShortcutAction::Redo);
    assert_eq!(shortcut_action(KeyName::Y, false, true, false), ShortcutAction::Redo);
    assert_eq!(shortcut_action(KeyName::Z, false, false, false), ShortcutAction::Ignored);
}

#[test]
fn zoom_keys_and_others() {
    assert_eq!(shortcut_action(KeyName::Plus, false, false, false), ShortcutAction::ZoomIn);
    assert_eq!(shortcut_action(KeyName::Equal, false, false, false), ShortcutAction::ZoomIn);
    assert_eq!(shortcut_action(KeyName::Minus, false, false, false), ShortcutAction::ZoomOut);
    assert_eq!(shortcut_action(KeyName::Zero, false, true, false), ShortcutAction::ZoomToFit);
    assert_eq!(shortcut_action(KeyName::Zero, false, false, false), ShortcutAction::Ignored);
    assert_eq!(shortcut_action(KeyName::Other, true, true, true), ShortcutAction::Ignored);
    assert!(!is_handled(ShortcutAction::Ignored));
    assert!(is_handled(ShortcutAction::Undo));
}
