//! Keyboard shortcuts of the editor window: which key does what.
use vstd::prelude::*;

verus! {

/// The keys the editor reacts to (letters regardless of case).
#[derive(Debug, Clone, Copy, PartialEq, Eq, Structural)]
pub enum KeyName {
    Space,
    J,
    K,
    L,
    M,
    S,
    Y,
    Z,
    Delete,
    BackSpace,
    Left,
    Right,
    Home,
    Plus,
    Equal,
    Minus,
    Zero,
    Other,
}

/// What a key press asks the editor to do.
#[derive(Debug, Clone, Copy, PartialEq, Eq, Structural)]
pub enum ShortcutAction {
    Pause,
    PlayForward,
    StepBackward,
    StepForward,
    SeekStart,
    SplitAtPlayhead,
    ToggleMute,
    DeleteSelected,
    RippleDeleteSelected,
    Undo,
    Redo,
    ZoomIn,
    ZoomOut,
    ZoomToFit,
    Ignored,
}

/// The shortcut table: Space toggles playback, J/K/L step back, pause and
/// play, Left/Right step one frame, Home seeks to the start, M mutes the
/// selected clip, S splits at the playhead, Delete (or BackSpace) deletes the
/// selected clip and with Shift ripple-deletes it, Ctrl+Z undoes, Ctrl+Shift+Z
/// and Ctrl+Y redo, + (or =) and - zoom, Ctrl+0 zooms to fit.
pub open spec fn spec_shortcut_action(key: KeyName, shift: bool, ctrl: bool, playing: bool) -> ShortcutAction {
    match key {
        KeyName::Space => if playing {
            ShortcutAction::Pause
        } else {
            ShortcutAction::PlayForward
        },
        KeyName::J => ShortcutAction::StepBackward,
        KeyName::K => ShortcutAction::Pause,
        KeyName::L => ShortcutAction::PlayForward,
        KeyName::Left => ShortcutAction::StepBackward,
        KeyName::Right => ShortcutAction::StepForward,
        KeyName::Home => ShortcutAction::SeekStart,
        KeyName::M => ShortcutAction::ToggleMute,
        KeyName::S => ShortcutAction::SplitAtPlayhead,
        KeyName::Delete | KeyName::BackSpace => if shift {
            ShortcutAction::RippleDeleteSelected
        } else {
            ShortcutAction::DeleteSelected
        },
        KeyName::Z => if !ctrl {
            ShortcutAction::Ignored
        } else if shift {
            ShortcutAction::Redo
        } else {
            ShortcutAction::Undo
        },
        KeyName::Y => if ctrl {
            ShortcutAction::Redo
        } else {
            ShortcutAction::Ignored
        },
        KeyName::Plus | KeyName::Equal => ShortcutAction::ZoomIn,
        KeyName::Minus => ShortcutAction::ZoomOut,
        KeyName::Zero => if ctrl {
            ShortcutAction::ZoomToFit
        } else {
            ShortcutAction::Ignored
        },
        KeyName::Other => ShortcutAction::Ignored,
    }
}

/// The action for a key press with the given modifiers, while playback is
/// running (`playing`) or not.
pub fn shortcut_action(key: KeyName, shift: bool, ctrl: bool, playing: bool) -> (r: ShortcutAction)
    ensures
        r == spec_shortcut_action(key, shift, ctrl, playing),
{
    match key {
        KeyName::Space => if playing {
            ShortcutAction::Pause
        } else {
            ShortcutAction::PlayForward
        },
        KeyName::J => ShortcutAction::StepBackward,
        KeyName::K => ShortcutAction::Pause,
        KeyName::L => ShortcutAction::PlayForward,
        KeyName::Left => ShortcutAction::StepBackward,
        KeyName::Right => ShortcutAction::StepForward,
        KeyName::Home => ShortcutAction::SeekStart,
        KeyName::M => ShortcutAction::ToggleMute,
        KeyName::S => ShortcutAction::SplitAtPlayhead,
        KeyName::Delete | KeyName::BackSpace => if shift {
            ShortcutAction::RippleDeleteSelected
        } else {
            ShortcutAction::DeleteSelected
        },
        KeyName::Z => if !ctrl {
            ShortcutAction::Ignored
        } else if shift {
            ShortcutAction::Redo
        } else {
            ShortcutAction::Undo
        },
        KeyName::Y => if ctrl {
            ShortcutAction::Redo
        } else {
            ShortcutAction::Ignored
        },
        KeyName::Plus | KeyName::Equal => ShortcutAction::ZoomIn,
        KeyName::Minus => ShortcutAction::ZoomOut,
        KeyName::Zero => if ctrl {
            ShortcutAction::ZoomToFit
        } else {
            ShortcutAction::Ignored
        },
        KeyName::Other => ShortcutAction::Ignored,
    }
}

/// Whether the editor consumes the key press (anything but `Ignored`).
pub fn is_handled(action: ShortcutAction) -> (r: bool)
    ensures
        r == (action != ShortcutAction::Ignored),
{
    match action {
        ShortcutAction::Ignored => false,
        _ => true,
    }
}

} // verus!
