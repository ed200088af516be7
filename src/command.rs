use vstd::prelude::*;

use crate::key::EditorKey;

verus! {

/// An editor action that a key stands for.
#[derive(Debug, PartialEq, Eq, Clone, Copy, Structural)]
pub enum Command {
    Exit,
    Save,
    Find,
    ArrowLeft,
    ArrowRight,
    ArrowUp,
    ArrowDown,
    PageUp,
    PageDown,
    Home,
    End,
    Enter,
    Delete,
    Backspace,
    Escape,
    Input(char),
    Noop,
}

/// The action bound to each key.
pub open spec fn command_for(key: EditorKey) -> Command {
    match key {
        EditorKey::ControlSequence('f') => Command::Find,
        EditorKey::ControlSequence('h') => Command::Backspace,
        EditorKey::ControlSequence('m') => Command::Enter,
        EditorKey::ControlSequence('q') => Command::Exit,
        EditorKey::ControlSequence('s') => Command::Save,
        EditorKey::ArrowLeft => Command::ArrowLeft,
        EditorKey::ArrowRight => Command::ArrowRight,
        EditorKey::ArrowUp => Command::ArrowUp,
        EditorKey::ArrowDown => Command::ArrowDown,
        EditorKey::PageUp => Command::PageUp,
        EditorKey::PageDown => Command::PageDown,
        EditorKey::Home => Command::Home,
        EditorKey::End => Command::End,
        EditorKey::Enter => Command::Enter,
        EditorKey::Delete => Command::Delete,
        EditorKey::Backspace => Command::Backspace,
        EditorKey::Escape => Command::Escape,
        EditorKey::NormalKey(c) => Command::Input(c),
        _ => Command::Noop,
    }
}

/// The action bound to `key`.
pub fn resolve_command(key: EditorKey) -> (r: Command)
    ensures
        r == command_for(key),
{
    match key {
        EditorKey::ControlSequence('f') => Command::Find,
        EditorKey::ControlSequence('h') => Command::Backspace,
        EditorKey::ControlSequence('m') => Command::Enter,
        EditorKey::ControlSequence('q') => Command::Exit,
        EditorKey::ControlSequence('s') => Command::Save,
        EditorKey::ArrowLeft => Command::ArrowLeft,
        EditorKey::ArrowRight => Command::ArrowRight,
        EditorKey::ArrowUp => Command::ArrowUp,
        EditorKey::ArrowDown => Command::ArrowDown,
        EditorKey::PageUp => Command::PageUp,
        EditorKey::PageDown => Command::PageDown,
        EditorKey::Home => Command::Home,
        EditorKey::End => Command::End,
        EditorKey::Enter => Command::Enter,
        EditorKey::Delete => Command::Delete,
        EditorKey::Backspace => Command::Backspace,
        EditorKey::Escape => Command::Escape,
        EditorKey::NormalKey(c) => Command::Input(c),
        _ => Command::Noop,
    }
}

} // verus!
