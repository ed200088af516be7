use kilo_rs::command::{resolve_command, Command};
use kilo_rs::key::{read_editor_key, EditorKey};

fn assert_read_editor_key(input: &str, expected: EditorKey) {
    let data = input.bytes().collect::<Vec<u8>>();
    let actual = read_editor_key(&data[..]);
    assert_eq!(Some((expected, data.len())), actual, "input:{}", input.escape_debug());
}

#[test]
fn test_read_editor_key_escape() {
    assert_read_editor_key("\x1b[A", EditorKey::ArrowUp);
    assert_read_editor_key("\x1b[B", EditorKey::ArrowDown);
    assert_read_editor_key("\x1b[C", EditorKey::ArrowRight);
    assert_read_editor_key("\x1b[D", EditorKey::ArrowLeft);
    assert_read_editor_key("\x1b[H", EditorKey::Home);
    assert_read_editor_key("\x1b[F", EditorKey::End);

    assert_read_editor_key("\x1b[1~", EditorKey::Home);
    assert_read_editor_key("\x1b[3~", EditorKey::Delete);
    assert_read_editor_key("\x1b[4~", EditorKey::End);
    assert_read_editor_key("\x1b[5~", EditorKey::PageUp);
    assert_read_editor_key("\x1b[6~", EditorKey::PageDown);
    assert_read_editor_key("\x1b[7~", EditorKey::Home);
    assert_read_editor_key("\x1b[8~", EditorKey::End);

    assert_read_editor_key("\x1bOH", EditorKey::Home);
    assert_read_editor_key("\x1bOF", EditorKey::End);
}

#[test]
fn test_read_editor_key() {
    assert_read_editor_key("\r", EditorKey::Enter);
    assert_read_editor_key("\x7f", EditorKey::Backspace);
    assert_read_editor_key(" ", EditorKey::NormalKey(' '));
    assert_read_editor_key("~", EditorKey::NormalKey('~'));
    assert_read_editor_key("\x01", EditorKey::ControlSequence('a'));
    assert_read_editor_key("\x1a", EditorKey::ControlSequence('z'));
}

#[test]
fn unknown_escape_sequence_is_escape() {
    assert_eq!(Some((EditorKey::Escape, 3)), read_editor_key(b"\x1b[9"));
    assert_eq!(Some((EditorKey::Escape, 2)), read_editor_key(b"\x1bx"));
    assert_eq!(Some((EditorKey::Home, 4)), read_editor_key(b"\x1b[1~rest"));
}

#[test]
fn incomplete_input_waits_for_more() {
    assert_eq!(None, read_editor_key(b""));
    assert_eq!(None, read_editor_key(b"\x1b"));
    assert_eq!(None, read_editor_key(b"\x1b["));
    assert_eq!(None, read_editor_key(b"\x1b[1"));
    assert_eq!(Some((EditorKey::NormalKey('a'), 1)), read_editor_key(b"ab"));
}

#[test]
fn test_resolve_command_control_sequence() {
    assert_eq!(Command::Noop, resolve_command(EditorKey::ControlSequence('a')));
    assert_eq!(
        Command::Backspace,
        resolve_command(EditorKey::ControlSequence('h'))
    );
    assert_eq!(Command::Enter, resolve_command(EditorKey::ControlSequence('m')));
    assert_eq!(Command::Exit, resolve_command(EditorKey::ControlSequence('q')));
    assert_eq!(Command::Save, resolve_command(EditorKey::ControlSequence('s')));
    assert_eq!(Command::Find, resolve_command(EditorKey::ControlSequence('f')));
}

#[test]
fn keys_map_to_commands() {
    assert_eq!(Command::Input('x'), resolve_command(EditorKey::NormalKey('x')));
    assert_eq!(Command::PageDown, resolve_command(EditorKey::PageDown));
    assert_eq!(Command::Escape, resolve_command(EditorKey::Escape));
}
