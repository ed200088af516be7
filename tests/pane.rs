use kilo_rs::command::Command;
use kilo_rs::escape_sequence::{move_cursor, Color};
use kilo_rs::highlight::Highlight;
use kilo_rs::key::EditorKey;
use kilo_rs::message_bar::{MessageBar, Timestamp};
use kilo_rs::pane::{Direction, FindSession, Pane, PromptStep};
use kilo_rs::ui::{Component, Terminal};

fn at(secs: u64) -> Timestamp {
    Timestamp { secs, nanos: 0 }
}

fn pane_with(text: &str) -> Pane {
    let mut pane = Pane::new("HELP".to_string(), at(0));
    pane.set_size(0, 0, 40, 12);
    pane.screen().buffer().load_string(text.to_string());
    pane
}

#[test]
fn message_expires_after_five_seconds() {
    let bar = MessageBar::new("hi".to_string(), Timestamp { secs: 10, nanos: 500 });
    assert_eq!(Some("hi".to_string()), bar.get_message(Timestamp { secs: 14, nanos: 999_999_999 }));
    assert_eq!(Some("hi".to_string()), bar.get_message(Timestamp { secs: 15, nanos: 499 }));
    assert_eq!(None, bar.get_message(Timestamp { secs: 15, nanos: 500 }));
    assert_eq!(None, bar.get_message(at(9)));
}

#[test]
fn escape_sequences() {
    assert_eq!("\x1b[3;11H", move_cursor(10, 2));
    assert_eq!("\x1b[1;1H", move_cursor(0, 0));
    assert_eq!("\x1b[31m", Color::Red.foreground_escape_sequence());
    assert_eq!("\x1b[39m", Color::Default.foreground_escape_sequence());
    assert_eq!("\x1b[47m", Color::White.background_escape_sequence());
    assert_eq!(33, Highlight::Keyword1.color());
}

#[test]
fn layout_splits_rows() {
    let pane = pane_with("a");
    assert_eq!(Component::new(0, 0, 40, 10), pane.screen.component);
    assert_eq!(Component::new(0, 10, 40, 1), pane.status_bar.component);
    assert_eq!(Component::new(0, 11, 40, 1), pane.message_bar.component);
}

#[test]
fn terminal_reports_resize() {
    let mut terminal = Terminal::new(80, 24);
    assert!(!terminal.update(80, 24));
    assert!(terminal.update(100, 24));
    assert_eq!(100, terminal.get_width());
    assert_eq!(24, terminal.get_height());
}

#[test]
fn exit_with_unsaved_changes_asks_again() {
    let mut pane = pane_with("abc");
    assert_eq!(Ok(()), pane.process_command(Command::Input('x'), at(1)));
    assert_eq!(3, pane.quit_times);
    assert_eq!(Ok(()), pane.process_command(Command::Exit, at(2)));
    assert_eq!(
        "WARNING!!! File has unsaved changes. Press Ctrl+Q 3 more times to quit.",
        pane.message_bar.message
    );
    assert_eq!(2, pane.quit_times);
    assert!(pane.process_command(Command::Exit, at(3)).is_ok());
    assert!(pane.process_command(Command::Exit, at(4)).is_ok());
    assert!(pane.process_command(Command::Exit, at(5)).is_err());
}

#[test]
fn exit_without_changes_is_granted() {
    let mut pane = pane_with("abc");
    assert!(pane.process_command(Command::Exit, at(1)).is_err());
}

#[test]
fn commands_edit_and_update_status() {
    let mut pane = pane_with("abc\ndef");
    pane.process_command(Command::End, at(1)).unwrap();
    pane.process_command(Command::Enter, at(1)).unwrap();
    pane.process_command(Command::Input('z'), at(1)).unwrap();
    assert_eq!((1, 1), pane.get_cursor());
    assert_eq!(Some("z".to_string()), pane.screen.buffer.get_line(1));
    pane.process_command(Command::Delete, at(1)).unwrap();
    assert_eq!(Some("zdef".to_string()), pane.screen.buffer.get_line(1));
    pane.process_command(Command::Backspace, at(1)).unwrap();
    assert_eq!(Some("def".to_string()), pane.screen.buffer.get_line(1));
    assert_eq!(
        "[No Name]            - 1 lines (modified)",
        pane.status_bar.left_status
    );
    assert_eq!("no ft | 2/2", pane.status_bar.right_status);
}

#[test]
fn prompt_collects_answer() {
    let mut pane = pane_with("abc");
    let mut input = String::new();
    pane.start_prompt("Save as: ", at(1));
    assert_eq!("Save as: ", pane.message_bar.message);
    assert_eq!(PromptStep::Continue, pane.prompt_key("Save as: ", &mut input, EditorKey::NormalKey('a'), at(2)));
    assert_eq!(PromptStep::Continue, pane.prompt_key("Save as: ", &mut input, EditorKey::ArrowUp, at(2)));
    assert_eq!("Save as: a", pane.message_bar.message);
    assert_eq!(PromptStep::Done, pane.prompt_key("Save as: ", &mut input, EditorKey::Enter, at(3)));
    assert_eq!("a", input);
    assert_eq!("", pane.message_bar.message);
    assert_eq!(PromptStep::Aborted, pane.prompt_key("Save as: ", &mut input, EditorKey::Escape, at(3)));
    assert_eq!("aborted", pane.message_bar.message);
}

#[test]
fn incremental_search_steps_and_wraps() {
    let mut pane = pane_with("one\ntwo one\nthree");
    let mut session = FindSession::new();
    pane.find_step(&mut session, "one", EditorKey::NormalKey('e'));
    assert!(session.last_match);
    assert_eq!((0, 0), pane.get_cursor());
    assert_eq!(Highlight::Match, pane.screen.buffer.line_highlight(0)[0]);
    pane.find_step(&mut session, "one", EditorKey::ArrowDown);
    assert!(session.last_match);
    assert_eq!((4, 1), pane.get_cursor());
    assert_eq!(Highlight::Normal, pane.screen.buffer.line_highlight(0)[0]);
    assert_eq!(Highlight::Match, pane.screen.buffer.line_highlight(1)[4]);
    pane.find_step(&mut session, "one", EditorKey::ArrowDown);
    assert!(!session.last_match);
    assert_eq!((4, 1), pane.get_cursor());
    // after a failed step the switch upward starts from the end
    pane.find_step(&mut session, "one", EditorKey::ArrowUp);
    assert!(session.last_match);
    assert_eq!(Direction::Up, session.direction);
    assert_eq!((4, 1), pane.get_cursor());
    pane.find_step(&mut session, "one", EditorKey::ArrowUp);
    assert_eq!((0, 0), pane.get_cursor());
}

#[test]
fn commands_keep_cursor_in_window() {
    let text = (0..30).map(|i| format!("line {}", i)).collect::<Vec<_>>().join("\n");
    let mut pane = pane_with(&text);
    for _ in 0..15 {
        pane.process_command(Command::ArrowDown, at(1)).unwrap();
    }
    assert_eq!((0, 15), pane.get_cursor());
    assert_eq!((0, 6), pane.screen.offset());
    pane.process_command(Command::End, at(1)).unwrap();
    assert_eq!((7, 15), pane.get_cursor());
    assert_eq!(7, pane.screen.rx);
    pane.process_command(Command::PageDown, at(1)).unwrap();
    assert_eq!(25, pane.screen.cy);
    assert!(pane.screen.offset_y <= 25 && 25 < pane.screen.offset_y + 10);
    pane.process_command(Command::PageDown, at(1)).unwrap();
    assert_eq!(30, pane.screen.cy);
    assert_eq!(3, pane.quit_times);
}
