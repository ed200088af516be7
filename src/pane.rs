use vstd::prelude::*;

use crate::buffer::{overlay, raws_of, rehighlight, BufferView, LineView};
use crate::render::{render_column, MAX_LINE_LEN};
use crate::screen::{
    adjusted, backspace_effect, clamped_cx, down_row, left_of, newline_effect, page_down_row, page_up_row, right_of,
    typed_effect,
};
use crate::search::{find_from, rfind_from};
use crate::TAB_STOP;
use crate::command::{command_for, resolve_command, Command};
use crate::escape_sequence::{decimal, push_all, push_decimal};
use crate::highlight::Highlight;
use crate::key::EditorKey;
use crate::message_bar::{MessageBar, Timestamp};
use crate::screen::Screen;
use crate::search::{lemma_find_from_occurs, lemma_rfind_from_occurs, occurs_at};
use crate::status_bar::{left_status_text, StatusBar};
use crate::text::{chars_of, string_of};
use crate::ui::Component;
use crate::QUIT_TIMES;

verus! {

/// The answer to a request to quit the editor: it is granted.
#[derive(Debug, PartialEq, Eq, Clone, Copy, Structural)]
pub struct ExitRequested;

/// Direction of an incremental search.
#[derive(Debug, PartialEq, Eq, Clone, Copy, Structural)]
pub enum Direction {
    Up,
    Down,
}

/// State of an incremental search between two keys: the direction of the
/// last step and whether it found a match.
#[derive(Debug, PartialEq, Eq, Clone, Copy, Structural)]
pub struct FindSession {
    pub direction: Direction,
    pub last_match: bool,
}

impl FindSession {
    /// A search that starts downward, as if a match had just been found.
    pub fn new() -> (r: FindSession)
        ensures
            r == (FindSession { direction: Direction::Down, last_match: true }),
    {
        FindSession { direction: Direction::Down, last_match: true }
    }
}

/// What a prompt does after a key.
#[derive(Debug, PartialEq, Eq, Clone, Copy, Structural)]
pub enum PromptStep {
    /// The prompt goes on reading keys.
    Continue,
    /// The answer was confirmed with Enter.
    Done,
    /// The prompt was left with Escape.
    Aborted,
}

/// Buffer and cursor `(buffer, cx, cy)` after the text area carries out
/// `command`, before the window follows the cursor. Exit, Save, Find, Escape
/// and Noop leave them as they are.
pub open spec fn command_effect(s: Screen, command: Command) -> (BufferView, nat, nat) {
    let b = s.buffer@;
    let (cx, cy) = (s.cx as nat, s.cy as nat);
    let n = b.lines.len();
    let (oy, h) = (s.offset_y as nat, s.component.height as nat);
    match command {
        Command::ArrowDown => (b, cx, down_row(n, cy)),
        Command::ArrowUp => (b, cx, if cy > 0 { (cy - 1) as nat } else { cy }),
        Command::ArrowLeft => (b, left_of(b, cx, cy).0, left_of(b, cx, cy).1),
        Command::ArrowRight => (b, right_of(b, cx, cy).0, right_of(b, cx, cy).1),
        Command::PageUp => (b, cx, page_up_row(oy, h)),
        Command::PageDown => if 1 <= oy + h <= usize::MAX {
            (b, cx, page_down_row(oy, h, n))
        } else {
            (b, cx, cy)
        },
        Command::Home => (b, 0, cy),
        Command::End => (b, if cy < n { b.lines[cy as int].raw.len() } else { cx }, cy),
        Command::Enter => newline_effect(b, cx, cy),
        Command::Delete => backspace_effect(b, right_of(b, cx, cy).0, right_of(b, cx, cy).1),
        Command::Backspace => backspace_effect(b, cx, cy),
        Command::Input(c) => typed_effect(b, cx, cy, c),
        _ => (b, cx, cy),
    }
}

/// The warning shown when quitting with unsaved changes.
pub open spec fn quit_warning(times: nat) -> Seq<char> {
    "WARNING!!! File has unsaved changes. Press Ctrl+Q "@ + decimal(times) + " more times to quit."@
}

/// The key moves the search upward (an up or left arrow, or any other key
/// while the search goes up).
pub open spec fn searches_backward(key: EditorKey, direction: Direction) -> bool {
    match key {
        EditorKey::ArrowUp | EditorKey::ArrowLeft => true,
        EditorKey::ArrowDown | EditorKey::ArrowRight => false,
        _ => direction == Direction::Up,
    }
}

pub open spec fn is_arrow(key: EditorKey) -> bool {
    match key {
        EditorKey::ArrowUp | EditorKey::ArrowLeft | EditorKey::ArrowDown | EditorKey::ArrowRight => true,
        _ => false,
    }
}

/// Where a search step is anchored: after a failed step, past the end of the
/// buffer when going up or at its start when going down; else at the cursor.
pub open spec fn search_anchor(b: BufferView, cx: nat, cy: nat, last_match: bool, backward: bool) -> (nat, nat) {
    if last_match {
        (cx, cy)
    } else if backward {
        let n = b.lines.len();
        if n > 0 {
            let l = b.lines[n - 1].raw.len();
            (if l > 0 { (l - 1) as nat } else { 0 }, n)
        } else {
            (cx, cy)
        }
    } else {
        (0, 0)
    }
}

/// Where the search itself starts: an arrow first steps one column off the anchor.
pub open spec fn search_start(b: BufferView, anchor: (nat, nat), key: EditorKey, backward: bool) -> (nat, nat) {
    if is_arrow(key) {
        if backward {
            left_of(b, anchor.0, anchor.1)
        } else {
            right_of(b, anchor.0, anchor.1)
        }
    } else {
        anchor
    }
}

/// The match a search step finds, as `(column, row)`.
pub open spec fn search_result(b: BufferView, q: Seq<char>, start: (nat, nat), backward: bool) -> Option<(nat, nat)> {
    if backward {
        rfind_from(raws_of(b.lines), q, start.1, start.0)
    } else {
        find_from(raws_of(b.lines), q, start.1, start.0)
    }
}

/// The rendered columns of the `qlen` characters at `(j, i)` are tagged `Match`.
pub open spec fn match_marked(b: BufferView, i: nat, j: nat, qlen: nat) -> bool {
    let raw = b.lines[i as int].raw;
    forall|k: int|
        render_column(raw, j, TAB_STOP as nat) <= k < render_column(raw, j + qlen, TAB_STOP as nat) && k
            < b.lines[i as int].highlight.len() ==> #[trigger] b.lines[i as int].highlight[k] == Highlight::Match
}

/// The buffer after a search step shows its outcome: row `prev_row` (where
/// the previous match was) is classified again, dropping its `Match` mark,
/// then the `qlen` characters of the new match, if any, are marked.
pub open spec fn marked_buffer(b: BufferView, prev_row: nat, hit: Option<(nat, nat)>, qlen: nat) -> BufferView {
    let b1 = if prev_row <= b.lines.len() {
        BufferView { lines: rehighlight(b.lines, b.file_type, prev_row), ..b }
    } else {
        b
    };
    match hit {
        Some((j, i)) => {
            let line = b1.lines[i as int];
            let begin = render_column(line.raw, j, TAB_STOP as nat);
            let end = render_column(line.raw, j + qlen, TAB_STOP as nat);
            BufferView {
                lines: b1.lines.update(
                    i as int,
                    LineView { highlight: overlay(line.highlight, begin, end, Highlight::Match), ..line },
                ),
                ..b1
            }
        },
        None => b1,
    }
}

/// The editor window: the text area, the status bar and the message bar.
pub struct Pane {
    pub component: Component,
    pub screen: Screen,
    pub status_bar: StatusBar,
    pub message_bar: MessageBar,
    pub quit_times: usize,
}

impl Pane {
    pub open spec fn wf(&self) -> bool {
        self.screen.wf()
    }

    /// An empty editor showing `message` from `time` on.
    pub fn new(message: String, time: Timestamp) -> (r: Pane)
        ensures
            r.wf(),
            r.screen.buffer@.lines.len() == 0,
            r.message_bar.message@ == message@,
            r.message_bar.updated_at == time,
            r.quit_times == QUIT_TIMES,
    {
        Pane {
            component: Component::new(0, 0, 0, 0),
            screen: Screen::new(),
            status_bar: StatusBar::new(),
            message_bar: MessageBar::new(message, time),
            quit_times: QUIT_TIMES,
        }
    }

    /// Lays the pane out on the terminal: the text area on top, then the
    /// status bar and the message bar, one row each.
    pub fn set_size(&mut self, x: usize, y: usize, width: usize, height: usize)
        requires
            height >= 2,
            y + height <= usize::MAX,
        ensures
            final(self).component == (Component { x, y, width, height }),
            final(self).screen == (Screen {
                component: Component { x, y, width, height: (height - 2) as usize },
                ..old(self).screen
            }),
            final(self).status_bar.component == (Component { x, y: (y + height - 2) as usize, width, height: 1 }),
            final(self).message_bar.component == (Component { x, y: (y + height - 1) as usize, width, height: 1 }),
            final(self).status_bar.left_status == old(self).status_bar.left_status,
            final(self).status_bar.right_status == old(self).status_bar.right_status,
            final(self).message_bar.message == old(self).message_bar.message,
            final(self).message_bar.updated_at == old(self).message_bar.updated_at,
            final(self).quit_times == old(self).quit_times,
    {
        self.component.set_size(x, y, width, height);
        self.screen.set_size(x, y, width, height - 2);
        self.status_bar.set_size(x, y + height - 2, width, 1);
        self.message_bar.set_size(x, y + height - 1, width, 1);
    }

    /// The text area, to be changed in place.
    pub fn screen(&mut self) -> (r: &mut Screen)
        ensures
            *r == old(self).screen,
            *final(self) == (Pane { screen: *final(r), ..*old(self) }),
    {
        &mut self.screen
    }

    /// The action bound to `key`.
    pub fn resolve_command(&self, key: EditorKey) -> (r: Command)
        ensures
            r == command_for(key),
    {
        resolve_command(key)
    }

    /// Content cursor of the text area.
    pub fn get_cursor(&self) -> (r: (usize, usize))
        ensures
            r == (self.screen.cx, self.screen.cy),
    {
        self.screen.cursor()
    }

    /// Terminal position of the cursor.
    pub fn get_terminal_cursor(&self) -> (r: Option<(usize, usize)>)
        ensures
            match r {
                Some(p) => self.screen.offset_x <= self.screen.rx && self.screen.offset_y <= self.screen.cy
                    && p == ((self.screen.component.x + self.screen.rx - self.screen.offset_x) as usize, (
                    self.screen.component.y + self.screen.cy - self.screen.offset_y) as usize),
                None => !(self.screen.offset_x <= self.screen.rx && self.screen.offset_y <= self.screen.cy
                    && self.screen.component.x + self.screen.rx - self.screen.offset_x <= usize::MAX
                    && self.screen.component.y + self.screen.cy - self.screen.offset_y <= usize::MAX),
            },
    {
        let s = &self.screen;
        if s.offset_x <= s.rx && s.offset_y <= s.cy && s.rx - s.offset_x <= usize::MAX - s.component.x
            && s.cy - s.offset_y <= usize::MAX - s.component.y {
            Some(s.get_terminal_cursor())
        } else {
            None
        }
    }

    /// Keeps the cursor inside the text area's window.
    fn adjust_screen(&mut self)
        requires
            old(self).wf(),
        ensures
            final(self).wf(),
            final(self).screen.buffer == old(self).screen.buffer,
            final(self).screen.cy == old(self).screen.cy,
            final(self).screen.component == old(self).screen.component,
            if old(self).screen.component.height > 0 || old(self).screen.cy < usize::MAX {
                adjusted(
                    old(self).screen.buffer@,
                    old(self).screen.cx as nat,
                    old(self).screen.cy as nat,
                    old(self).screen.offset_x as nat,
                    old(self).screen.offset_y as nat,
                    old(self).screen.component,
                    final(self).screen,
                )
            } else {
                final(self).screen == old(self).screen
            },
            final(self).component == old(self).component,
            final(self).status_bar == old(self).status_bar,
            final(self).message_bar == old(self).message_bar,
            final(self).quit_times == old(self).quit_times,
            final(self).screen.component == old(self).screen.component,
    {
        if self.screen.component.height > 0 || self.screen.cy < usize::MAX {
            self.screen.adjust();
        }
    }

    /// After a command: keeps the cursor in the window and refreshes the status bar.
    pub fn post_process(&mut self)
        requires
            old(self).wf(),
        ensures
            final(self).wf(),
            final(self).screen.buffer == old(self).screen.buffer,
            final(self).screen.cy == old(self).screen.cy,
            final(self).screen.component == old(self).screen.component,
            if old(self).screen.component.height > 0 || old(self).screen.cy < usize::MAX {
                adjusted(
                    old(self).screen.buffer@,
                    old(self).screen.cx as nat,
                    old(self).screen.cy as nat,
                    old(self).screen.offset_x as nat,
                    old(self).screen.offset_y as nat,
                    old(self).screen.component,
                    final(self).screen,
                )
            } else {
                final(self).screen == old(self).screen
            },
            final(self).message_bar == old(self).message_bar,
            final(self).quit_times == old(self).quit_times,
            final(self).status_bar.component == old(self).status_bar.component,
            final(self).status_bar.left_status@ == left_status_text(
                old(self).screen.buffer@.filepath,
                old(self).status_bar.component.height as nat,
                old(self).screen.buffer@.dirty,
            ),
    {
        self.adjust_screen();
        self.status_bar.set_left_status(&self.screen);
        if self.screen.cy < usize::MAX {
            self.status_bar.set_right_status(&self.screen);
        }
    }

    /// Quitting: with unsaved changes, the first few requests only warn and
    /// count down; otherwise the request is granted.
    pub fn process_exit_command(&mut self, now: Timestamp) -> (r: Result<(), ExitRequested>)
        requires
            old(self).wf(),
        ensures
            final(self).wf(),
            final(self).screen == old(self).screen,
            final(self).status_bar == old(self).status_bar,
            if old(self).screen.buffer@.dirty && old(self).quit_times > 0 {
                &&& r is Ok
                &&& final(self).quit_times == old(self).quit_times - 1
                &&& final(self).message_bar.message@ == quit_warning(old(self).quit_times as nat)
                &&& final(self).message_bar.updated_at == now
            } else {
                &&& r is Err
                &&& final(self).quit_times == old(self).quit_times
                &&& final(self).message_bar == old(self).message_bar
            },
    {
        if self.screen.buffer.is_dirty() && self.quit_times > 0 {
            let mut out = chars_of("WARNING!!! File has unsaved changes. Press Ctrl+Q ");
            push_decimal(&mut out, self.quit_times);
            push_all(&mut out, &chars_of(" more times to quit."));
            self.message_bar.set(string_of(&out), now);
            self.quit_times -= 1;
            return Ok(());
        }
        Err(ExitRequested)
    }

    /// Carries out `command` at time `now`. Exit asks `process_exit_command`;
    /// the save and search sessions run outside (they read keys) before this
    /// call, which then only finishes them. Every command but a granted exit
    /// ends with `post_process`, and every command but Exit restores the
    /// count of quit confirmations.
    pub fn process_command(&mut self, command: Command, now: Timestamp) -> (r: Result<(), ExitRequested>)
        requires
            old(self).wf(),
        ensures
            final(self).wf(),
            r is Err <==> (command == Command::Exit && !(old(self).screen.buffer@.dirty && old(self).quit_times > 0)),
            command != Command::Exit ==> final(self).quit_times == QUIT_TIMES,
            command == Command::Exit && r is Ok ==> final(self).quit_times == old(self).quit_times - 1,
            r is Ok ==> ({
                let (b, cx, cy) = command_effect(old(self).screen, command);
                &&& final(self).screen.buffer@ == b
                &&& final(self).screen.cy == cy
                &&& final(self).screen.component == old(self).screen.component
                &&& (old(self).screen.component.height > 0 || cy < usize::MAX) ==> adjusted(
                    b,
                    cx,
                    cy,
                    old(self).screen.offset_x as nat,
                    old(self).screen.offset_y as nat,
                    old(self).screen.component,
                    final(self).screen,
                )
            }),
    {
        proof {
            self.screen.buffer.lemma_len_fits();
        }
        match command {
            Command::Exit => {
                if self.process_exit_command(now).is_err() {
                    return Err(ExitRequested);
                }
            },
            Command::Save => {},
            Command::Find => {},
            Command::ArrowDown => self.screen.down(),
            Command::ArrowUp => self.screen.up(),
            Command::ArrowLeft => self.screen.left(),
            Command::ArrowRight => self.screen.right(),
            Command::PageUp => self.screen.page_up(),
            Command::PageDown => {
                if self.screen.offset_y as u128 + self.screen.component.height as u128 >= 1
                    && self.screen.component.height <= usize::MAX - self.screen.offset_y {
                    self.screen.page_down();
                }
            },
            Command::Home => self.screen.home(),
            Command::Enter => self.screen.insert_new_line(),
            Command::End => self.screen.end(),
            Command::Delete => {
                self.screen.right();
                self.screen.delete_char();
            },
            Command::Backspace => self.screen.delete_char(),
            Command::Input(c) => self.screen.insert_char(c),
            Command::Escape => {},
            Command::Noop => {},
        }
        self.post_process();
        if command != Command::Exit {
            self.quit_times = QUIT_TIMES;
        }
        Ok(())
    }

    /// Shows `prompt` in the message bar as a prompt starts at time `now`.
    pub fn start_prompt(&mut self, prompt: &str, now: Timestamp)
        ensures
            final(self).message_bar.message@ == prompt@,
            final(self).message_bar.updated_at == now,
            final(self).screen == old(self).screen,
            final(self).quit_times == old(self).quit_times,
    {
        self.message_bar.set(string_of(&chars_of(prompt)), now);
    }

    /// One key of a prompt that shows `prompt` followed by the answer typed
    /// so far, `input`: Enter confirms, Escape aborts, a character is added.
    pub fn prompt_key(&mut self, prompt: &str, input: &mut String, key: EditorKey, now: Timestamp) -> (r: PromptStep)
        ensures
            final(self).screen == old(self).screen,
            final(self).quit_times == old(self).quit_times,
            final(self).message_bar.updated_at == now,
            match key {
                EditorKey::Enter => r == PromptStep::Done && final(input)@ == old(input)@
                    && final(self).message_bar.message@ == Seq::<char>::empty(),
                EditorKey::Escape => r == PromptStep::Aborted && final(input)@ == old(input)@
                    && final(self).message_bar.message@ == "aborted"@,
                EditorKey::NormalKey(c) => r == PromptStep::Continue && final(input)@ == old(input)@.push(c)
                    && final(self).message_bar.message@ == prompt@ + old(input)@.push(c),
                _ => r == PromptStep::Continue && final(input)@ == old(input)@
                    && final(self).message_bar.message@ == prompt@ + old(input)@,
            },
    {
        match key {
            EditorKey::Enter => {
                self.message_bar.set(String::new(), now);
                PromptStep::Done
            },
            EditorKey::Escape => {
                self.message_bar.set(string_of(&chars_of("aborted")), now);
                PromptStep::Aborted
            },
            _ => {
                if let EditorKey::NormalKey(c) = key {
                    input.push(c);
                }
                let mut shown = chars_of(prompt);
                push_all(&mut shown, &chars_of(input.as_str()));
                self.message_bar.set(string_of(&shown), now);
                PromptStep::Continue
            },
        }
    }

    /// Moves the search anchor past the end of the buffer: to the row after
    /// the last line, under the last line's final character.
    fn wrap_to_end(&mut self)
        requires
            old(self).wf(),
        ensures
            final(self).wf(),
            final(self).screen.buffer == old(self).screen.buffer,
            final(self).component == old(self).component,
            final(self).status_bar == old(self).status_bar,
            final(self).message_bar == old(self).message_bar,
            final(self).quit_times == old(self).quit_times,
            final(self).screen.component == old(self).screen.component,
            (final(self).screen.cx as nat, final(self).screen.cy as nat) == search_anchor(
                old(self).screen.buffer@,
                old(self).screen.cx as nat,
                old(self).screen.cy as nat,
                false,
                true,
            ),
    {
        proof {
            self.screen.buffer.lemma_len_fits();
        }
        let n = self.screen.buffer.len();
        if n > 0 {
            let l = self.screen.buffer.line_len(n - 1).unwrap();
            self.screen.set_cursor(if l > 0 { l - 1 } else { 0 }, n);
        }
    }

    /// Shows the match under the cursor: row `prev_row` (where the previous
    /// match was) is classified again, then the `qlen` characters at the
    /// cursor are marked as a match.
    fn show_match(&mut self, prev_row: usize, found: bool, qlen: usize)
        requires
            old(self).wf(),
            found ==> old(self).screen.cy < old(self).screen.buffer@.lines.len()
                && old(self).screen.cx + qlen <= old(self).screen.buffer@.lines[old(self).screen.cy as int].raw.len(),
        ensures
            final(self).screen.buffer@ == marked_buffer(
                old(self).screen.buffer@,
                prev_row as nat,
                if found { Some((old(self).screen.cx as nat, old(self).screen.cy as nat)) } else { None },
                qlen as nat,
            ),
            found ==> match_marked(final(self).screen.buffer@, final(self).screen.cy as nat, final(self).screen.cx as nat, qlen as nat),
            final(self).wf(),
            raws_of(final(self).screen.buffer@.lines) == raws_of(old(self).screen.buffer@.lines),
            final(self).screen.cx == old(self).screen.cx,
            final(self).screen.cy == old(self).screen.cy,
            final(self).component == old(self).component,
            final(self).status_bar == old(self).status_bar,
            final(self).message_bar == old(self).message_bar,
            final(self).quit_times == old(self).quit_times,
            final(self).screen.component == old(self).screen.component,
    {
        if prev_row <= self.screen.buffer.len() {
            self.screen.buffer.clear_highlight(prev_row);
        }
        if found {
            let ghost before = self.screen.buffer@;
            proof {
                assert(raws_of(before.lines).len() == before.lines.len());
                assert(raws_of(old(self).screen.buffer@.lines).len() == old(self).screen.buffer@.lines.len());
                assert(raws_of(before.lines)[self.screen.cy as int] == raws_of(old(self).screen.buffer@.lines)[self.screen.cy as int]);
                assert(raws_of(before.lines)[self.screen.cy as int] == before.lines[self.screen.cy as int].raw);
                assert(raws_of(old(self).screen.buffer@.lines)[self.screen.cy as int] == old(self).screen.buffer@.lines[self.screen.cy as int].raw);
            }
            self.screen.buffer.highlight(self.screen.cx, self.screen.cy, qlen, Highlight::Match);
            proof {
                let after = self.screen.buffer@;
                let i = self.screen.cy as int;
                let raw = before.lines[i].raw;
                assert(after.lines[i].raw == raw);
                let begin = render_column(raw, self.screen.cx as nat, TAB_STOP as nat);
                let end = render_column(raw, (self.screen.cx + qlen) as nat, TAB_STOP as nat);
                assert(after.lines[i].highlight == overlay(before.lines[i].highlight, begin, end, Highlight::Match));
            }
        }
    }

    /// One key of an incremental search for `query`: arrows step to the next
    /// match below or above, other keys search again in the current
    /// direction. A direction switch after a failed step first wraps the
    /// anchor to the end or the start of the buffer. A found match is marked
    /// and the previous mark is cleared; a failed arrow step leaves the
    /// cursor at its anchor.
    pub fn find_step(&mut self, session: &mut FindSession, query: &str, key: EditorKey)
        requires
            old(self).wf(),
        ensures
            final(self).wf(),
            raws_of(final(self).screen.buffer@.lines) == raws_of(old(self).screen.buffer@.lines),
            final(session).direction == match key {
                EditorKey::ArrowUp | EditorKey::ArrowLeft => Direction::Up,
                EditorKey::ArrowDown | EditorKey::ArrowRight => Direction::Down,
                _ => old(session).direction,
            },
            final(session).last_match ==> final(self).screen.cy < final(self).screen.buffer@.lines.len()
                && occurs_at(
                raws_of(final(self).screen.buffer@.lines)[final(self).screen.cy as int],
                query@,
                final(self).screen.cx as int,
            ),
            ({
                let b = old(self).screen.buffer@;
                let backward = searches_backward(key, old(session).direction);
                let anchor = search_anchor(b, old(self).screen.cx as nat, old(self).screen.cy as nat, old(session).last_match, backward);
                let found = search_result(b, query@, search_start(b, anchor, key, backward), backward);
                &&& final(session).last_match == found is Some
                &&& match found {
                    Some((j, i)) => final(self).screen.cx == j && final(self).screen.cy == i && match_marked(
                        final(self).screen.buffer@,
                        i,
                        j,
                        query@.len(),
                    ),
                    None => final(self).screen.cy == anchor.1 && ((old(self).screen.component.height > 0
                        || anchor.1 < usize::MAX) ==> final(self).screen.cx == clamped_cx(
                        final(self).screen.buffer@,
                        anchor.0,
                        anchor.1,
                    )),
                }
                &&& final(self).screen.buffer@ == if found is Some || !is_arrow(key) {
                    marked_buffer(b, anchor.1, found, query@.len())
                } else {
                    b
                }
                &&& final(self).screen.buffer@.dirty == b.dirty
                &&& final(self).screen.buffer@.filepath == b.filepath
                &&& final(self).screen.buffer@.file_type == b.file_type
            }),
            final(self).message_bar == old(self).message_bar,
            final(self).quit_times == old(self).quit_times,
    {
        let qlen = chars_of(query).len();
        let ghost raws = raws_of(self.screen.buffer@.lines);
        let backward = match key {
            EditorKey::ArrowUp | EditorKey::ArrowLeft => true,
            EditorKey::ArrowDown | EditorKey::ArrowRight => false,
            _ => session.direction == Direction::Up,
        };
        let arrow = match key {
            EditorKey::ArrowUp | EditorKey::ArrowLeft | EditorKey::ArrowDown | EditorKey::ArrowRight => true,
            _ => false,
        };
        session.direction = if backward { Direction::Up } else { Direction::Down };
        if !session.last_match {
            if backward {
                self.wrap_to_end();
            } else {
                self.screen.set_cursor(0, 0);
            }
        }
        let (cx, cy) = self.screen.cursor();
        if arrow {
            if backward {
                self.screen.left();
            } else {
                self.screen.right();
            }
        }
        let ghost moved = self.screen;
        let found = if backward {
            let found = self.screen.rfind(query);
            proof {
                let r = rfind_from(raws, query@, moved.cy as nat, moved.cx as nat);
                lemma_rfind_from_occurs(raws, query@, moved.cy as nat, moved.cx as nat);
                moved.buffer.lemma_len_fits();
                if let Some((j, i)) = r {
                    assert(raws[i as int] == moved.buffer@.lines[i as int].raw);
                    assert(moved.buffer@.lines[i as int].raw.len() <= MAX_LINE_LEN);
                    assert(self.screen.cx == j);
                    assert(self.screen.cy == i);
                }
            }
            found
        } else {
            let found = self.screen.find(query);
            proof {
                let r = find_from(raws, query@, moved.cy as nat, moved.cx as nat);
                lemma_find_from_occurs(raws, query@, moved.cy as nat, moved.cx as nat);
                moved.buffer.lemma_len_fits();
                if let Some((j, i)) = r {
                    assert(raws[i as int] == moved.buffer@.lines[i as int].raw);
                    assert(moved.buffer@.lines[i as int].raw.len() <= MAX_LINE_LEN);
                    assert(self.screen.cx == j);
                    assert(self.screen.cy == i);
                }
            }
            found
        };
        session.last_match = found;
        assert(raws_of(moved.buffer@.lines) == raws);
        if found {
            assert(self.screen.cy < raws.len());
            assert(occurs_at(raws[self.screen.cy as int], query@, self.screen.cx as int));
        }
        if found || !arrow {
            self.show_match(cy, found, qlen);
        } else {
            self.screen.set_cursor(cx, cy);
        }
        let ghost shown = self.screen;
        proof {
            if found {
                assert(raws_of(shown.buffer@.lines)[shown.cy as int] == shown.buffer@.lines[shown.cy as int].raw);
            }
        }
        self.adjust_screen();
    }
}

} // verus!
