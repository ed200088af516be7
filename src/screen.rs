use vstd::prelude::*;

use crate::buffer::{
    char_deleted, char_inserted, edited, lemma_edited, lemma_line_deleted, lemma_line_inserted,
    line_deleted, line_inserted, line_replaced, raws_of, string_inserted, BufferView, EditorBuffer,
};
use crate::render::{lemma_expand_len_bound, render_column, MAX_LINE_LEN};
use crate::search::{find_from, first_match, last_match, rfind_from, rfind_rows};
use crate::text::{chars_of, string_of};
use crate::ui::Component;
use crate::TAB_STOP;

verus! {

/// The cursor and viewport over one buffer: content cursor `(cx, cy)`, its
/// render column `rx`, and the scroll offsets of the visible window.
pub struct Screen {
    pub component: Component,
    pub buffer: EditorBuffer,
    pub cx: usize,
    pub cy: usize,
    pub rx: usize,
    pub offset_x: usize,
    pub offset_y: usize,
}

/// Number of raw characters of line `row`.
pub open spec fn row_len(b: &EditorBuffer, row: int) -> nat {
    b@.lines[row].raw.len()
}

/// Where a scroll offset goes so that `pos` lies in `[offset, offset + size)`.
pub open spec fn scrolled(pos: nat, offset: nat, size: nat) -> nat {
    let o = if pos < offset { pos } else { offset };
    if pos >= o + size {
        (pos + 1 - size) as nat
    } else {
        o
    }
}

/// Row after one step down from `cy` among `n` lines: at most the row after the last line.
pub open spec fn down_row(n: nat, cy: nat) -> nat {
    if cy < n {
        cy + 1
    } else {
        n
    }
}

/// Row after a page down from a window at `offset_y` of `height` rows among
/// `n` lines: the window's last row, then `height` steps down.
pub open spec fn page_down_row(offset_y: nat, height: nat, n: nat) -> nat {
    if height == 0 {
        (offset_y - 1) as nat
    } else if offset_y + 2 * height - 1 < n {
        (offset_y + 2 * height - 1) as nat
    } else {
        n
    }
}

/// Row after a page up from a window at `offset_y` of `height` rows.
pub open spec fn page_up_row(offset_y: nat, height: nat) -> nat {
    if offset_y >= height {
        (offset_y - height) as nat
    } else {
        0
    }
}

/// Buffer and cursor `(buffer, cx, cy)` after breaking the line at `(cx, cy)`.
pub open spec fn newline_effect(b: BufferView, cx: nat, cy: nat) -> (BufferView, nat, nat) {
    let raws = raws_of(b.lines);
    if cx == 0 && cy <= b.lines.len() {
        (line_inserted(b, cy, Seq::empty()), 0, cy + 1)
    } else if cx > 0 && cy < b.lines.len() {
        let line = raws[cy as int];
        let k = if cx <= line.len() { cx as int } else { line.len() as int };
        (line_inserted(line_replaced(b, cy, line.take(k)), cy + 1, line.skip(k)), 0, cy + 1)
    } else {
        (b, cx, cy)
    }
}

/// Buffer and cursor after typing `c` at `(cx, cy)`.
pub open spec fn typed_effect(b: BufferView, cx: nat, cy: nat, c: char) -> (BufferView, nat, nat) {
    let n = b.lines.len();
    let v1 = if cy == n { line_inserted(b, n, Seq::empty()) } else { b };
    let cx1 = if cy == n { 0 } else { cx };
    let done = cy < v1.lines.len() && cx1 <= v1.lines[cy as int].raw.len() && v1.lines[cy as int].raw.len() < MAX_LINE_LEN;
    (char_inserted(v1, cx1, cy, c), if done { cx1 + 1 } else { cx1 }, cy)
}

/// Buffer and cursor after a backspace at `(cx, cy)`.
pub open spec fn backspace_effect(b: BufferView, cx: nat, cy: nat) -> (BufferView, nat, nat) {
    if cx == 0 && cy == 0 {
        (b, cx, cy)
    } else if cx == 0 {
        if cy < b.lines.len() && b.lines[cy - 1].raw.len() + b.lines[cy as int].raw.len() <= MAX_LINE_LEN {
            let prev = b.lines[cy - 1].raw;
            let cur = b.lines[cy as int].raw;
            (line_deleted(string_inserted(b, prev.len(), (cy - 1) as nat, cur), cy), prev.len(), (cy - 1) as nat)
        } else {
            (b, cx, cy)
        }
    } else {
        (char_deleted(b, (cx - 1) as nat, cy), (cx - 1) as nat, cy)
    }
}

/// The cursor column after clamping to the end of its line.
pub open spec fn clamped_cx(b: BufferView, cx: nat, cy: nat) -> nat {
    if cy < b.lines.len() && b.lines[cy as int].raw.len() < cx {
        b.lines[cy as int].raw.len()
    } else {
        cx
    }
}

/// `after` is what `adjust` makes of the cursor `(cx, cy)` and offsets
/// `(offset_x, offset_y)` over buffer `b` in window `comp`: the cursor
/// clamped to its line, its render column derived, the window scrolled so
/// that the cursor is inside it.
pub open spec fn adjusted(
    b: BufferView,
    cx: nat,
    cy: nat,
    offset_x: nat,
    offset_y: nat,
    comp: Component,
    after: Screen,
) -> bool {
    &&& after.cy == cy
    &&& after.cx == clamped_cx(b, cx, cy)
    &&& after.rx == if cy < b.lines.len() {
        render_column(b.lines[cy as int].raw, after.cx as nat, TAB_STOP as nat)
    } else {
        0
    }
    &&& after.offset_x == scrolled(after.rx as nat, offset_x, comp.width as nat)
    &&& after.offset_y == scrolled(cy, offset_y, comp.height as nat)
    &&& comp.width > 0 ==> after.offset_x <= after.rx < after.offset_x + comp.width
    &&& comp.height > 0 ==> after.offset_y <= after.cy < after.offset_y + comp.height
}

/// The cursor one column left of `(cx, cy)`: from column 0 to the end of the line above.
pub open spec fn left_of(b: BufferView, cx: nat, cy: nat) -> (nat, nat) {
    if cx > 0 {
        ((cx - 1) as nat, cy)
    } else if cy > 0 && cy - 1 < b.lines.len() {
        (b.lines[cy - 1].raw.len(), (cy - 1) as nat)
    } else {
        (cx, cy)
    }
}

/// The cursor one column right of `(cx, cy)`: from the end of a line to the
/// start of the next row.
pub open spec fn right_of(b: BufferView, cx: nat, cy: nat) -> (nat, nat) {
    if cy < b.lines.len() && cx < b.lines[cy as int].raw.len() {
        (cx + 1, cy)
    } else if cy < b.lines.len() && cx == b.lines[cy as int].raw.len() {
        (0, cy + 1)
    } else {
        (cx, cy)
    }
}

impl Screen {
    pub open spec fn wf(&self) -> bool {
        self.buffer.wf()
    }

    /// An empty buffer with the cursor and the window at the origin.
    pub fn new() -> (r: Screen)
        ensures
            r.wf(),
            r.buffer@.lines.len() == 0,
            r.buffer@.filepath is None,
            !r.buffer@.dirty,
            r.component == (Component { x: 0, y: 0, width: 0, height: 0 }),
            r.cx == 0 && r.cy == 0 && r.rx == 0 && r.offset_x == 0 && r.offset_y == 0,
    {
        Screen {
            component: Component::new(0, 0, 0, 0),
            buffer: EditorBuffer::new(),
            cx: 0,
            cy: 0,
            rx: 0,
            offset_x: 0,
            offset_y: 0,
        }
    }

    /// The buffer, to be changed in place.
    pub fn buffer(&mut self) -> (r: &mut EditorBuffer)
        ensures
            *r == old(self).buffer,
            *final(self) == (Screen { buffer: *final(r), ..*old(self) }),
    {
        &mut self.buffer
    }

    pub fn cursor(&self) -> (r: (usize, usize))
        ensures
            r == (self.cx, self.cy),
    {
        (self.cx, self.cy)
    }

    pub fn set_cursor(&mut self, x: usize, y: usize)
        ensures
            *final(self) == (Screen { cx: x, cy: y, ..*old(self) }),
    {
        self.cx = x;
        self.cy = y;
    }

    pub fn offset(&self) -> (r: (usize, usize))
        ensures
            r == (self.offset_x, self.offset_y),
    {
        (self.offset_x, self.offset_y)
    }

    pub fn set_offset(&mut self, x: usize, y: usize)
        ensures
            *final(self) == (Screen { offset_x: x, offset_y: y, ..*old(self) }),
    {
        self.offset_x = x;
        self.offset_y = y;
    }

    /// Places the window on the terminal.
    pub fn set_size(&mut self, x: usize, y: usize, width: usize, height: usize)
        ensures
            *final(self) == (Screen { component: Component { x, y, width, height }, ..*old(self) }),
    {
        self.component.set_size(x, y, width, height);
    }

    /// Moves the cursor one row down, at most to the row after the last line.
    pub fn down(&mut self)
        ensures
            *final(self) == (Screen {
                cy: down_row(old(self).buffer@.lines.len(), old(self).cy as nat) as usize,
                ..*old(self)
            }),
    {
        proof {
            self.buffer.lemma_len_fits();
        }
        let n = self.buffer.len();
        if self.cy < n {
            self.cy += 1;
        } else {
            self.cy = n;
        }
    }

    /// Moves the cursor one row up, at most to the first row.
    pub fn up(&mut self)
        ensures
            *final(self) == (Screen {
                cy: if old(self).cy > 0 { (old(self).cy - 1) as usize } else { old(self).cy },
                ..*old(self)
            }),
    {
        if self.cy > 0 {
            self.cy -= 1;
        }
    }

    /// Moves the cursor one column left; from column 0 to the end of the line above.
    pub fn left(&mut self)
        ensures
            *final(self) == if old(self).cx > 0 {
                Screen { cx: (old(self).cx - 1) as usize, ..*old(self) }
            } else if old(self).cy > 0 && old(self).cy - 1 < old(self).buffer@.lines.len() {
                Screen {
                    cy: (old(self).cy - 1) as usize,
                    cx: row_len(&old(self).buffer, old(self).cy - 1) as usize,
                    ..*old(self)
                }
            } else {
                *old(self)
            },
            (final(self).cx as nat, final(self).cy as nat) == left_of(old(self).buffer@, old(self).cx as nat, old(self).cy as nat),
    {
        if self.cx > 0 {
            self.cx -= 1;
        } else if self.cy > 0 {
            if let Some(n) = self.buffer.line_len(self.cy - 1) {
                self.cy -= 1;
                self.cx = n;
            }
        }
    }

    /// Moves the cursor one column right; from the end of a line to the start
    /// of the next row.
    pub fn right(&mut self)
        ensures
            *final(self) == if old(self).cy < old(self).buffer@.lines.len() {
                if old(self).cx < row_len(&old(self).buffer, old(self).cy as int) {
                    Screen { cx: (old(self).cx + 1) as usize, ..*old(self) }
                } else if old(self).cx == row_len(&old(self).buffer, old(self).cy as int) {
                    Screen { cy: (old(self).cy + 1) as usize, cx: 0, ..*old(self) }
                } else {
                    *old(self)
                }
            } else {
                *old(self)
            },
            (final(self).cx as nat, final(self).cy as nat) == right_of(old(self).buffer@, old(self).cx as nat, old(self).cy as nat),
    {
        proof {
            self.buffer.lemma_len_fits();
        }
        if let Some(n) = self.buffer.line_len(self.cy) {
            if self.cx < n {
                self.cx += 1;
            } else if self.cx == n {
                self.cy += 1;
                self.cx = 0;
            }
        }
    }

    /// Moves the cursor to the top of the window, then a window's height up.
    pub fn page_up(&mut self)
        ensures
            *final(self) == (Screen {
                cy: page_up_row(old(self).offset_y as nat, old(self).component.height as nat) as usize,
                ..*old(self)
            }),
    {
        self.cy = self.offset_y;
        let h = self.component.height();
        let mut k: usize = 0;
        while k < h
            invariant
                k <= h == self.component.height,
                self.cy == if old(self).offset_y >= k { (old(self).offset_y - k) as usize } else { 0 },
                *old(self) == (Screen { cy: old(self).cy, ..*self }),
            decreases h - k,
        {
            self.up();
            k += 1;
        }
    }

    /// Moves the cursor to the bottom of the window, then a window's height
    /// down, at most to the row after the last line.
    pub fn page_down(&mut self)
        requires
            1 <= old(self).offset_y + old(self).component.height <= usize::MAX,
        ensures
            *final(self) == (Screen {
                cy: page_down_row(
                    old(self).offset_y as nat,
                    old(self).component.height as nat,
                    old(self).buffer@.lines.len(),
                ) as usize,
                ..*old(self)
            }),
    {
        proof {
            self.buffer.lemma_len_fits();
        }
        let h = self.component.height();
        self.cy = self.offset_y + h - 1;
        let ghost start = self.cy as int;
        let ghost n = self.buffer@.lines.len() as int;
        let mut k: usize = 0;
        while k < h
            invariant
                k <= h == self.component.height,
                n == self.buffer@.lines.len() <= usize::MAX,
                start == old(self).offset_y + h - 1,
                self.cy == if k == 0 {
                    start
                } else if start + k < n {
                    start + k
                } else {
                    n
                },
                *old(self) == (Screen { cy: old(self).cy, ..*self }),
            decreases h - k,
        {
            self.down();
            k += 1;
        }
    }

    /// Moves the cursor to the start of the row.
    pub fn home(&mut self)
        ensures
            *final(self) == (Screen { cx: 0, ..*old(self) }),
    {
        self.cx = 0;
    }

    /// Moves the cursor to the end of its line, if it is on one.
    pub fn end(&mut self)
        ensures
            *final(self) == if old(self).cy < old(self).buffer@.lines.len() {
                Screen { cx: row_len(&old(self).buffer, old(self).cy as int) as usize, ..*old(self) }
            } else {
                *old(self)
            },
    {
        if let Some(n) = self.buffer.line_len(self.cy) {
            self.cx = n;
        }
    }

    /// Breaks the line at the cursor: the text after it becomes a new line
    /// below (at column 0, a new empty line above), and the cursor moves to the
    /// start of the next row. Does nothing where the cursor is on no line.
    pub fn insert_new_line(&mut self)
        requires
            old(self).wf(),
        ensures
            final(self).wf(),
            (final(self).buffer@, final(self).cx as nat, final(self).cy as nat) == newline_effect(
                old(self).buffer@,
                old(self).cx as nat,
                old(self).cy as nat,
            ),
            final(self).component == old(self).component,
            final(self).rx == old(self).rx,
            final(self).offset_x == old(self).offset_x,
            final(self).offset_y == old(self).offset_y,
            ({
                let v = old(self).buffer@;
                let raws = raws_of(v.lines);
                let (cx, cy) = (old(self).cx as nat, old(self).cy as nat);
                if cx == 0 && cy <= v.lines.len() {
                    &&& final(self).buffer@ == line_inserted(v, cy, Seq::empty())
                    &&& raws_of(final(self).buffer@.lines) == raws.insert(cy as int, Seq::empty())
                    &&& final(self).cx == 0
                    &&& final(self).cy == cy + 1
                } else if cx > 0 && cy < v.lines.len() {
                    let line = raws[cy as int];
                    let k = if cx <= line.len() { cx as int } else { line.len() as int };
                    &&& final(self).buffer@ == line_inserted(line_replaced(v, cy, line.take(k)), cy + 1, line.skip(k))
                    &&& raws_of(final(self).buffer@.lines) == raws.update(cy as int, line.take(k)).insert((cy + 1) as int, line.skip(k))
                    &&& final(self).cx == 0
                    &&& final(self).cy == cy + 1
                } else {
                    *final(self) == *old(self)
                }
            }),
    {
        let n = self.buffer.len();
        let ghost v = self.buffer@;
        if self.cx == 0 {
            if self.cy <= n {
                proof {
                    lemma_line_inserted(v, self.cy as nat, Seq::empty());
                }
                self.buffer.insert_line(self.cy, String::new());
                proof {
                    self.buffer.lemma_len_fits();
                }
                self.cy += 1;
            }
        } else if self.cy < n {
            let line = self.buffer.line_chars(self.cy).clone();
            let ghost raw = line@;
            assert(raws_of(v.lines)[self.cy as int] == raw);
            assert(v.lines[self.cy as int].raw.len() <= MAX_LINE_LEN);
            let k: usize = if self.cx <= line.len() { self.cx } else { line.len() };
            let mut prefix = line;
            let suffix = prefix.split_off(k);
            proof {
                lemma_edited(v, self.cy as nat, raw.take(k as int));
            }
            self.buffer.replace_line(self.cy, string_of(&prefix));
            let ghost v1 = self.buffer@;
            proof {
                assert(v1 == (BufferView { lines: edited(v, self.cy as nat, raw.take(k as int)), dirty: true, ..v }));
                assert(raws_of(v1.lines).len() == v1.lines.len());
                lemma_line_inserted(v1, (self.cy + 1) as nat, raw.skip(k as int));
                assert(raws_of(v1.lines) == raws_of(v.lines).update(self.cy as int, raw.take(k as int)));
            }
            self.buffer.insert_line(self.cy + 1, string_of(&suffix));
            self.cx = 0;
            self.cy += 1;
        }
    }

    /// Inserts `c` at the cursor and moves the cursor past it; on the row
    /// after the last line, an empty line is added first and the cursor goes
    /// to its start. Where the cursor is past the end of its line, nothing is
    /// inserted.
    pub fn insert_char(&mut self, c: char)
        requires
            old(self).wf(),
        ensures
            final(self).wf(),
            (final(self).buffer@, final(self).cx as nat, final(self).cy as nat) == typed_effect(
                old(self).buffer@,
                old(self).cx as nat,
                old(self).cy as nat,
                c,
            ),
            final(self).component == old(self).component,
            final(self).rx == old(self).rx,
            final(self).offset_x == old(self).offset_x,
            final(self).offset_y == old(self).offset_y,
            final(self).cy == old(self).cy,
            ({
                let n = old(self).buffer@.lines.len();
                let v1 = if old(self).cy == n { line_inserted(old(self).buffer@, n, Seq::empty()) } else { old(self).buffer@ };
                let cx1 = if old(self).cy == n { 0 } else { old(self).cx as nat };
                let cy = old(self).cy as nat;
                let done = cy < v1.lines.len() && cx1 <= v1.lines[cy as int].raw.len() && v1.lines[cy as int].raw.len() < MAX_LINE_LEN;
                &&& final(self).buffer@ == char_inserted(v1, cx1, cy, c)
                &&& final(self).cx == if done { cx1 + 1 } else { cx1 }
            }),
    {
        if self.cy == self.buffer.len() {
            self.buffer.insert_line(self.cy, String::new());
            self.cx = 0;
        }
        if let Some(n) = self.buffer.line_len(self.cy) {
            if self.cx <= n && n < MAX_LINE_LEN {
                self.buffer.insert_char(self.cx, self.cy, c);
                self.cx += 1;
            }
        }
    }

    /// Backspace: removes the character before the cursor; at column 0, joins
    /// the line to the one above, the cursor going to the join. Does nothing
    /// at the start of the buffer.
    pub fn delete_char(&mut self)
        requires
            old(self).wf(),
        ensures
            final(self).wf(),
            (final(self).buffer@, final(self).cx as nat, final(self).cy as nat) == backspace_effect(
                old(self).buffer@,
                old(self).cx as nat,
                old(self).cy as nat,
            ),
            final(self).component == old(self).component,
            final(self).rx == old(self).rx,
            final(self).offset_x == old(self).offset_x,
            final(self).offset_y == old(self).offset_y,
            ({
                let v = old(self).buffer@;
                let (cx, cy) = (old(self).cx as nat, old(self).cy as nat);
                if cx == 0 && cy == 0 {
                    *final(self) == *old(self)
                } else if cx == 0 {
                    if cy < v.lines.len() && v.lines[cy - 1].raw.len() + v.lines[cy as int].raw.len() <= MAX_LINE_LEN {
                        let prev = v.lines[cy - 1].raw;
                        let cur = v.lines[cy as int].raw;
                        &&& final(self).buffer@ == line_deleted(string_inserted(v, prev.len(), (cy - 1) as nat, cur), cy)
                        // the line is merged onto the one above, at that line's former length
                        &&& raws_of(final(self).buffer@.lines) == raws_of(v.lines).update(cy - 1, prev + cur).remove(cy as int)
                        &&& final(self).cx == prev.len()
                        &&& final(self).cy == cy - 1
                        &&& final(self).buffer@.dirty
                    } else {
                        *final(self) == *old(self)
                    }
                } else {
                    &&& final(self).buffer@ == char_deleted(v, (cx - 1) as nat, cy)
                    &&& final(self).cx == cx - 1
                    &&& final(self).cy == cy
                }
            }),
    {
        if self.cx == 0 && self.cy == 0 {
        } else if self.cx == 0 {
            if self.cy < self.buffer.len() {
                let ghost v = self.buffer@;
                let prev_len = self.buffer.line_len(self.cy - 1).unwrap();
                let cur_len = self.buffer.line_len(self.cy).unwrap();
                if cur_len <= MAX_LINE_LEN - prev_len {
                    let current = string_of(self.buffer.line_chars(self.cy));
                    let ghost prev = v.lines[self.cy - 1].raw;
                    let ghost cur = v.lines[self.cy as int].raw;
                    proof {
                        assert(prev.take(prev.len() as int) + cur + prev.skip(prev.len() as int) =~= prev + cur);
                        lemma_edited(v, (self.cy - 1) as nat, prev + cur);
                    }
                    self.cx = prev_len;
                    self.buffer.append_string(self.cx, self.cy - 1, current);
                    proof {
                        assert(raws_of(self.buffer@.lines).len() == self.buffer@.lines.len());
                        lemma_line_deleted(self.buffer@, self.cy as nat);
                    }
                    self.buffer.delete_line(self.cy);
                    self.cy -= 1;
                }
            }
        } else {
            self.buffer.delete_char(self.cx - 1, self.cy);
            self.cx -= 1;
        }
    }

    /// Moves the cursor to the first occurrence of `query` at or after it
    /// (on the cursor's row from the cursor on, then on the rows below);
    /// returns whether there was one. Without one nothing changes.
    pub fn find(&mut self, query: &str) -> (found: bool)
        requires
            old(self).wf(),
        ensures
            final(self).wf(),
            match find_from(raws_of(old(self).buffer@.lines), query@, old(self).cy as nat, old(self).cx as nat) {
                Some((j, i)) => found && *final(self) == (Screen { cx: j as usize, cy: i as usize, ..*old(self) }),
                None => !found && *final(self) == *old(self),
            },
    {
        let q = chars_of(query);
        let ghost raws = raws_of(self.buffer@.lines);
        let n = self.buffer.len();
        let mut i: usize = self.cy;
        while i < n
            invariant
                n == self.buffer@.lines.len(),
                raws == raws_of(self.buffer@.lines),
                q@ == query@,
                *self == *old(self),
                self.wf(),
                old(self).cy <= i,
                find_from(raws, q@, old(self).cy as nat, old(self).cx as nat)
                    == find_from(raws, q@, i as nat, if i == old(self).cy { old(self).cx as nat } else { 0 }),
            decreases n - i,
        {
            let begin: usize = if i == self.cy { self.cx } else { 0 };
            let line = self.buffer.line_chars(i);
            assert(raws[i as int] == line@);
            if let Some(j) = first_match(line, &q, begin) {
                self.cx = j;
                self.cy = i;
                return true;
            }
            i += 1;
        }
        false
    }

    /// Moves the cursor to the last occurrence of `query` that ends by the
    /// cursor on its row, else on the rows above; returns whether there was
    /// one. Without one nothing changes.
    pub fn rfind(&mut self, query: &str) -> (found: bool)
        requires
            old(self).wf(),
        ensures
            final(self).wf(),
            match rfind_from(raws_of(old(self).buffer@.lines), query@, old(self).cy as nat, old(self).cx as nat) {
                Some((j, i)) => found && *final(self) == (Screen { cx: j as usize, cy: i as usize, ..*old(self) }),
                None => !found && *final(self) == *old(self),
            },
    {
        let q = chars_of(query);
        let ghost raws = raws_of(self.buffer@.lines);
        let n = self.buffer.len();
        let mut i: usize = n;
        if self.cy < n {
            let line = self.buffer.line_chars(self.cy);
            assert(raws[self.cy as int] == line@);
            let end: usize = if self.cx <= line.len() { self.cx } else { line.len() };
            if let Some(j) = last_match(line, &q, end) {
                self.cx = j;
                return true;
            }
            i = self.cy;
        }
        while i > 0
            invariant
                i <= n == self.buffer@.lines.len(),
                raws == raws_of(self.buffer@.lines),
                q@ == query@,
                *self == *old(self),
                self.wf(),
                rfind_from(raws, q@, old(self).cy as nat, old(self).cx as nat) == rfind_rows(raws, q@, i - 1),
            decreases i,
        {
            i -= 1;
            let line = self.buffer.line_chars(i);
            assert(raws[i as int] == line@);
            if let Some(j) = last_match(line, &q, line.len()) {
                self.cx = j;
                self.cy = i;
                return true;
            }
        }
        false
    }

    /// Row of the cursor.
    pub fn get_cy(&self) -> (r: usize)
        ensures
            r == self.cy,
    {
        self.cy
    }

    /// Terminal position of the cursor.
    pub fn get_terminal_cursor(&self) -> (r: (usize, usize))
        requires
            self.offset_x <= self.rx,
            self.offset_y <= self.cy,
            self.component.x + self.rx - self.offset_x <= usize::MAX,
            self.component.y + self.cy - self.offset_y <= usize::MAX,
        ensures
            r == ((self.component.x + self.rx - self.offset_x) as usize, (self.component.y + self.cy
                - self.offset_y) as usize),
    {
        (self.component.x + (self.rx - self.offset_x), self.component.y + (self.cy - self.offset_y))
    }

    /// Clamps the cursor to its line, derives its render column, and scrolls
    /// the window so that the cursor is inside it.
    pub fn adjust(&mut self)
        requires
            old(self).wf(),
            old(self).component.height > 0 || old(self).cy < usize::MAX,
        ensures
            final(self).wf(),
            final(self).buffer == old(self).buffer,
            final(self).component == old(self).component,
            final(self).cy == old(self).cy,
            final(self).cx == if old(self).cy < old(self).buffer@.lines.len() && row_len(&old(self).buffer, old(self).cy as int) < old(self).cx {
                row_len(&old(self).buffer, old(self).cy as int) as usize
            } else {
                old(self).cx
            },
            final(self).rx == if old(self).cy < old(self).buffer@.lines.len() {
                render_column(old(self).buffer@.lines[old(self).cy as int].raw, final(self).cx as nat, TAB_STOP as nat)
            } else {
                0
            },
            final(self).offset_x == scrolled(final(self).rx as nat, old(self).offset_x as nat, old(self).component.width as nat),
            final(self).offset_y == scrolled(old(self).cy as nat, old(self).offset_y as nat, old(self).component.height as nat),
            // the cursor is inside the window
            final(self).component.width > 0 ==> final(self).offset_x <= final(self).rx < final(self).offset_x + final(self).component.width,
            final(self).component.height > 0 ==> final(self).offset_y <= final(self).cy < final(self).offset_y + final(self).component.height,
            adjusted(
                old(self).buffer@,
                old(self).cx as nat,
                old(self).cy as nat,
                old(self).offset_x as nat,
                old(self).offset_y as nat,
                old(self).component,
                *final(self),
            ),
            // the cursor never passes the end of its line
            final(self).cy < final(self).buffer@.lines.len() ==> final(self).cx <= row_len(&final(self).buffer, final(self).cy as int),
    {
        self.rx = 0;
        if let Some(n) = self.buffer.line_len(self.cy) {
            if n < self.cx {
                self.cx = n;
            }
        }
        if self.cy < self.buffer.len() {
            self.rx = self.buffer.cx_to_rx(self.cx, self.cy);
            proof {
                let raw = self.buffer@.lines[self.cy as int].raw;
                lemma_expand_len_bound(raw, TAB_STOP as nat);
                assert(TAB_STOP * raw.len() <= TAB_STOP * MAX_LINE_LEN) by (nonlinear_arith)
                    requires raw.len() <= MAX_LINE_LEN;
            }
        }
        let width = self.component.width();
        let height = self.component.height();
        if self.rx < self.offset_x {
            self.offset_x = self.rx;
        }
        if self.rx - self.offset_x >= width {
            self.offset_x = self.rx + 1 - width;
        }
        if self.cy < self.offset_y {
            self.offset_y = self.cy;
        }
        if self.cy - self.offset_y >= height {
            self.offset_y = if height > 0 { self.cy - (height - 1) } else { self.cy + 1 };
        }
    }
}

impl Default for Screen {
    /// An empty buffer with the cursor and the window at the origin.
    fn default() -> (r: Screen)
        ensures
            r.wf(),
            r.buffer@.lines.len() == 0,
            r.cx == 0 && r.cy == 0 && r.rx == 0 && r.offset_x == 0 && r.offset_y == 0,
    {
        Screen::new()
    }
}

} // verus!
