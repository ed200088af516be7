use vstd::prelude::*;

use crate::escape_sequence::{csi, push_all, push_decimal};
use crate::filetype::{file_type_for, highlight_line, highlight_render, FileType};
use crate::highlight::{char_views, color_code, fill, Highlight};
use crate::render::{
    convert_render, has_no_tabs, law_expand_without_tabs_is_identity, lemma_render_column_monotonic, render_column, render_column_of, render_of,
    MAX_LINE_LEN,
};
use crate::text::{chars_of, string_of};
use crate::TAB_STOP;

verus! {

/// What a line holds: its raw characters, one tag per rendered character, and
/// whether it ends inside a block comment.
pub struct LineView {
    pub raw: Seq<char>,
    pub highlight: Seq<Highlight>,
    pub open_comment: bool,
}

/// A line freshly classified with the inbound flag `carry`.
pub open spec fn classified_line(raw: Seq<char>, ft: Option<FileType>, carry: bool) -> LineView {
    LineView {
        raw,
        highlight: highlight_line(render_of(raw), ft, carry).0,
        open_comment: highlight_line(render_of(raw), ft, carry).1,
    }
}

/// `tags` with the positions in `[begin, end)` forced to `h`.
pub open spec fn overlay(tags: Seq<Highlight>, begin: nat, end: nat, h: Highlight) -> Seq<Highlight> {
    Seq::new(tags.len(), |k: int| if begin <= k < end { h } else { tags[k] })
}

/// One row of the buffer: raw content, its render form and its tags.
pub struct EditorLine {
    raw: Vec<char>,
    render: Vec<char>,
    highlight: Vec<Highlight>,
    file_type: Option<FileType>,
    open_comment: bool,
}

impl View for EditorLine {
    type V = LineView;

    closed spec fn view(&self) -> LineView {
        LineView { raw: self.raw@, highlight: self.highlight@, open_comment: self.open_comment }
    }
}

impl EditorLine {
    /// The render form is that of the raw content, with one tag per rendered character.
    pub closed spec fn inv(&self) -> bool {
        &&& self.raw.len() <= MAX_LINE_LEN
        &&& self.render@ == render_of(self.raw@)
        &&& self.highlight.len() == self.render.len()
    }

    pub closed spec fn kind(&self) -> Option<FileType> {
        self.file_type
    }

    /// A line holding `line`, classified as the first line of a file of type `file_type`.
    pub fn new(line: String, file_type: Option<FileType>) -> (r: EditorLine)
        requires
            line@.len() <= MAX_LINE_LEN,
        ensures
            r.inv(),
            r.kind() == file_type,
            r@ == classified_line(line@, file_type, false),
    {
        EditorLine::from_chars(chars_of(line.as_str()), file_type, false)
    }

    fn from_chars(raw: Vec<char>, file_type: Option<FileType>, carry: bool) -> (r: EditorLine)
        requires
            raw.len() <= MAX_LINE_LEN,
        ensures
            r.inv(),
            r.kind() == file_type,
            r@ == classified_line(raw@, file_type, carry),
    {
        let render = convert_render(&raw);
        let (highlight, open_comment) = highlight_render(&render, file_type, carry);
        EditorLine { raw, render, highlight, file_type, open_comment }
    }

    /// The render form of `line`: tabs expanded to the next tab stop.
    pub fn convert_render(&self, line: &str) -> (r: String)
        requires
            line@.len() <= MAX_LINE_LEN,
        ensures
            r@ == render_of(line@),
            // text that is already expanded comes back unchanged
            has_no_tabs(line@) ==> r@ == line@,
    {
        proof {
            if has_no_tabs(line@) {
                law_expand_without_tabs_is_identity(line@, TAB_STOP as nat);
            }
        }
        let raw = chars_of(line);
        string_of(&convert_render(&raw))
    }

    /// Classifies the line again from scratch, entering it inside a block
    /// comment when `open_comment` holds; returns whether it ends inside one.
    pub fn clear_highlight(&mut self, open_comment: bool) -> (r: bool)
        requires
            old(self).inv(),
        ensures
            final(self).inv(),
            final(self).kind() == old(self).kind(),
            final(self)@ == classified_line(old(self)@.raw, old(self).kind(), open_comment),
            r == final(self)@.open_comment,
    {
        let (highlight, out) = highlight_render(&self.render, self.file_type, open_comment);
        self.highlight = highlight;
        self.open_comment = out;
        out
    }

    /// Forces the tags of rendered columns `[begin, end)` to `highlight`.
    pub fn highlight(&mut self, begin: usize, end: usize, highlight: Highlight)
        requires
            old(self).inv(),
            begin <= end <= old(self)@.highlight.len(),
        ensures
            final(self).inv(),
            final(self).kind() == old(self).kind(),
            final(self)@ == (LineView {
                highlight: overlay(old(self)@.highlight, begin as nat, end as nat, highlight),
                ..old(self)@
            }),
    {
        let mut i: usize = begin;
        while i < end
            invariant
                begin <= i <= end <= self.highlight.len(),
                self.inv(),
                self.kind() == old(self).kind(),
                self.raw@ == old(self).raw@,
                self.open_comment == old(self).open_comment,
                self.highlight@ == overlay(old(self)@.highlight, begin as nat, i as nat, highlight),
            decreases end - i,
        {
            self.highlight.set(i, highlight);
            i += 1;
            assert(self.highlight@ =~= overlay(old(self)@.highlight, begin as nat, i as nat, highlight));
        }
    }

    /// A line holding `raw` whose tags wait for classification, with flag `carry`.
    fn pending(raw: Vec<char>, file_type: Option<FileType>, carry: bool) -> (r: EditorLine)
        requires
            raw.len() <= MAX_LINE_LEN,
        ensures
            r.inv(),
            r.kind() == file_type,
            r@ == pending_line(raw@, carry),
    {
        let mut r = EditorLine {
            raw: Vec::new(),
            render: Vec::new(),
            highlight: Vec::new(),
            file_type,
            open_comment: carry,
        };
        assert(render_of(Seq::<char>::empty()) == Seq::<char>::empty());
        r.set_raw(raw);
        r
    }

    /// Replaces the raw content; the tags wait for the next classification.
    fn set_raw(&mut self, raw: Vec<char>)
        requires
            old(self).inv(),
            raw.len() <= MAX_LINE_LEN,
        ensures
            final(self).inv(),
            final(self).kind() == old(self).kind(),
            final(self)@ == pending_line(raw@, old(self)@.open_comment),
    {
        let render = convert_render(&raw);
        let mut highlight: Vec<Highlight> = Vec::new();
        let mut i: usize = 0;
        while i < render.len()
            invariant
                i <= render.len(),
                highlight@ == fill(Highlight::Normal, i as nat),
            decreases render.len() - i,
        {
            highlight.push(Highlight::Normal);
            i += 1;
            assert(highlight@ =~= fill(Highlight::Normal, i as nat));
        }
        self.raw = raw;
        self.render = render;
        self.highlight = highlight;
    }

    /// Inserts `c` before raw position `index`.
    pub fn insert_char(&mut self, index: usize, c: char)
        requires
            old(self).inv(),
            index <= old(self)@.raw.len(),
            old(self)@.raw.len() < MAX_LINE_LEN,
        ensures
            final(self).inv(),
            final(self).kind() == old(self).kind(),
            final(self)@ == pending_line(old(self)@.raw.insert(index as int, c), old(self)@.open_comment),
    {
        let mut raw = self.raw.clone();
        raw.insert(index, c);
        self.set_raw(raw);
    }

    /// Removes the raw character at `index`.
    pub fn remove_char(&mut self, index: usize)
        requires
            old(self).inv(),
            index < old(self)@.raw.len(),
        ensures
            final(self).inv(),
            final(self).kind() == old(self).kind(),
            final(self)@ == pending_line(old(self)@.raw.remove(index as int), old(self)@.open_comment),
    {
        let mut raw = self.raw.clone();
        raw.remove(index);
        self.set_raw(raw);
    }

    /// Inserts the characters of `s` before raw position `index`.
    pub fn insert_str(&mut self, index: usize, s: &str)
        requires
            old(self).inv(),
            index <= old(self)@.raw.len(),
            old(self)@.raw.len() + s@.len() <= MAX_LINE_LEN,
        ensures
            final(self).inv(),
            final(self).kind() == old(self).kind(),
            final(self)@ == pending_line(
                old(self)@.raw.take(index as int) + s@ + old(self)@.raw.skip(index as int),
                old(self)@.open_comment,
            ),
    {
        let mut raw = self.raw.clone();
        let mut tail = raw.split_off(index);
        let mut mid = chars_of(s);
        raw.append(&mut mid);
        raw.append(&mut tail);
        assert(raw@ =~= old(self)@.raw.take(index as int) + s@ + old(self)@.raw.skip(index as int));
        self.set_raw(raw);
    }
}


pub open spec fn is_control(c: char) -> bool {
    (c as u32) < 0x20 || (c as u32) == 0x7f
}

/// What stands for a control character on screen: `@` for NUL, the letter
/// for control codes 1 to 26, `?` otherwise.
pub open spec fn control_glyph(c: char) -> char {
    if (c as u32) == 0 {
        '@'
    } else if (c as u32) <= 0x1a {
        (((c as u32) + 64) as u8) as char
    } else {
        '?'
    }
}

/// Output after drawing character `c` tagged `t` while the color `cur` is active;
/// also the color active afterwards.
pub open spec fn paint_char(out: Seq<char>, cur: Highlight, c: char, t: Highlight) -> (Seq<char>, Highlight) {
    if is_control(c) {
        (out + csi(7, 'm') + seq![control_glyph(c)] + seq!['\x1b', '[', 'm'] + csi(color_code(cur) as nat, 'm'), cur)
    } else if t == Highlight::Normal {
        ((if cur != Highlight::Normal { out + csi(39, 'm') } else { out }).push(c), Highlight::Normal)
    } else {
        ((if cur != t { out + csi(color_code(t) as nat, 'm') } else { out }).push(c), t)
    }
}

/// Drawing of rendered columns `[start, k)`.
pub open spec fn paint_upto(render: Seq<char>, tags: Seq<Highlight>, start: nat, k: nat) -> (Seq<char>, Highlight)
    decreases k,
{
    if k <= start {
        (Seq::empty(), Highlight::Normal)
    } else {
        let p = paint_upto(render, tags, start, (k - 1) as nat);
        paint_char(p.0, p.1, render[k - 1], tags[k - 1])
    }
}

/// The rendered columns `[offset, offset + width)` of a line, with color
/// changes where the tags change, ending in the default color.
pub open spec fn render_window(render: Seq<char>, tags: Seq<Highlight>, offset: nat, width: nat) -> Seq<char> {
    let end = if offset + width < render.len() { offset + width } else { render.len() as nat };
    paint_upto(render, tags, offset, end).0 + csi(39, 'm')
}

/// Inbound block-comment flag of line `i`: the outbound flag of the line above.
pub open spec fn carry_in(lines: Seq<LineView>, i: int) -> bool {
    if i <= 0 {
        false
    } else {
        lines[i - 1].open_comment
    }
}

/// Line `i` records the outbound flag that its content gives with its inbound flag.
pub open spec fn consistent_at(lines: Seq<LineView>, ft: Option<FileType>, i: int) -> bool {
    lines[i].open_comment == highlight_line(render_of(lines[i].raw), ft, carry_in(lines, i)).1
}

pub open spec fn flags_consistent(lines: Seq<LineView>, ft: Option<FileType>) -> bool {
    forall|i: int| 0 <= i < lines.len() ==> #[trigger] consistent_at(lines, ft, i)
}

/// Classifies line `i` again and goes on with the next one for as long as a
/// line's outbound flag differs from the one it had before.
pub open spec fn rehighlight(lines: Seq<LineView>, ft: Option<FileType>, i: nat) -> Seq<LineView>
    decreases lines.len() - i,
{
    if i >= lines.len() {
        lines
    } else {
        let line = classified_line(lines[i as int].raw, ft, carry_in(lines, i as int));
        let next = lines.update(i as int, line);
        if line.open_comment == lines[i as int].open_comment {
            next
        } else {
            rehighlight(next, ft, i + 1)
        }
    }
}

/// Classifies every line in order, the first one entering outside any comment.
pub open spec fn classify_all(raws: Seq<Seq<char>>, ft: Option<FileType>) -> Seq<LineView>
    decreases raws.len(),
{
    if raws.len() == 0 {
        Seq::empty()
    } else {
        let prev = classify_all(raws.drop_last(), ft);
        prev.push(classified_line(raws.last(), ft, carry_in(prev, prev.len() as int)))
    }
}

/// The raw contents of the lines.
pub open spec fn raws_of(lines: Seq<LineView>) -> Seq<Seq<char>> {
    lines.map_values(|l: LineView| l.raw)
}

/// A line holding `raw` whose tags wait for classification; its flag is the
/// one that the following line was classified with.
pub open spec fn pending_line(raw: Seq<char>, carry: bool) -> LineView {
    LineView { raw, highlight: fill(Highlight::Normal, render_of(raw).len()), open_comment: carry }
}

/// After a change at line `i` alone, the forward pass makes every flag consistent
/// again and keeps every raw content.
pub proof fn lemma_rehighlight_consistent(lines: Seq<LineView>, ft: Option<FileType>, i: nat)
    requires
        i <= lines.len(),
        forall|j: int| 0 <= j < lines.len() && j != i ==> #[trigger] consistent_at(lines, ft, j),
    ensures
        flags_consistent(rehighlight(lines, ft, i), ft),
        raws_of(rehighlight(lines, ft, i)) == raws_of(lines),
        rehighlight(lines, ft, i).len() == lines.len(),
    decreases lines.len() - i,
{
    if i < lines.len() {
        let line = classified_line(lines[i as int].raw, ft, carry_in(lines, i as int));
        let next = lines.update(i as int, line);
        assert(raws_of(next) =~= raws_of(lines));
        assert forall|j: int| 0 <= j < next.len() && j != i + 1 implies #[trigger] consistent_at(next, ft, j) by {
            assert(consistent_at(lines, ft, j) || j == i);
        }
        if line.open_comment == lines[i as int].open_comment {
            assert forall|j: int| 0 <= j < next.len() implies #[trigger] consistent_at(next, ft, j) by {
                if j == i + 1 {
                    assert(consistent_at(lines, ft, j));
                }
            }
        } else {
            lemma_rehighlight_consistent(next, ft, i + 1);
        }
    }
}

/// Classifying all lines in order leaves every flag consistent.
pub proof fn lemma_classify_all(raws: Seq<Seq<char>>, ft: Option<FileType>)
    ensures
        flags_consistent(classify_all(raws, ft), ft),
        classify_all(raws, ft).len() == raws.len(),
        forall|j: int| 0 <= j < raws.len() ==> (#[trigger] classify_all(raws, ft)[j]).raw == raws[j],
    decreases raws.len(),
{
    if raws.len() > 0 {
        lemma_classify_all(raws.drop_last(), ft);
        let prev = classify_all(raws.drop_last(), ft);
        let l = classify_all(raws, ft);
        assert forall|j: int| 0 <= j < l.len() implies #[trigger] consistent_at(l, ft, j) by {
            if j < prev.len() {
                assert(consistent_at(prev, ft, j));
            }
        }
    }
}

/// The content of a line without a carriage return at its end.
pub open spec fn strip_cr(s: Seq<char>) -> Seq<char> {
    if s.len() > 0 && s.last() == '\r' {
        s.drop_last()
    } else {
        s
    }
}

/// Lines completed by a newline so far, and the text after the last newline.
pub open spec fn split_state(text: Seq<char>) -> (Seq<Seq<char>>, Seq<char>)
    decreases text.len(),
{
    if text.len() == 0 {
        (Seq::empty(), Seq::empty())
    } else {
        let (done, cur) = split_state(text.drop_last());
        if text.last() == '\n' {
            (done.push(strip_cr(cur)), Seq::empty())
        } else {
            (done, cur.push(text.last()))
        }
    }
}

/// The lines of `text`: split at each newline, a carriage return before it
/// dropped, and no empty line after a final newline.
pub open spec fn split_lines(text: Seq<char>) -> Seq<Seq<char>> {
    let (done, cur) = split_state(text);
    if cur.len() > 0 {
        done.push(cur)
    } else {
        done
    }
}

/// The lines joined by newlines.
pub open spec fn join_lines(raws: Seq<Seq<char>>) -> Seq<char>
    decreases raws.len(),
{
    if raws.len() == 0 {
        Seq::empty()
    } else if raws.len() == 1 {
        raws[0]
    } else {
        join_lines(raws.drop_last()) + seq!['\n'] + raws.last()
    }
}

/// Splits `text` into its lines.
fn split_text(text: &str) -> (r: Vec<Vec<char>>)
    ensures
        char_views(r@) == split_lines(text@),
        forall|j: int| 0 <= j < r.len() ==> (#[trigger] r@[j]).len() <= text@.len(),
{
    let chars = chars_of(text);
    let mut done: Vec<Vec<char>> = Vec::new();
    let mut cur: Vec<char> = Vec::new();
    let mut i: usize = 0;
    while i < chars.len()
        invariant
            i <= chars.len(),
            chars@ == text@,
            (char_views(done@), cur@) == split_state(chars@.take(i as int)),
            cur.len() <= i,
            forall|j: int| 0 <= j < done.len() ==> (#[trigger] done@[j]).len() <= i,
        decreases chars.len() - i,
    {
        let c = chars[i];
        assert(chars@.take(i + 1).drop_last() == chars@.take(i as int));
        if c == '\n' {
            let ghost before = done@;
            if cur.len() > 0 && cur[cur.len() - 1] == '\r' {
                cur.pop();
            }
            done.push(cur);
            cur = Vec::new();
            assert(char_views(done@) =~= char_views(before).push(strip_cr(split_state(chars@.take(i as int)).1)));
        } else {
            cur.push(c);
        }
        i += 1;
    }
    assert(chars@.take(chars.len() as int) == chars@);
    if cur.len() > 0 {
        let ghost before = done@;
        done.push(cur);
        assert(char_views(done@) =~= char_views(before).push(split_state(text@).1));
    }
    done
}

/// Lines holding `raws`, each classified with the flag that the one above hands down.
fn classify_lines(raws: &Vec<Vec<char>>, ft: Option<FileType>) -> (r: Vec<EditorLine>)
    requires
        forall|j: int| 0 <= j < raws.len() ==> (#[trigger] raws@[j]).len() <= MAX_LINE_LEN,
    ensures
        line_views(r@) == classify_all(char_views(raws@), ft),
        forall|i: int| 0 <= i < r.len() ==> {
            &&& (#[trigger] r@[i]).inv()
            &&& r@[i].kind() == ft
        },
{
    let mut r: Vec<EditorLine> = Vec::new();
    let mut carry = false;
    let ghost all = char_views(raws@);
    let mut n: usize = 0;
    while n < raws.len()
        invariant
            n == r.len() <= raws.len(),
            all == char_views(raws@),
            forall|j: int| 0 <= j < raws.len() ==> (#[trigger] raws@[j]).len() <= MAX_LINE_LEN,
            line_views(r@) == classify_all(all.take(n as int), ft),
            carry == carry_in(line_views(r@), n as int),
            forall|i: int| 0 <= i < r.len() ==> {
                &&& (#[trigger] r@[i]).inv()
                &&& r@[i].kind() == ft
            },
        decreases raws.len() - n,
    {
        let raw = raws[n].clone();
        assert(raw@ == all[n as int]);
        assert(all.take(n + 1).drop_last() == all.take(n as int));
        let line = EditorLine::from_chars(raw, ft, carry);
        carry = line.open_comment;
        r.push(line);
        n += 1;
        assert(line_views(r@) =~= classify_all(all.take(n as int), ft));
    }
    assert(all.take(all.len() as int) == all);
    r
}

/// What the buffer holds.
pub struct BufferView {
    pub lines: Seq<LineView>,
    pub filepath: Option<Seq<char>>,
    pub dirty: bool,
    pub file_type: Option<FileType>,
}

/// The forward pass keeps every line within the length bound and makes every
/// flag consistent, after a change at line `i` alone.
pub proof fn lemma_rehighlight_ok(lines: Seq<LineView>, ft: Option<FileType>, i: nat)
    requires
        i <= lines.len(),
        forall|j: int| 0 <= j < lines.len() ==> (#[trigger] lines[j]).raw.len() <= MAX_LINE_LEN,
        forall|j: int| 0 <= j < lines.len() && j != i ==> #[trigger] consistent_at(lines, ft, j),
    ensures
        flags_consistent(rehighlight(lines, ft, i), ft),
        forall|j: int| 0 <= j < lines.len() ==> (#[trigger] rehighlight(lines, ft, i)[j]).raw == lines[j].raw,
        rehighlight(lines, ft, i).len() == lines.len(),
{
    lemma_rehighlight_consistent(lines, ft, i);
    let l = rehighlight(lines, ft, i);
    assert forall|j: int| 0 <= j < lines.len() implies (#[trigger] l[j]).raw == lines[j].raw by {
        assert(raws_of(l)[j] == raws_of(lines)[j]);
    }
}

/// The lines after the raw content of line `cy` became `raw`.
pub open spec fn edited(v: BufferView, cy: nat, raw: Seq<char>) -> Seq<LineView> {
    rehighlight(v.lines.update(cy as int, pending_line(raw, v.lines[cy as int].open_comment)), v.file_type, cy)
}

/// The buffer after inserting `c` at content column `cx` of line `cy`.
pub open spec fn char_inserted(v: BufferView, cx: nat, cy: nat, c: char) -> BufferView {
    if cy < v.lines.len() && cx <= v.lines[cy as int].raw.len()
        && v.lines[cy as int].raw.len() < MAX_LINE_LEN {
        BufferView {
            lines: edited(v, cy, v.lines[cy as int].raw.insert(cx as int, c)),
            dirty: true,
            ..v
        }
    } else {
        v
    }
}

/// The buffer after removing the character at content column `cx` of line `cy`.
pub open spec fn char_deleted(v: BufferView, cx: nat, cy: nat) -> BufferView {
    if cy < v.lines.len() && cx < v.lines[cy as int].raw.len() {
        BufferView {
            lines: edited(v, cy, v.lines[cy as int].raw.remove(cx as int)),
            dirty: true,
            ..v
        }
    } else {
        v
    }
}

/// The buffer after inserting `message` at content column `cx` of line `cy`.
pub open spec fn string_inserted(v: BufferView, cx: nat, cy: nat, message: Seq<char>) -> BufferView {
    if cy < v.lines.len() && cx <= v.lines[cy as int].raw.len()
        && v.lines[cy as int].raw.len() + message.len() <= MAX_LINE_LEN {
        BufferView {
            lines: edited(
                v,
                cy,
                v.lines[cy as int].raw.take(cx as int) + message + v.lines[cy as int].raw.skip(cx as int),
            ),
            dirty: true,
            ..v
        }
    } else {
        v
    }
}

/// The buffer after replacing the content of line `cy` by `new_line`.
pub open spec fn line_replaced(v: BufferView, cy: nat, new_line: Seq<char>) -> BufferView {
    if cy < v.lines.len() && new_line.len() <= MAX_LINE_LEN {
        BufferView { lines: edited(v, cy, new_line), dirty: true, ..v }
    } else {
        v
    }
}

/// The buffer after inserting `line` as line `cy`.
pub open spec fn line_inserted(v: BufferView, cy: nat, line: Seq<char>) -> BufferView {
    if cy <= v.lines.len() && line.len() <= MAX_LINE_LEN {
        BufferView {
            lines: rehighlight(
                v.lines.insert(cy as int, pending_line(line, carry_in(v.lines, cy as int))),
                v.file_type,
                cy,
            ),
            dirty: true,
            ..v
        }
    } else {
        v
    }
}

/// The buffer after removing line `cy`.
pub open spec fn line_deleted(v: BufferView, cy: nat) -> BufferView {
    if cy < v.lines.len() {
        BufferView {
            lines: rehighlight(v.lines.remove(cy as int), v.file_type, cy),
            dirty: true,
            ..v
        }
    } else {
        v
    }
}

/// Raw contents after an edit of line `cy`: only that line changes.
pub proof fn lemma_edited(v: BufferView, cy: nat, raw: Seq<char>)
    requires
        buffer_ok(v),
        cy < v.lines.len(),
        raw.len() <= MAX_LINE_LEN,
    ensures
        raws_of(edited(v, cy, raw)) == raws_of(v.lines).update(cy as int, raw),
        buffer_ok(BufferView { lines: edited(v, cy, raw), ..v }),
{
    let l = v.lines.update(cy as int, pending_line(raw, v.lines[cy as int].open_comment));
    assert forall|j: int| 0 <= j < l.len() && j != cy implies #[trigger] consistent_at(l, v.file_type, j) by {
        assert(consistent_at(v.lines, v.file_type, j));
    }
    assert forall|j: int| 0 <= j < l.len() implies (#[trigger] l[j]).raw.len() <= MAX_LINE_LEN by {
        assert(v.lines[j].raw.len() <= MAX_LINE_LEN);
    }
    lemma_rehighlight_ok(l, v.file_type, cy);
    assert(raws_of(edited(v, cy, raw)) =~= raws_of(v.lines).update(cy as int, raw));
}

/// Raw contents after inserting a line: the lines from `cy` on move down one.
pub proof fn lemma_line_inserted(v: BufferView, cy: nat, raw: Seq<char>)
    requires
        buffer_ok(v),
        cy <= v.lines.len(),
        raw.len() <= MAX_LINE_LEN,
    ensures
        raws_of(line_inserted(v, cy, raw).lines) == raws_of(v.lines).insert(cy as int, raw),
        buffer_ok(line_inserted(v, cy, raw)),
{
    let before = v.lines;
    let l = before.insert(cy as int, pending_line(raw, carry_in(before, cy as int)));
    assert forall|j: int| 0 <= j < l.len() && j != cy implies #[trigger] consistent_at(l, v.file_type, j) by {
        if j < cy {
            assert(consistent_at(before, v.file_type, j));
        } else {
            assert(consistent_at(before, v.file_type, j - 1));
        }
    }
    assert forall|j: int| 0 <= j < l.len() implies (#[trigger] l[j]).raw.len() <= MAX_LINE_LEN by {
        if j < cy {
            assert(before[j].raw.len() <= MAX_LINE_LEN);
        } else if j > cy {
            assert(before[j - 1].raw.len() <= MAX_LINE_LEN);
        }
    }
    lemma_rehighlight_ok(l, v.file_type, cy);
    assert(raws_of(line_inserted(v, cy, raw).lines) =~= raws_of(v.lines).insert(cy as int, raw));
}

/// Raw contents after removing line `cy`: the lines below it move up one.
pub proof fn lemma_line_deleted(v: BufferView, cy: nat)
    requires
        buffer_ok(v),
        cy < v.lines.len(),
    ensures
        raws_of(line_deleted(v, cy).lines) == raws_of(v.lines).remove(cy as int),
        buffer_ok(line_deleted(v, cy)),
{
    let before = v.lines;
    let l = before.remove(cy as int);
    assert forall|j: int| 0 <= j < l.len() && j != cy implies #[trigger] consistent_at(l, v.file_type, j) by {
        if j < cy {
            assert(consistent_at(before, v.file_type, j));
        } else {
            assert(consistent_at(before, v.file_type, j + 1));
        }
    }
    assert forall|j: int| 0 <= j < l.len() implies (#[trigger] l[j]).raw.len() <= MAX_LINE_LEN by {
        if j < cy {
            assert(before[j].raw.len() <= MAX_LINE_LEN);
        } else {
            assert(before[j + 1].raw.len() <= MAX_LINE_LEN);
        }
    }
    lemma_rehighlight_ok(l, v.file_type, cy);
    assert(raws_of(line_deleted(v, cy).lines) =~= raws_of(v.lines).remove(cy as int));
}

/// Every line fits the length bound and records the flag that its content gives.
pub open spec fn buffer_ok(v: BufferView) -> bool {
    &&& forall|i: int| 0 <= i < v.lines.len() ==> (#[trigger] v.lines[i]).raw.len() <= MAX_LINE_LEN
    &&& flags_consistent(v.lines, v.file_type)
}

/// The ordered lines of one file, with its path, dirty flag and file type.
pub struct EditorBuffer {
    lines: Vec<EditorLine>,
    filepath: Option<String>,
    dirty: bool,
    file_type: Option<FileType>,
}

pub open spec fn line_views(lines: Seq<EditorLine>) -> Seq<LineView> {
    lines.map_values(|l: EditorLine| l@)
}

pub open spec fn opt_view(s: Option<String>) -> Option<Seq<char>> {
    match s {
        Some(p) => Some(p@),
        None => None,
    }
}

impl Default for EditorBuffer {
    /// The empty buffer.
    fn default() -> (r: EditorBuffer)
        ensures
            r.wf(),
            r@ == (BufferView { lines: Seq::empty(), filepath: None, dirty: false, file_type: None }),
    {
        EditorBuffer::new()
    }
}

/// Appends the drawing of character `c` tagged `t` while color `cur` is
/// active; returns the color active afterwards.
fn paint(out: &mut Vec<char>, cur: Highlight, c: char, t: Highlight) -> (r: Highlight)
    ensures
        (final(out)@, r) == paint_char(old(out)@, cur, c, t),
{
    if (c as u32) < 0x20 || (c as u32) == 0x7f {
        out.push('\x1b');
        out.push('[');
        out.push('7');
        out.push('m');
        let g = if (c as u32) == 0 {
            '@'
        } else if (c as u32) <= 0x1a {
            (((c as u32) + 64) as u8) as char
        } else {
            '?'
        };
        out.push(g);
        out.push('\x1b');
        out.push('[');
        out.push('m');
        out.push('\x1b');
        out.push('[');
        push_decimal(out, cur.color());
        out.push('m');
        assert(final(out)@ =~= paint_char(old(out)@, cur, c, t).0);
        cur
    } else if t == Highlight::Normal {
        if cur != Highlight::Normal {
            out.push('\x1b');
            out.push('[');
            push_decimal(out, 39);
            out.push('m');
        }
        out.push(c);
        assert(final(out)@ =~= paint_char(old(out)@, cur, c, t).0);
        Highlight::Normal
    } else {
        if cur != t {
            out.push('\x1b');
            out.push('[');
            push_decimal(out, t.color());
            out.push('m');
        }
        out.push(c);
        assert(final(out)@ =~= paint_char(old(out)@, cur, c, t).0);
        t
    }
}

impl View for EditorBuffer {
    type V = BufferView;

    closed spec fn view(&self) -> BufferView {
        BufferView {
            lines: line_views(self.lines@),
            filepath: opt_view(self.filepath),
            dirty: self.dirty,
            file_type: self.file_type,
        }
    }
}

impl EditorBuffer {
    pub closed spec fn inv(&self) -> bool {
        forall|i: int| 0 <= i < self.lines.len() ==> {
            &&& (#[trigger] self.lines@[i]).inv()
            &&& self.lines@[i].kind() == self.file_type
        }
    }

    /// The buffer is well formed: lines and tags agree, flags are consistent.
    pub open spec fn wf(&self) -> bool {
        self.inv() && buffer_ok(self@)
    }

    /// The empty buffer, with no path and no file type.
    pub fn new() -> (r: EditorBuffer)
        ensures
            r.wf(),
            r@ == (BufferView { lines: Seq::empty(), filepath: None, dirty: false, file_type: None }),
    {
        let r = EditorBuffer { lines: Vec::new(), filepath: None, dirty: false, file_type: None };
        assert(line_views(r.lines@) =~= Seq::empty());
        r
    }

    pub fn get_file_type(&self) -> (r: Option<FileType>)
        ensures
            r == self@.file_type,
    {
        self.file_type
    }

    /// Number of lines.
    pub fn len(&self) -> (r: usize)
        ensures
            r == self@.lines.len(),
    {
        self.lines.len()
    }

    pub fn is_empty(&self) -> (r: bool)
        ensures
            r == (self@.lines.len() == 0),
    {
        self.lines.len() == 0
    }

    /// Raw content of line `num`, if there is such a line.
    pub fn get_line(&self, num: usize) -> (r: Option<String>)
        ensures
            match r {
                Some(s) => num < self@.lines.len() && s@ == self@.lines[num as int].raw,
                None => num >= self@.lines.len(),
            },
    {
        if num < self.lines.len() {
            Some(string_of(&self.lines[num].raw))
        } else {
            None
        }
    }

    /// The number of lines fits in a `usize`.
    pub proof fn lemma_len_fits(&self)
        ensures
            self@.lines.len() <= usize::MAX,
    {
        assert(self.lines.len() <= usize::MAX);
        assert(line_views(self.lines@).len() == self.lines@.len());
    }

    /// Tags of line `num`, one per rendered character (none where there is no such line).
    pub fn line_highlight(&self, num: usize) -> (r: Vec<Highlight>)
        ensures
            r@ == if num < self@.lines.len() { self@.lines[num as int].highlight } else { Seq::empty() },
    {
        if num < self.lines.len() {
            self.lines[num].highlight.clone()
        } else {
            Vec::new()
        }
    }

    /// Whether line `num` ends inside a block comment (false where there is no such line).
    pub fn line_open_comment(&self, num: usize) -> (r: bool)
        ensures
            r == (num < self@.lines.len() && self@.lines[num as int].open_comment),
    {
        num < self.lines.len() && self.lines[num].open_comment
    }

    /// Raw characters of line `num`.
    pub fn line_chars(&self, num: usize) -> (r: &Vec<char>)
        requires
            num < self@.lines.len(),
        ensures
            r@ == self@.lines[num as int].raw,
    {
        &self.lines[num].raw
    }

    /// Length of line `num` in characters, if there is such a line.
    pub fn line_len(&self, num: usize) -> (r: Option<usize>)
        ensures
            match r {
                Some(n) => num < self@.lines.len() && n == self@.lines[num as int].raw.len(),
                None => num >= self@.lines.len(),
            },
    {
        if num < self.lines.len() {
            Some(self.lines[num].raw.len())
        } else {
            None
        }
    }

    pub fn get_filepath(&self) -> (r: Option<String>)
        ensures
            opt_view(r) == self@.filepath,
    {
        match &self.filepath {
            Some(p) => Some(p.clone()),
            None => None,
        }
    }

    pub fn is_dirty(&self) -> (r: bool)
        ensures
            r == self@.dirty,
    {
        self.dirty
    }

    /// Classifies line `start` again and the lines below it for as long as the
    /// block-comment flag handed down changes.
    fn rehighlight_from(&mut self, start: usize)
        requires
            old(self).inv(),
            start <= old(self)@.lines.len(),
        ensures
            final(self).inv(),
            final(self)@ == (BufferView { lines: rehighlight(old(self)@.lines, old(self)@.file_type, start as nat), ..old(self)@ }),
    {
        let mut i: usize = start;
        while i < self.lines.len()
            invariant
                self.inv(),
                i <= self.lines.len(),
                self.file_type == old(self).file_type,
                self.filepath == old(self).filepath,
                self.dirty == old(self).dirty,
                rehighlight(self@.lines, self.file_type, i as nat) == rehighlight(old(self)@.lines, old(self)@.file_type, start as nat),
            decreases self.lines.len() - i,
        {
            let carry = if i == 0 { false } else { self.lines[i - 1].open_comment };
            let was = self.lines[i].open_comment;
            let ghost before = self@.lines;
            assert(before[i as int] == self.lines@[i as int]@);
            assert(carry == carry_in(before, i as int));
            let out = self.lines[i].clear_highlight(carry);
            assert(self@.lines =~= before.update(i as int, classified_line(before[i as int].raw, self.file_type, carry)));
            if out == was {
                return;
            }
            i += 1;
        }
    }

    /// Classifies line `cy` again, then the lines below it for as long as the
    /// block-comment flag handed down changes.
    pub fn clear_highlight(&mut self, cy: usize)
        requires
            old(self).wf(),
            cy <= old(self)@.lines.len(),
        ensures
            final(self).wf(),
            final(self)@ == (BufferView { lines: rehighlight(old(self)@.lines, old(self)@.file_type, cy as nat), ..old(self)@ }),
            raws_of(final(self)@.lines) == raws_of(old(self)@.lines),
    {
        proof {
            lemma_rehighlight_ok(self@.lines, self@.file_type, cy as nat);
        }
        self.rehighlight_from(cy);
        assert(raws_of(self@.lines) =~= raws_of(old(self)@.lines));
    }

    /// Replaces the raw content of line `cy` by `raw` and classifies from there on.
    fn edit_line(&mut self, cy: usize, raw: Vec<char>)
        requires
            old(self).wf(),
            cy < old(self)@.lines.len(),
            raw.len() <= MAX_LINE_LEN,
        ensures
            final(self).wf(),
            final(self)@ == (BufferView { lines: edited(old(self)@, cy as nat, raw@), dirty: true, ..old(self)@ }),
    {
        let ghost before = self@.lines;
        assert(self.lines@[cy as int].inv());
        self.lines[cy].set_raw(raw);
        self.dirty = true;
        proof {
            assert(self@.lines =~= before.update(cy as int, pending_line(raw@, before[cy as int].open_comment)));
            lemma_edited(old(self)@, cy as nat, raw@);
        }
        self.rehighlight_from(cy);
    }

    /// Inserts `c` at content column `cx` of line `cy`; does nothing where
    /// there is no such position or the line is at its length bound.
    pub fn insert_char(&mut self, cx: usize, cy: usize, c: char)
        requires
            old(self).wf(),
        ensures
            final(self).wf(),
            final(self)@ == char_inserted(old(self)@, cx as nat, cy as nat, c),
    {
        if cy < self.lines.len() && cx <= self.lines[cy].raw.len() && self.lines[cy].raw.len() < MAX_LINE_LEN {
            let mut raw = self.lines[cy].raw.clone();
            raw.insert(cx, c);
            self.edit_line(cy, raw);
        }
    }

    /// Removes the character at content column `cx` of line `cy`; does nothing
    /// where there is no such character.
    pub fn delete_char(&mut self, cx: usize, cy: usize)
        requires
            old(self).wf(),
        ensures
            final(self).wf(),
            final(self)@ == char_deleted(old(self)@, cx as nat, cy as nat),
    {
        if cy < self.lines.len() && cx < self.lines[cy].raw.len() {
            let mut raw = self.lines[cy].raw.clone();
            raw.remove(cx);
            self.edit_line(cy, raw);
        }
    }

    /// Inserts `message` at content column `cx` of line `cy`; does nothing
    /// where there is no such position or the line would pass its length bound.
    pub fn append_string(&mut self, cx: usize, cy: usize, message: String)
        requires
            old(self).wf(),
        ensures
            final(self).wf(),
            final(self)@ == string_inserted(old(self)@, cx as nat, cy as nat, message@),
    {
        let msg = chars_of(message.as_str());
        if cy < self.lines.len() && cx <= self.lines[cy].raw.len() && msg.len() <= MAX_LINE_LEN - self.lines[cy].raw.len() {
            let mut raw = self.lines[cy].raw.clone();
            let mut tail = raw.split_off(cx);
            let mut mid = msg;
            raw.append(&mut mid);
            raw.append(&mut tail);
            assert(raw@ =~= old(self)@.lines[cy as int].raw.take(cx as int) + message@ + old(self)@.lines[cy as int].raw.skip(cx as int));
            self.edit_line(cy, raw);
        }
    }

    /// Replaces line `cy` by `new_line`; does nothing where there is no such
    /// line or `new_line` passes the length bound.
    pub fn replace_line(&mut self, cy: usize, new_line: String)
        requires
            old(self).wf(),
        ensures
            final(self).wf(),
            final(self)@ == line_replaced(old(self)@, cy as nat, new_line@),
    {
        let raw = chars_of(new_line.as_str());
        if cy < self.lines.len() && raw.len() <= MAX_LINE_LEN {
            self.edit_line(cy, raw);
        }
    }

    /// Inserts `line` as line `cy`, the lines from `cy` on moving down one;
    /// does nothing where `cy` is past the last line plus one or `line`
    /// passes the length bound.
    pub fn insert_line(&mut self, cy: usize, line: String)
        requires
            old(self).wf(),
        ensures
            final(self).wf(),
            final(self)@ == line_inserted(old(self)@, cy as nat, line@),
    {
        let raw = chars_of(line.as_str());
        if cy <= self.lines.len() && raw.len() <= MAX_LINE_LEN {
            let ghost before = self@.lines;
            let carry = if cy == 0 { false } else { self.lines[cy - 1].open_comment };
            assert(cy > 0 ==> before[cy - 1] == self.lines@[cy - 1]@);
            let el = EditorLine::pending(raw, self.file_type, carry);
            self.lines.insert(cy, el);
            self.dirty = true;
            proof {
                assert(self@.lines =~= before.insert(cy as int, pending_line(line@, carry_in(before, cy as int))));
                lemma_line_inserted(old(self)@, cy as nat, line@);
                assert forall|i: int| 0 <= i < self.lines.len() implies {
                    &&& (#[trigger] self.lines@[i]).inv()
                    &&& self.lines@[i].kind() == self.file_type
                } by {
                    if i < cy {
                        assert(old(self).lines@[i].inv());
                    } else if i > cy {
                        assert(old(self).lines@[i - 1].inv());
                    }
                }
            }
            self.rehighlight_from(cy);
        }
    }

    /// Removes line `cy`; does nothing where there is no such line.
    pub fn delete_line(&mut self, cy: usize)
        requires
            old(self).wf(),
        ensures
            final(self).wf(),
            final(self)@ == line_deleted(old(self)@, cy as nat),
    {
        if cy < self.lines.len() {
            let ghost before = self@.lines;
            self.lines.remove(cy);
            self.dirty = true;
            proof {
                assert(self@.lines =~= before.remove(cy as int));
                lemma_line_deleted(old(self)@, cy as nat);
                assert forall|i: int| 0 <= i < self.lines.len() implies {
                    &&& (#[trigger] self.lines@[i]).inv()
                    &&& self.lines@[i].kind() == self.file_type
                } by {
                    if i < cy {
                        assert(old(self).lines@[i].inv());
                    } else {
                        assert(old(self).lines@[i + 1].inv());
                    }
                }
            }
            self.rehighlight_from(cy);
        }
    }

    /// Forces the tags of the rendered columns that content columns
    /// `[cx, cx + width)` of line `cy` occupy to `highlight`, leaving the base
    /// classification to the next recomputation; does nothing where there is
    /// no line `cy`.
    pub fn highlight(&mut self, cx: usize, cy: usize, width: usize, highlight: Highlight)
        requires
            old(self).wf(),
            cx + width <= usize::MAX,
        ensures
            final(self).wf(),
            final(self)@ == if cy < old(self)@.lines.len() {
                let line = old(self)@.lines[cy as int];
                let n = line.raw.len();
                let begin = render_column(line.raw, if cx <= n { cx as nat } else { n as nat }, TAB_STOP as nat);
                let end = render_column(line.raw, if cx + width <= n { (cx + width) as nat } else { n as nat }, TAB_STOP as nat);
                BufferView {
                    lines: old(self)@.lines.update(
                        cy as int,
                        LineView { highlight: overlay(line.highlight, begin, end, highlight), ..line },
                    ),
                    ..old(self)@
                }
            } else {
                old(self)@
            },
            raws_of(final(self)@.lines) == raws_of(old(self)@.lines),
    {
        if cy < self.lines.len() {
            let begin = self.cx_to_rx(cx, cy);
            let end = self.cx_to_rx(cx + width, cy);
            let ghost before = self@.lines;
            proof {
                let raw = before[cy as int].raw;
                let n = raw.len();
                lemma_render_column_monotonic(
                    raw,
                    if cx <= n { cx as nat } else { n as nat },
                    if cx + width <= n { (cx + width) as nat } else { n as nat },
                    TAB_STOP as nat,
                );
                assert(self.lines@[cy as int].inv());
            }
            self.lines[cy].highlight(begin, end, highlight);
            proof {
                let l = self@.lines;
                assert(l =~= before.update(cy as int, LineView { highlight: overlay(before[cy as int].highlight, begin as nat, end as nat, highlight), ..before[cy as int] }));
                assert forall|j: int| 0 <= j < l.len() implies #[trigger] consistent_at(l, self.file_type, j) by {
                    assert(consistent_at(before, self.file_type, j));
                }
                assert forall|j: int| 0 <= j < l.len() implies (#[trigger] l[j]).raw.len() <= MAX_LINE_LEN by {
                    assert(before[j].raw.len() <= MAX_LINE_LEN);
                }
                assert(raws_of(l) =~= raws_of(before));
            }
        }
    }

    /// Replaces the content by the lines of `text`, with no path and no file
    /// type, and classifies every line.
    pub fn load_string(&mut self, text: String)
        requires
            text@.len() <= MAX_LINE_LEN,
        ensures
            final(self).wf(),
            final(self)@ == (BufferView {
                lines: classify_all(split_lines(text@), None),
                filepath: None,
                dirty: false,
                file_type: None,
            }),
    {
        let raws = split_text(text.as_str());
        self.lines = classify_lines(&raws, None);
        self.filepath = None;
        self.file_type = None;
        self.dirty = false;
        proof {
            lemma_classify_all(split_lines(text@), None);
            let l = self@.lines;
            assert forall|j: int| 0 <= j < l.len() implies (#[trigger] l[j]).raw.len() <= MAX_LINE_LEN by {
                assert(l[j].raw == split_lines(text@)[j]);
                assert(char_views(raws@)[j] == raws@[j]@);
            }
        }
    }

    /// Replaces the content by `lines`, read from the file at `path`: the file
    /// type follows the path's extension and every line is classified.
    pub fn load_lines(&mut self, lines: Vec<String>, path: String)
        requires
            forall|j: int| 0 <= j < lines.len() ==> (#[trigger] lines@[j])@.len() <= MAX_LINE_LEN,
        ensures
            final(self).wf(),
            final(self)@ == (BufferView {
                lines: classify_all(lines@.map_values(|s: String| s@), file_type_for(path@)),
                filepath: Some(path@),
                dirty: false,
                file_type: file_type_for(path@),
            }),
    {
        let ft = FileType::select_file_type(path.as_str());
        let mut raws: Vec<Vec<char>> = Vec::new();
        let mut i: usize = 0;
        while i < lines.len()
            invariant
                i <= lines.len(),
                raws.len() == i,
                forall|j: int| 0 <= j < lines.len() ==> (#[trigger] lines@[j])@.len() <= MAX_LINE_LEN,
                forall|j: int| 0 <= j < i ==> (#[trigger] raws@[j])@ == lines@[j]@,
            decreases lines.len() - i,
        {
            raws.push(chars_of(lines[i].as_str()));
            i += 1;
        }
        assert(char_views(raws@) =~= lines@.map_values(|s: String| s@));
        self.lines = classify_lines(&raws, ft);
        self.filepath = Some(path);
        self.file_type = ft;
        self.dirty = false;
        proof {
            let raw_seq = lines@.map_values(|s: String| s@);
            lemma_classify_all(raw_seq, ft);
            let l = self@.lines;
            assert forall|j: int| 0 <= j < l.len() implies (#[trigger] l[j]).raw.len() <= MAX_LINE_LEN by {
                assert(l[j].raw == raw_seq[j]);
            }
        }
    }

    /// Records that the content was written to `path`: the file type follows
    /// the path's extension, the buffer is clean, every line is classified again.
    pub fn mark_saved(&mut self, path: String)
        requires
            old(self).wf(),
        ensures
            final(self).wf(),
            final(self)@ == (BufferView {
                lines: classify_all(raws_of(old(self)@.lines), file_type_for(path@)),
                filepath: Some(path@),
                dirty: false,
                file_type: file_type_for(path@),
            }),
    {
        let ft = FileType::select_file_type(path.as_str());
        let mut raws: Vec<Vec<char>> = Vec::new();
        let mut i: usize = 0;
        while i < self.lines.len()
            invariant
                i <= self.lines.len(),
                raws.len() == i,
                self.wf(),
                self@ == old(self)@,
                forall|j: int| 0 <= j < i ==> (#[trigger] raws@[j])@ == self@.lines[j].raw,
                forall|j: int| 0 <= j < i ==> (#[trigger] raws@[j]).len() <= MAX_LINE_LEN,
            decreases self.lines.len() - i,
        {
            assert(self@.lines[i as int] == self.lines@[i as int]@);
            raws.push(self.lines[i].raw.clone());
            i += 1;
        }
        let ghost old_raws = raws_of(old(self)@.lines);
        assert(char_views(raws@) =~= old_raws);
        self.lines = classify_lines(&raws, ft);
        self.filepath = Some(path);
        self.file_type = ft;
        self.dirty = false;
        proof {
            lemma_classify_all(old_raws, ft);
            let l = self@.lines;
            assert forall|j: int| 0 <= j < l.len() implies (#[trigger] l[j]).raw.len() <= MAX_LINE_LEN by {
                assert(l[j].raw == old_raws[j]);
                assert(old_raws[j] == old(self)@.lines[j].raw);
            }
        }
    }

    /// The raw lines joined by newlines, as written to a file.
    pub fn contents(&self) -> (r: String)
        requires
            self.wf(),
        ensures
            r@ == join_lines(raws_of(self@.lines)),
    {
        let mut out: Vec<char> = Vec::new();
        let mut i: usize = 0;
        while i < self.lines.len()
            invariant
                i <= self.lines.len(),
                out@ == join_lines(raws_of(self@.lines).take(i as int)),
            decreases self.lines.len() - i,
        {
            let ghost rs = raws_of(self@.lines);
            assert(rs.take(i + 1).drop_last() == rs.take(i as int));
            assert(rs[i as int] == self.lines@[i as int].raw@);
            if i > 0 {
                out.push('\n');
            }
            push_all(&mut out, &self.lines[i].raw);
            i += 1;
            assert(out@ =~= join_lines(rs.take(i as int)));
        }
        assert(raws_of(self@.lines).take(self.lines.len() as int) == raws_of(self@.lines));
        string_of(&out)
    }

    /// The window `[offset, offset + width)` of line `num`'s render form, with
    /// the escape sequences that color it, if there is such a line.
    pub fn get_render(&self, num: usize, offset: usize, width: usize) -> (r: Option<String>)
        requires
            self.wf(),
        ensures
            match r {
                Some(s) => num < self@.lines.len() && s@ == render_window(
                    render_of(self@.lines[num as int].raw),
                    self@.lines[num as int].highlight,
                    offset as nat,
                    width as nat,
                ),
                None => num >= self@.lines.len(),
            },
    {
        if num >= self.lines.len() {
            return None;
        }
        let line = &self.lines[num];
        assert(self.lines@[num as int].inv());
        let len = line.render.len();
        let end: usize = if offset < len && width < len - offset { offset + width } else { len };
        let mut out: Vec<char> = Vec::new();
        let mut current = Highlight::Normal;
        if offset < end {
            let mut k: usize = offset;
            while k < end
                invariant
                    offset <= k <= end <= len,
                    len == line.render.len() == line.highlight.len(),
                    paint_upto(line.render@, line.highlight@, offset as nat, k as nat) == (out@, current),
                decreases end - k,
            {
                current = paint(&mut out, current, line.render[k], line.highlight[k]);
                k += 1;
            }
        }
        out.push('\x1b');
        out.push('[');
        push_decimal(&mut out, 39);
        out.push('m');
        assert(out@ =~= render_window(line.render@, line.highlight@, offset as nat, width as nat));
        Some(string_of(&out))
    }

    /// Render column of content column `cx` on line `cy` (0 where there is no such line).
    pub fn cx_to_rx(&self, cx: usize, cy: usize) -> (rx: usize)
        requires
            self.wf(),
        ensures
            rx == if cy < self@.lines.len() {
                let raw = self@.lines[cy as int].raw;
                render_column(raw, if cx <= raw.len() { cx as nat } else { raw.len() as nat }, TAB_STOP as nat)
            } else {
                0
            },
            cy < self@.lines.len() ==> rx <= render_of(self@.lines[cy as int].raw).len(),
    {
        if cy < self.lines.len() {
            assert(self.lines@[cy as int].inv());
            render_column_of(&self.lines[cy].raw, cx)
        } else {
            0
        }
    }
}

} // verus!
