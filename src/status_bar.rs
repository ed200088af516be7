use vstd::prelude::*;

use crate::escape_sequence::{decimal, push_all, push_decimal};
use crate::filetype::{name_of, FileType};
use crate::screen::Screen;
use crate::text::{chars_of, string_of};
use crate::ui::Component;

verus! {

/// `s` padded with spaces on the right to at least `w` characters.
pub open spec fn pad_right(s: Seq<char>, w: nat) -> Seq<char> {
    if s.len() >= w {
        s
    } else {
        s + Seq::new((w - s.len()) as nat, |_k: int| ' ')
    }
}

/// Left status: the file name (or a placeholder) padded to 20 columns, the
/// bar's height, and a mark for unsaved changes.
pub open spec fn left_status_text(path: Option<Seq<char>>, height: nat, dirty: bool) -> Seq<char> {
    let name = match path {
        Some(p) => p,
        None => "[No Name]"@,
    };
    let mark = if dirty {
        "(modified)"@
    } else {
        ""@
    };
    pad_right(name, 20) + " - "@ + decimal(height) + " lines "@ + mark
}

/// Right status: the file type (or a placeholder), the cursor's row counted
/// from one, and the number of lines.
pub open spec fn right_status_text(ft: Option<FileType>, row: nat, lines: nat) -> Seq<char> {
    let name = match ft {
        Some(f) => name_of(f),
        None => "no ft"@,
    };
    name + " | "@ + decimal(row + 1) + "/"@ + decimal(lines)
}

/// The reversed line above the message bar.
pub struct StatusBar {
    pub component: Component,
    pub left_status: String,
    pub right_status: String,
}

impl StatusBar {
    pub fn new() -> (r: StatusBar)
        ensures
            r.component == (Component { x: 0, y: 0, width: 0, height: 0 }),
            r.left_status@ == Seq::<char>::empty(),
            r.right_status@ == Seq::<char>::empty(),
    {
        StatusBar { component: Component::new(0, 0, 0, 0), left_status: String::new(), right_status: String::new() }
    }

    pub fn set_size(&mut self, x: usize, y: usize, width: usize, height: usize)
        ensures
            final(self).component == (Component { x, y, width, height }),
            final(self).left_status == old(self).left_status,
            final(self).right_status == old(self).right_status,
    {
        self.component.set_size(x, y, width, height);
    }

    /// Describes the file of `screen`'s buffer.
    pub fn set_left_status(&mut self, screen: &Screen)
        ensures
            final(self).left_status@ == left_status_text(
                screen.buffer@.filepath,
                old(self).component.height as nat,
                screen.buffer@.dirty,
            ),
            final(self).component == old(self).component,
            final(self).right_status == old(self).right_status,
    {
        let mut out: Vec<char> = match screen.buffer.get_filepath() {
            Some(p) => chars_of(p.as_str()),
            None => chars_of("[No Name]"),
        };
        while out.len() < 20
            invariant
                out.len() <= 20 || out@ == match screen.buffer@.filepath {
                    Some(p) => p,
                    None => "[No Name]"@,
                },
                pad_right(out@, 20) == pad_right(
                    match screen.buffer@.filepath {
                        Some(p) => p,
                        None => "[No Name]"@,
                    },
                    20,
                ),
            decreases 20 - out.len(),
        {
            let ghost before = out@;
            out.push(' ');
            assert(pad_right(out@, 20) =~= pad_right(before, 20));
        }
        assert(pad_right(out@, 20) == out@);
        push_all(&mut out, &chars_of(" - "));
        push_decimal(&mut out, self.component.height());
        push_all(&mut out, &chars_of(" lines "));
        if screen.buffer.is_dirty() {
            push_all(&mut out, &chars_of("(modified)"));
        }
        proof {
            reveal_strlit("");
        }
        assert(out@ =~= left_status_text(
            screen.buffer@.filepath,
            old(self).component.height as nat,
            screen.buffer@.dirty,
        ));
        self.left_status = string_of(&out);
    }

    /// Describes the file type and the cursor's row of `screen`.
    pub fn set_right_status(&mut self, screen: &Screen)
        requires
            screen.cy < usize::MAX,
        ensures
            final(self).right_status@ == right_status_text(
                screen.buffer@.file_type,
                screen.cy as nat,
                screen.buffer@.lines.len(),
            ),
            final(self).component == old(self).component,
            final(self).left_status == old(self).left_status,
    {
        let mut out: Vec<char> = match screen.buffer.get_file_type() {
            Some(f) => chars_of(f.to_str()),
            None => chars_of("no ft"),
        };
        push_all(&mut out, &chars_of(" | "));
        push_decimal(&mut out, screen.get_cy() + 1);
        push_all(&mut out, &chars_of("/"));
        push_decimal(&mut out, screen.buffer.len());
        self.right_status = string_of(&out);
    }
}

} // verus!
