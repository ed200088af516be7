use vstd::prelude::*;

use crate::text::string_of;

verus! {

pub const ESCAPE_SEQUENCE_CLEAR_SCREEN: &'static str = "\x1b[2J";

pub const ESCAPE_SEQUENCE_CLEAR_LINE: &'static str = "\x1b[K";

pub const ESCAPE_SEQUENCE_MOVE_CURSOR_TO_FIRST_POSITION: &'static str = "\x1b[H";

pub const ESCAPE_SEQUENCE_STYLE_RESET: &'static str = "\x1b[m";

pub const ESCAPE_SEQUENCE_STYLE_REVERSE: &'static str = "\x1b[7m";

pub const ESCAPE_SEQUENCE_HIDE_CURSOR: &'static str = "\x1b[?25l";

pub const ESCAPE_SEQUENCE_SHOW_CURSOR: &'static str = "\x1b[?25h";

/// The decimal digit for `d` (below ten).
pub open spec fn digit_char(d: nat) -> char {
    if d == 0 {
        '0'
    } else if d == 1 {
        '1'
    } else if d == 2 {
        '2'
    } else if d == 3 {
        '3'
    } else if d == 4 {
        '4'
    } else if d == 5 {
        '5'
    } else if d == 6 {
        '6'
    } else if d == 7 {
        '7'
    } else if d == 8 {
        '8'
    } else {
        '9'
    }
}

/// The decimal notation of `n`, without leading zeros.
pub open spec fn decimal(n: nat) -> Seq<char>
    decreases n,
{
    if n < 10 {
        seq![digit_char(n)]
    } else {
        decimal(n / 10).push(digit_char(n % 10))
    }
}

/// The notation of a two-digit number.
pub proof fn lemma_two_digits(n: nat)
    requires
        10 <= n < 100,
    ensures
        decimal(n) == seq![digit_char(n / 10), digit_char(n % 10)],
{
    assert(decimal(n / 10) == seq![digit_char(n / 10)]);
    assert(decimal(n) =~= seq![digit_char(n / 10), digit_char(n % 10)]);
}

/// Control sequence introducer followed by `n` and the final character `f`.
pub open spec fn csi(n: nat, f: char) -> Seq<char> {
    seq!['\x1b', '['] + decimal(n) + seq![f]
}

fn digit(d: usize) -> (c: char)
    requires
        d < 10,
    ensures
        c == digit_char(d as nat),
{
    if d == 0 {
        '0'
    } else if d == 1 {
        '1'
    } else if d == 2 {
        '2'
    } else if d == 3 {
        '3'
    } else if d == 4 {
        '4'
    } else if d == 5 {
        '5'
    } else if d == 6 {
        '6'
    } else if d == 7 {
        '7'
    } else if d == 8 {
        '8'
    } else {
        '9'
    }
}

/// Appends the decimal notation of `n`.
pub fn push_decimal(out: &mut Vec<char>, n: usize)
    ensures
        final(out)@ == old(out)@ + decimal(n as nat),
    decreases n,
{
    if n >= 10 {
        push_decimal(out, n / 10);
    }
    out.push(digit(n % 10));
    assert(final(out)@ =~= old(out)@ + decimal(n as nat));
}

/// Appends the characters of `s`.
pub fn push_all(out: &mut Vec<char>, s: &Vec<char>)
    ensures
        final(out)@ == old(out)@ + s@,
{
    let mut t = s.clone();
    out.append(&mut t);
}

/// Escape sequence that moves the terminal cursor to column `x`, row `y`
/// (both counted from zero).
pub open spec fn move_cursor_spec(x: nat, y: nat) -> Seq<char> {
    seq!['\x1b', '['] + decimal(y + 1) + seq![';'] + decimal(x + 1) + seq!['H']
}

/// Escape sequence that moves the terminal cursor to column `x`, row `y`.
pub fn move_cursor(x: usize, y: usize) -> (r: String)
    requires
        x < usize::MAX,
        y < usize::MAX,
    ensures
        r@ == move_cursor_spec(x as nat, y as nat),
{
    let mut out: Vec<char> = Vec::new();
    out.push('\x1b');
    out.push('[');
    push_decimal(&mut out, y + 1);
    out.push(';');
    push_decimal(&mut out, x + 1);
    out.push('H');
    assert(out@ =~= move_cursor_spec(x as nat, y as nat));
    string_of(&out)
}

/// A terminal color.
pub enum Color {
    Black,
    Red,
    Green,
    Yellow,
    Blue,
    Magenta,
    Cyan,
    White,
    Default,
}

/// Offset of a color within the foreground (30) and background (40) ranges.
pub open spec fn color_offset(c: Color) -> nat {
    match c {
        Color::Black => 0,
        Color::Red => 1,
        Color::Green => 2,
        Color::Yellow => 3,
        Color::Blue => 4,
        Color::Magenta => 5,
        Color::Cyan => 6,
        Color::White => 7,
        Color::Default => 9,
    }
}

impl Color {
    /// Escape sequence that selects this color for the text.
    pub fn foreground_escape_sequence(&self) -> (r: &'static str)
        ensures
            r@ == csi(30 + color_offset(*self), 'm'),
    {
        proof {
            reveal_strlit("\x1b[30m");
            reveal_strlit("\x1b[31m");
            reveal_strlit("\x1b[32m");
            reveal_strlit("\x1b[33m");
            reveal_strlit("\x1b[34m");
            reveal_strlit("\x1b[35m");
            reveal_strlit("\x1b[36m");
            reveal_strlit("\x1b[37m");
            reveal_strlit("\x1b[39m");
        }
        let r = match self {
            Color::Black => "\x1b[30m",
            Color::Red => "\x1b[31m",
            Color::Green => "\x1b[32m",
            Color::Yellow => "\x1b[33m",
            Color::Blue => "\x1b[34m",
            Color::Magenta => "\x1b[35m",
            Color::Cyan => "\x1b[36m",
            Color::White => "\x1b[37m",
            Color::Default => "\x1b[39m",
        };
        proof {
            lemma_two_digits(30 + color_offset(*self));
        }
        assert(r@ =~= csi(30 + color_offset(*self), 'm'));
        r
    }

    /// Escape sequence that selects this color for the background.
    pub fn background_escape_sequence(&self) -> (r: &'static str)
        ensures
            r@ == csi(40 + color_offset(*self), 'm'),
    {
        proof {
            reveal_strlit("\x1b[40m");
            reveal_strlit("\x1b[41m");
            reveal_strlit("\x1b[42m");
            reveal_strlit("\x1b[43m");
            reveal_strlit("\x1b[44m");
            reveal_strlit("\x1b[45m");
            reveal_strlit("\x1b[46m");
            reveal_strlit("\x1b[47m");
            reveal_strlit("\x1b[49m");
        }
        let r = match self {
            Color::Black => "\x1b[40m",
            Color::Red => "\x1b[41m",
            Color::Green => "\x1b[42m",
            Color::Yellow => "\x1b[43m",
            Color::Blue => "\x1b[44m",
            Color::Magenta => "\x1b[45m",
            Color::Cyan => "\x1b[46m",
            Color::White => "\x1b[47m",
            Color::Default => "\x1b[49m",
        };
        proof {
            lemma_two_digits(40 + color_offset(*self));
        }
        assert(r@ =~= csi(40 + color_offset(*self), 'm'));
        r
    }
}

} // verus!
