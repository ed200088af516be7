use kilo_rs::screen::Screen;

fn initialize_screen() -> Screen {
    let mut screen = Screen::new();
    screen.set_size(0, 0, 20, 20);

    let mut text = "*".to_string().repeat(100);
    text.push_str("\r\n");
    screen.buffer().load_string(text.repeat(100));

    screen
}

fn cursor_test_runner<T>(test_cases: &[([usize; 2], [usize; 2])], func: T)
where
    T: Fn(&mut Screen) -> (),
{
    let mut screen = initialize_screen();
    for (i, data) in test_cases.iter().enumerate() {
        [screen.cx, screen.cy] = data.0;
        func(&mut screen);
        assert_eq!(data.1, [screen.cx, screen.cy], "i={}", i);
    }
}

#[test]
fn test_cursor_left() {
    cursor_test_runner(
        &[([0, 0], [0, 0]), ([1, 0], [0, 0]), ([0, 1], [100, 0])][..],
        |s: &mut Screen| s.left(),
    );
}

#[test]
fn test_cursor_right() {
    cursor_test_runner(
        &[
            ([0, 0], [1, 0]),
            ([100, 0], [0, 1]),
            ([100, 100], [100, 100]),
        ][..],
        |s: &mut Screen| s.right(),
    );
}

#[test]
fn test_cursor_up() {
    cursor_test_runner(
        &[([0, 0], [0, 0]), ([0, 1], [0, 0])][..],
        |s: &mut Screen| s.up(),
    );
}

#[test]
fn test_cursor_down() {
    cursor_test_runner(
        &[([0, 0], [0, 1]), ([0, 100], [0, 100])][..],
        |s: &mut Screen| s.down(),
    );
}

#[test]
fn test_cursor_home() {
    cursor_test_runner(
        &[([0, 0], [0, 0]), ([100, 0], [0, 0])][..],
        |s: &mut Screen| s.home(),
    );
}

#[test]
fn test_cursor_end() {
    cursor_test_runner(
        &[([0, 0], [100, 0]), ([100, 0], [100, 0])][..],
        |s: &mut Screen| s.end(),
    );
}

#[test]
fn test_adjust() {
    let mut screen = initialize_screen();

    screen.cx = 200;
    screen.cy = 0;
    screen.rx = 0;
    screen.offset_x = 0;
    screen.offset_y = 0;
    screen.adjust();
    assert_eq!(100, screen.cx);
    assert_eq!(100, screen.rx);
    assert_eq!(81, screen.offset_x);

    screen.cx = 10;
    screen.cy = 0;
    screen.rx = 0;
    screen.offset_x = 0;
    screen.offset_y = 0;
    screen.adjust();
    assert_eq!(10, screen.rx);
    assert_eq!(0, screen.offset_x);

    screen.cx = 10;
    screen.cy = 0;
    screen.rx = 0;
    screen.offset_x = 50;
    screen.offset_y = 0;
    screen.adjust();
    assert_eq!(10, screen.rx);
    assert_eq!(10, screen.offset_x);

    screen.cx = 50;
    screen.cy = 0;
    screen.rx = 0;
    screen.offset_x = 0;
    screen.offset_y = 0;
    screen.adjust();
    assert_eq!(50, screen.rx);
    assert_eq!(31, screen.offset_x);

    screen.cx = 0;
    screen.cy = 10;
    screen.rx = 0;
    screen.offset_x = 0;
    screen.offset_y = 50;
    screen.adjust();
    assert_eq!(10, screen.offset_y);

    screen.cx = 0;
    screen.cy = 50;
    screen.rx = 0;
    screen.offset_x = 0;
    screen.offset_y = 0;
    screen.adjust();
    assert_eq!(31, screen.offset_y);
}

fn screen_with(text: &str) -> Screen {
    let mut screen = Screen::new();
    screen.set_size(0, 0, 10, 5);
    screen.buffer().load_string(text.to_string());
    screen
}

#[test]
fn adjust_keeps_cursor_in_window() {
    let mut screen = screen_with("a\tb\tc\nx\ny\nz\nw\nv\nu");
    screen.cx = 4;
    screen.cy = 0;
    screen.offset_x = 3;
    screen.offset_y = 0;
    screen.adjust();
    assert_eq!(16, screen.rx);
    assert!(screen.offset_x <= screen.rx && screen.rx < screen.offset_x + 10);
    assert_eq!(7, screen.offset_x);
    assert_eq!((9, 0), screen.get_terminal_cursor());

    screen.cx = 4;
    screen.cy = 6;
    screen.adjust();
    assert_eq!(1, screen.cx);
    assert_eq!(2, screen.offset_y);
    assert!(screen.offset_y <= screen.cy && screen.cy < screen.offset_y + 5);
    assert_eq!((0, 4), screen.get_terminal_cursor());
}

#[test]
fn newline_splits_line() {
    let mut screen = screen_with("abcdef");
    screen.cx = 3;
    screen.cy = 0;
    screen.insert_new_line();
    assert_eq!(Some("abc".to_string()), screen.buffer.get_line(0));
    assert_eq!(Some("def".to_string()), screen.buffer.get_line(1));
    assert_eq!(2, screen.buffer.len());
    assert_eq!((0, 1), screen.cursor());
    assert!(screen.buffer.is_dirty());
}

#[test]
fn newline_at_column_zero_opens_line_above() {
    let mut screen = screen_with("abc");
    screen.insert_new_line();
    assert_eq!(Some("".to_string()), screen.buffer.get_line(0));
    assert_eq!(Some("abc".to_string()), screen.buffer.get_line(1));
    assert_eq!((0, 1), screen.cursor());
}

#[test]
fn backspace_at_column_zero_merges_lines() {
    let mut screen = screen_with("abc\ndef\nghi");
    screen.set_cursor(0, 1);
    screen.delete_char();
    assert_eq!(Some("abcdef".to_string()), screen.buffer.get_line(0));
    assert_eq!(Some("ghi".to_string()), screen.buffer.get_line(1));
    assert_eq!(2, screen.buffer.len());
    assert_eq!((3, 0), screen.cursor());
    // at the start of the buffer nothing happens
    screen.set_cursor(0, 0);
    screen.delete_char();
    assert_eq!(2, screen.buffer.len());
    assert_eq!((0, 0), screen.cursor());
    // inside a line the character before the cursor goes
    screen.set_cursor(2, 1);
    screen.delete_char();
    assert_eq!(Some("gi".to_string()), screen.buffer.get_line(1));
    assert_eq!((1, 1), screen.cursor());
}

#[test]
fn typing_past_the_last_line_adds_one() {
    let mut screen = screen_with("ab");
    screen.set_cursor(5, 1);
    screen.insert_char('x');
    assert_eq!(Some("x".to_string()), screen.buffer.get_line(1));
    assert_eq!((1, 1), screen.cursor());
    screen.set_cursor(1, 0);
    screen.insert_char('-');
    assert_eq!(Some("a-b".to_string()), screen.buffer.get_line(0));
    assert_eq!((2, 0), screen.cursor());
}

#[test]
fn find_then_rfind_returns_to_match() {
    let mut screen = screen_with("foo bar\nbaz bar qux\nbar");
    screen.set_cursor(5, 0);
    assert!(screen.find("bar"));
    assert_eq!((4, 1), screen.cursor());
    screen.set_cursor(4 + 3, 1);
    assert!(screen.rfind("bar"));
    assert_eq!((4, 1), screen.cursor());
    // rfind from the match itself goes to the one before
    assert!(screen.rfind("bar"));
    assert_eq!((4, 0), screen.cursor());
    assert!(!screen.find("nothing"));
    assert_eq!((4, 0), screen.cursor());
    assert!(!screen.rfind("qux"));
    assert_eq!((4, 0), screen.cursor());
}

#[test]
fn paging_moves_by_window_height() {
    let mut screen = screen_with("0\n1\n2\n3\n4\n5\n6\n7\n8\n9\n10\n11");
    screen.offset_y = 2;
    screen.page_down();
    assert_eq!(11, screen.cy);
    screen.offset_y = 7;
    screen.page_up();
    assert_eq!(2, screen.cy);
    screen.offset_y = 3;
    screen.page_up();
    assert_eq!(0, screen.cy);
    screen.offset_y = 9;
    screen.page_down();
    assert_eq!(12, screen.cy);
}

#[test]
fn page_down_stops_after_the_last_line() {
    let mut screen = Screen::new();
    screen.set_size(0, 0, 20, 20);
    screen.buffer().load_string("a\nb\nc\nd\ne".to_string());
    screen.page_down();
    assert_eq!(5, screen.cy);
    screen.cy = 40;
    screen.down();
    assert_eq!(5, screen.cy);
    let mut empty = Screen::new();
    empty.set_size(0, 0, 20, 20);
    empty.page_down();
    assert_eq!(0, empty.cy);
}
