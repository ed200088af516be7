use kilo_rs::buffer::{EditorBuffer, EditorLine};
use kilo_rs::filetype::FileType;
use kilo_rs::highlight::Highlight;

#[test]
fn test_convert_render() {
    let el = EditorLine::new("".to_string(), None);

    assert_eq!("hoge", el.convert_render("hoge"));

    assert_eq!("        ", el.convert_render("\t"));
    assert_eq!("1       ", el.convert_render("1\t"));
    assert_eq!("12      ", el.convert_render("12\t"));
    assert_eq!("123     ", el.convert_render("123\t"));
    assert_eq!("1234    ", el.convert_render("1234\t"));
    assert_eq!("12345   ", el.convert_render("12345\t"));
    assert_eq!("123456  ", el.convert_render("123456\t"));
    assert_eq!("1234567 ", el.convert_render("1234567\t"));
    assert_eq!("12345678        ", el.convert_render("12345678\t"));
}

#[test]
fn test_cx_to_rx() {
    let mut buffer = EditorBuffer::new();
    buffer.load_string("123\t456".to_string());

    let rx = buffer.cx_to_rx(4, 0);
    assert_eq!(8, rx);
}

#[test]
fn two_tabs_reach_two_tab_stops() {
    let el = EditorLine::new("".to_string(), None);
    assert_eq!("                ", el.convert_render("\t\t"));
    assert_eq!("a       b       c", el.convert_render("a\tb\tc"));
}

#[test]
fn render_column_follows_tab_stops() {
    let mut buffer = EditorBuffer::new();
    buffer.load_string("a\tb\tc".to_string());
    assert_eq!(0, buffer.cx_to_rx(0, 0));
    assert_eq!(1, buffer.cx_to_rx(1, 0));
    assert_eq!(8, buffer.cx_to_rx(2, 0));
    assert_eq!(9, buffer.cx_to_rx(3, 0));
    assert_eq!(16, buffer.cx_to_rx(4, 0));
    // past the end of the line: the whole line
    assert_eq!(17, buffer.cx_to_rx(50, 0));
    // no such line
    assert_eq!(0, buffer.cx_to_rx(3, 7));
}

#[test]
fn render_of_render_is_itself() {
    let el = EditorLine::new("".to_string(), None);
    let once = el.convert_render("ab\tcd\t\te");
    assert_eq!(once, el.convert_render(&once));
}

#[test]
fn load_string_splits_lines() {
    let mut buffer = EditorBuffer::new();
    buffer.load_string("one\r\ntwo\n\nthree\n".to_string());
    assert_eq!(4, buffer.len());
    assert_eq!(Some("one".to_string()), buffer.get_line(0));
    assert_eq!(Some("two".to_string()), buffer.get_line(1));
    assert_eq!(Some("".to_string()), buffer.get_line(2));
    assert_eq!(Some("three".to_string()), buffer.get_line(3));
    assert_eq!(None, buffer.get_line(4));
    assert!(!buffer.is_dirty());
    assert_eq!(None, buffer.get_filepath());
    assert_eq!(None, buffer.get_file_type());
}

#[test]
fn load_empty_string_gives_no_lines() {
    let mut buffer = EditorBuffer::new();
    buffer.load_string("".to_string());
    assert!(buffer.is_empty());
    assert_eq!(0, buffer.len());
}

fn c_buffer(lines: &[&str]) -> EditorBuffer {
    let mut buffer = EditorBuffer::new();
    buffer.load_lines(lines.iter().map(|l| l.to_string()).collect(), "main.c".to_string());
    buffer
}

fn tags(buffer: &EditorBuffer, row: usize) -> Vec<Highlight> {
    buffer.line_highlight(row)
}

#[test]
fn block_comment_spans_three_lines() {
    let buffer = c_buffer(&["/* a", "b", "*/ c"]);
    assert_eq!(Some(FileType::C), buffer.get_file_type());
    assert!(buffer.line_open_comment(0));
    assert_eq!(vec![Highlight::MultilineComment; 4], tags(&buffer, 0));
    assert!(buffer.line_open_comment(1));
    assert_eq!(vec![Highlight::MultilineComment], tags(&buffer, 1));
    assert!(!buffer.line_open_comment(2));
    assert_eq!(
        vec![
            Highlight::MultilineComment,
            Highlight::MultilineComment,
            Highlight::Normal,
            Highlight::Normal
        ],
        tags(&buffer, 2)
    );
}

#[test]
fn embedded_keyword_is_not_tagged() {
    let buffer = c_buffer(&["ifx y", "if x", "int n;", "x if"]);
    assert!(!tags(&buffer, 0).contains(&Highlight::Keyword1));
    assert_eq!(Highlight::Keyword1, tags(&buffer, 1)[0]);
    assert_eq!(Highlight::Keyword1, tags(&buffer, 1)[1]);
    assert_eq!(Highlight::Normal, tags(&buffer, 1)[3]);
    assert_eq!(vec![Highlight::Keyword2; 3], tags(&buffer, 2)[0..3].to_vec());
    assert_eq!(Highlight::Keyword1, tags(&buffer, 3)[2]);
    assert_eq!(Highlight::Keyword1, tags(&buffer, 3)[3]);
}

#[test]
fn numbers_strings_and_line_comments() {
    let buffer = c_buffer(&["x = 1.5; // note", "s = \"a1\"", "a1 2"]);
    let t = tags(&buffer, 0);
    assert_eq!(Highlight::Normal, t[0]);
    assert_eq!(Highlight::Number, t[4]);
    assert_eq!(Highlight::Number, t[5]);
    assert_eq!(Highlight::Number, t[6]);
    assert_eq!(Highlight::Normal, t[7]);
    assert_eq!(vec![Highlight::Comment; 7], t[9..].to_vec());
    let t = tags(&buffer, 1);
    assert_eq!(vec![Highlight::String; 4], t[4..].to_vec());
    let t = tags(&buffer, 2);
    assert_eq!(Highlight::Normal, t[1]);
    assert_eq!(Highlight::Number, t[3]);
}

#[test]
fn editing_reopens_comment_below() {
    let mut buffer = c_buffer(&["x", "y", "z */ w"]);
    assert!(!buffer.line_open_comment(0));
    buffer.insert_char(0, 0, '*');
    buffer.insert_char(0, 0, '/');
    assert!(buffer.is_dirty());
    assert_eq!(Some("/*x".to_string()), buffer.get_line(0));
    assert!(buffer.line_open_comment(0));
    assert!(buffer.line_open_comment(1));
    assert_eq!(vec![Highlight::MultilineComment], tags(&buffer, 1));
    assert!(!buffer.line_open_comment(2));
    buffer.delete_char(0, 0);
    assert_eq!(Some("*x".to_string()), buffer.get_line(0));
    assert!(!buffer.line_open_comment(1));
    assert_eq!(vec![Highlight::Normal], tags(&buffer, 1));
}

#[test]
fn line_operations() {
    let mut buffer = EditorBuffer::new();
    buffer.insert_line(0, "b".to_string());
    buffer.insert_line(0, "a".to_string());
    buffer.insert_line(2, "c".to_string());
    // past the end: nothing happens
    buffer.insert_line(9, "z".to_string());
    assert_eq!(3, buffer.len());
    buffer.replace_line(1, "B".to_string());
    buffer.append_string(1, 0, "xy".to_string());
    assert_eq!("axy\nB\nc", buffer.contents());
    buffer.delete_line(0);
    buffer.delete_line(5);
    assert_eq!("B\nc", buffer.contents());
    buffer.delete_char(9, 0);
    assert_eq!(Some("B".to_string()), buffer.get_line(0));
}

#[test]
fn match_override_and_recompute() {
    let mut buffer = c_buffer(&["int\tab"]);
    buffer.highlight(4, 0, 2, Highlight::Match);
    let t = tags(&buffer, 0);
    assert_eq!(Highlight::Keyword2, t[0]);
    assert_eq!(Highlight::Normal, t[3]);
    assert_eq!(Highlight::Match, t[8]);
    assert_eq!(Highlight::Match, t[9]);
    buffer.clear_highlight(0);
    assert_eq!(Highlight::Normal, tags(&buffer, 0)[8]);
}

#[test]
fn render_window_with_colors() {
    let buffer = c_buffer(&["if 12"]);
    assert_eq!(
        Some("\x1b[33mif\x1b[39m \x1b[31m12\x1b[39m".to_string()),
        buffer.get_render(0, 0, 80)
    );
    assert_eq!(Some("\x1b[31m2\x1b[39m".to_string()), buffer.get_render(0, 4, 1));
    assert_eq!(Some("\x1b[39m".to_string()), buffer.get_render(0, 9, 3));
    assert_eq!(None, buffer.get_render(1, 0, 3));
    let mut plain = EditorBuffer::new();
    plain.load_string("a\u{1}b".to_string());
    assert_eq!(
        Some("a\x1b[7mA\x1b[m\x1b[37mb\x1b[39m".to_string()),
        plain.get_render(0, 0, 10)
    );
}

#[test]
fn save_marks_clean_and_picks_file_type() {
    let mut buffer = EditorBuffer::new();
    buffer.load_string("int x".to_string());
    buffer.insert_char(0, 0, ' ');
    assert!(buffer.is_dirty());
    buffer.mark_saved("a.h".to_string());
    assert!(!buffer.is_dirty());
    assert_eq!(Some("a.h".to_string()), buffer.get_filepath());
    assert_eq!(Some(FileType::C), buffer.get_file_type());
    assert_eq!(Highlight::Keyword2, tags(&buffer, 0)[1]);
}

#[test]
fn file_type_by_extension() {
    assert_eq!(Some(FileType::C), FileType::select_file_type("x.c"));
    assert_eq!(Some(FileType::C), FileType::select_file_type("dir/x.cpp"));
    assert_eq!(None, FileType::select_file_type("x.rs"));
    assert_eq!(None, FileType::select_file_type(""));
    assert_eq!("C", FileType::C.to_str());
    assert_eq!(Some("//"), FileType::C.singleline_comment_start());
}
