use tattle::codes::ErrorDesc;
use tattle::display::{DisplayOptions, SourceInfo};
use tattle::{Loc, Reporter};

const E001: ErrorDesc = ErrorDesc { short: "E001", long: "unexpected token" };
const E002: ErrorDesc = ErrorDesc { short: "E002", long: "unterminated string" };

fn render(info: &SourceInfo, r: &mut Reporter, options: DisplayOptions) -> String {
    let mut out = String::new();
    info.extract_report_to(&mut out, r, options);
    out
}

#[test]
fn single_line_error_plain() {
    let info = SourceInfo::new(Some("test.txt"), "let x = ;\n");
    let mut r = Reporter::new();
    r.error(Loc::new(8, 9), &E001, "unexpected token ';'".to_string());
    let out = info.extract_report_to_string(&mut r);
    assert_eq!(
        out,
        "error[E001]: unexpected token ';'\n--> test.txt:1:9\n   1| let x = ;\n   1|         ^"
    );
}

#[test]
fn span_across_two_lines() {
    let info = SourceInfo::new(Some("two.txt"), "abc\ndef\n");
    let mut r = Reporter::new();
    r.error(Loc::new(1, 6), &E002, "here".to_string());
    let out = render(&info, &mut r, DisplayOptions::String);
    assert_eq!(
        out,
        "error[E002]: here\n--> two.txt:1:2\n   1| abc\n   1|  ^^\n   2| def\n   2| ^^\n"
    );
}

#[test]
fn column_counts_characters_not_bytes() {
    // '€' takes three bytes; the 'x' after it is the second character.
    let info = SourceInfo::new(Some("u.txt"), "€x\n");
    let mut r = Reporter::new();
    r.error(Loc::new(3, 4), &E001, "m".to_string());
    let out = render(&info, &mut r, DisplayOptions::String);
    assert!(out.contains("--> u.txt:1:2\n"), "{out}");
    assert!(!out.contains("--> u.txt:1:4\n"), "{out}");
}

#[test]
fn carets_count_bytes_of_multibyte_line() {
    // Each Greek letter is two bytes: the span [2, 4) is the second letter.
    let info = SourceInfo::new(None, "αβγ");
    let mut r = Reporter::new();
    r.error(Loc::new(2, 4), &E001, "greek".to_string());
    let out = render(&info, &mut r, DisplayOptions::String);
    assert_eq!(
        out,
        "error[E001]: greek\n--> <none>:1:2\n   1| αβγ\n   1|   ^^\n"
    );
}

#[test]
fn carets_match_span_on_later_line() {
    let text = "first\n  second line\nthird";
    let info = SourceInfo::new(Some("f"), text);
    let mut r = Reporter::new();
    // "second" starts at byte 8 and ends at byte 14; its line starts at 6.
    r.error(Loc::new(8, 14), &E001, "x".to_string());
    let out = render(&info, &mut r, DisplayOptions::String);
    let caret_line = out.lines().last().unwrap();
    assert_eq!(caret_line, "   2|   ^^^^^^");
    assert_eq!(caret_line.matches('^').count(), 6);
}

#[test]
fn styled_mode_paints_highlight() {
    let info = SourceInfo::new(Some("two.txt"), "abc\ndef\n");
    let mut r = Reporter::new();
    r.error(Loc::new(1, 6), &E002, "here".to_string());
    let out = render(&info, &mut r, DisplayOptions::Terminal);
    assert_eq!(
        out,
        "error[E002]: here\n--> two.txt:1:2\n   1| a\x1B[1;4;31mbc\x1B[0m\n   2| \x1B[1;4;31mde\x1B[0mf\n"
    );
}

#[test]
fn error_without_location_and_info() {
    let info = SourceInfo::new(Some("a"), "abc");
    let mut r = Reporter::new();
    r.error_unknown_loc(&E002, "no place".to_string());
    r.info("note this".to_string());
    let out = render(&info, &mut r, DisplayOptions::String);
    assert_eq!(out, "error[E002]: no place\ninfo: note this\n");
}

#[test]
fn report_string_trims_one_final_newline() {
    let info = SourceInfo::new(Some("a"), "abc");
    let mut r = Reporter::new();
    r.info("one".to_string());
    r.info("two".to_string());
    assert_eq!(info.extract_report_to_string(&mut r), "info: one\ninfo: two");
    // The log was drained.
    assert_eq!(info.extract_report_to_string(&mut r), "");
}

#[test]
fn line_numbers_right_aligned_to_four_columns() {
    let mut text = String::new();
    for i in 0..12 {
        text.push_str(&format!("line{i}\n"));
    }
    let info = SourceInfo::new(Some("long"), &text);
    let start = text.find("line11").unwrap();
    let mut r = Reporter::new();
    r.error(Loc::new(start, start + 6), &E001, "m".to_string());
    let out = render(&info, &mut r, DisplayOptions::String);
    assert_eq!(
        out,
        "error[E001]: m\n--> long:12:1\n  12| line11\n  12| ^^^^^^\n"
    );
}

#[test]
fn wide_line_numbers_are_not_cut() {
    let text = "\n".repeat(12345);
    let info = SourceInfo::new(Some("w"), &text);
    let mut r = Reporter::new();
    r.error(Loc::new(12344, 12344), &E001, "m".to_string());
    let out = render(&info, &mut r, DisplayOptions::String);
    assert_eq!(out, "error[E001]: m\n--> w:12345:1\n12345| \n12345| \n");
}

#[test]
fn span_at_end_after_trailing_newline() {
    // The line after a trailing newline starts at the last byte.
    let info = SourceInfo::new(Some("t"), "ab\n");
    let mut r = Reporter::new();
    r.error(Loc::new(3, 3), &E001, "eof".to_string());
    let out = render(&info, &mut r, DisplayOptions::String);
    assert_eq!(out, "error[E001]: eof\n--> t:2:2\n   2| \n\n   2|  \n");
}

#[test]
fn empty_text_and_empty_span() {
    let info = SourceInfo::new(None, "");
    let mut r = Reporter::new();
    r.error(Loc::new(0, 0), &E001, "empty".to_string());
    let out = render(&info, &mut r, DisplayOptions::String);
    assert_eq!(out, "error[E001]: empty\n--> <none>:1:1\n   1| \n   1| \n");
}

#[test]
fn span_ending_on_newline_stays_on_its_line() {
    let info = SourceInfo::new(Some("n"), "ab\ncd");
    let mut r = Reporter::new();
    r.error(Loc::new(0, 2), &E001, "m".to_string());
    let out = render(&info, &mut r, DisplayOptions::String);
    assert_eq!(out, "error[E001]: m\n--> n:1:1\n   1| ab\n   1| ^^\n");
}

#[test]
fn write_fmt_single_message() {
    let info = SourceInfo::new(Some("x"), "abc");
    let mut r = Reporter::new();
    r.info("hello".to_string());
    let ms = r.poll();
    let mut out = String::from("> ");
    info.write_fmt(&mut out, &ms[0], DisplayOptions::Terminal);
    assert_eq!(out, "> info: hello\n");
}

#[test]
fn show_source_alone() {
    let info = SourceInfo::new(Some("s"), "fn main() {}\n");
    let mut out = String::new();
    info.show_source(Loc::new(3, 7), &mut out, DisplayOptions::String);
    assert_eq!(out, "--> s:1:4\n   1| fn main() {}\n   1|    ^^^^\n");
}

#[test]
fn source_names() {
    assert_eq!(SourceInfo::new(Some("file.rs"), "x").name(), "file.rs");
    assert_eq!(SourceInfo::new(None, "x").name(), "<none>");
}

#[test]
fn spans_checked_against_text() {
    let info = SourceInfo::new(Some("c"), "aé");
    assert!(info.fits_text(Loc::new(0, 3)));
    assert!(info.fits_text(Loc::new(1, 3)));
    assert!(!info.fits_text(Loc::new(2, 3)));
    assert!(!info.fits_text(Loc::new(0, 4)));
    let mut r = Reporter::new();
    r.error(Loc::new(0, 9), &E001, "far".to_string());
    r.info("fine".to_string());
    let ms = r.poll();
    assert!(!info.can_show_message(&ms[0]));
    assert!(info.can_show_message(&ms[1]));
}
