use headr::emit::{format_diagnostic, format_header, is_stdin};
use headr::prefix::find_line_end;
use headr::{get_args, Action, Emitter, Event, Output};

fn emitter(files: &[&str], lines: Option<&str>, bytes: Option<&str>) -> Emitter {
    let config = get_args(
        files.iter().map(|s| s.to_string()).collect(),
        lines.map(|s| s.to_string()),
        bytes.map(|s| s.to_string()),
    )
    .unwrap();
    Emitter::new(config)
}

fn out(text: &str) -> Output {
    Output { stdout: text.to_string(), stderr: String::new() }
}

fn nothing() -> Output {
    out("")
}

#[test]
fn header_of_a_single_source_is_empty() {
    assert_eq!(format_header(0, 1, "a"), "");
    assert_eq!(format_header(0, 0, "a"), "");
}

#[test]
fn header_of_the_first_source_has_no_empty_line() {
    assert_eq!(format_header(0, 2, "a"), "==> a <==\n");
}

#[test]
fn header_of_a_later_source_follows_an_empty_line() {
    assert_eq!(format_header(1, 2, "b"), "\n==> b <==\n");
    assert_eq!(format_header(7, 9, "dir/some file"), "\n==> dir/some file <==\n");
}

#[test]
fn diagnostic_names_the_source_and_the_reason() {
    assert_eq!(
        format_diagnostic("missing.txt", "No such file or directory (os error 2)"),
        "missing.txt: No such file or directory (os error 2)\n"
    );
}

#[test]
fn only_the_dash_is_standard_input() {
    assert!(is_stdin("-"));
    assert!(!is_stdin("--"));
    assert!(!is_stdin(""));
    assert!(!is_stdin("a"));
    assert!(!is_stdin("./-"));
    assert!(!is_stdin("\u{2212}"));
}

#[test]
fn line_end_is_behind_the_newline() {
    let data = b"ab\ncd\n\nef";
    assert_eq!(find_line_end(data, 0), 3);
    assert_eq!(find_line_end(data, 1), 3);
    assert_eq!(find_line_end(data, 2), 3);
    assert_eq!(find_line_end(data, 3), 6);
    assert_eq!(find_line_end(data, 6), 7);
    assert_eq!(find_line_end(data, 7), 9);
    assert_eq!(find_line_end(data, 9), 9);
    assert_eq!(find_line_end(b"", 0), 0);
}

#[test]
fn the_dash_opens_standard_input() {
    let e = emitter(&["-"], None, None);
    assert_eq!(e.action(), Action::OpenStdin);
    assert_eq!(e.index(), 0);
}

#[test]
fn a_name_opens_a_file() {
    let e = emitter(&["a.txt"], None, None);
    assert_eq!(e.action(), Action::OpenFile("a.txt".to_string()));
}

#[test]
fn lines_are_read_one_by_one_up_to_the_count() {
    let e = emitter(&["a"], Some("2"), None);
    let (e, o) = e.step(Event::Opened);
    assert_eq!(o, nothing());
    assert_eq!(e.action(), Action::ReadLine);
    let (e, o) = e.step(Event::Line("one\n".to_string()));
    assert_eq!(o, out("one\n"));
    assert_eq!(e.action(), Action::ReadLine);
    let (e, o) = e.step(Event::Line("two\n".to_string()));
    assert_eq!(o, out("two\n"));
    assert_eq!(e.action(), Action::Finish);
    assert_eq!(e.index(), 1);
}

#[test]
fn lines_stop_at_the_end_of_the_source() {
    let e = emitter(&["a"], Some("5"), None);
    let (e, _) = e.step(Event::Opened);
    let (e, o) = e.step(Event::Line("only".to_string()));
    assert_eq!(o, out("only"));
    assert_eq!(e.action(), Action::ReadLine);
    let (e, o) = e.step(Event::Line(String::new()));
    assert_eq!(o, nothing());
    assert_eq!(e.action(), Action::Finish);
}

#[test]
fn bytes_are_asked_for_once_and_cut_to_the_count() {
    let e = emitter(&["a"], None, Some("4"));
    let (e, o) = e.step(Event::Opened);
    assert_eq!(o, nothing());
    assert_eq!(e.action(), Action::ReadBytes(4));
    let (e, o) = e.step(Event::Bytes(b"abcdefgh".to_vec()));
    assert_eq!(o, out("abcd"));
    assert_eq!(e.action(), Action::Finish);
}

#[test]
fn fewer_bytes_than_the_count_are_written_whole() {
    let e = emitter(&["a"], None, Some("10"));
    let (e, _) = e.step(Event::Opened);
    let (e, o) = e.step(Event::Bytes(b"abc".to_vec()));
    assert_eq!(o, out("abc"));
    assert_eq!(e.action(), Action::Finish);
}

#[test]
fn zero_bytes_write_nothing_but_the_header() {
    let e = emitter(&["a", "b"], None, Some("0"));
    let (e, o) = e.step(Event::Opened);
    assert_eq!(o, out("==> a <==\n"));
    assert_eq!(e.action(), Action::ReadBytes(0));
    let (e, o) = e.step(Event::Bytes(b"abc".to_vec()));
    assert_eq!(o, nothing());
    assert_eq!(e.action(), Action::OpenFile("b".to_string()));
}

#[test]
fn bytes_that_are_no_text_are_replaced() {
    let e = emitter(&["a"], None, Some("3"));
    let (e, _) = e.step(Event::Opened);
    let (_, o) = e.step(Event::Bytes(vec![b'a', 0xff, b'b', b'c']));
    assert_eq!(o, out("a\u{fffd}b"));
}

#[test]
fn a_character_cut_in_two_is_replaced() {
    let e = emitter(&["a"], None, Some("2"));
    let (e, _) = e.step(Event::Opened);
    let (_, o) = e.step(Event::Bytes("aé".as_bytes().to_vec()));
    assert_eq!(o, out("a\u{fffd}"));
}

#[test]
fn a_source_that_cannot_be_opened_is_reported_and_passed_over() {
    let e = emitter(&["missing.txt", "a"], None, None);
    let (e, o) = e.step(Event::OpenFailed("No such file or directory (os error 2)".to_string()));
    assert_eq!(
        o,
        Output {
            stdout: String::new(),
            stderr: "missing.txt: No such file or directory (os error 2)\n".to_string(),
        }
    );
    assert_eq!(e.action(), Action::OpenFile("a".to_string()));
    assert_eq!(e.index(), 1);
    let (e, o) = e.step(Event::Opened);
    assert_eq!(o, out("\n==> a <==\n"));
    assert_eq!(e.action(), Action::ReadLine);
}

#[test]
fn a_failed_read_ends_the_run() {
    let e = emitter(&["a", "b"], None, None);
    let (e, _) = e.step(Event::Opened);
    let (e, _) = e.step(Event::Line("x\n".to_string()));
    let (e, o) = e.step(Event::ReadFailed("Is a directory (os error 21)".to_string()));
    assert_eq!(o, nothing());
    assert_eq!(e.action(), Action::Abort("Is a directory (os error 21)".to_string()));
    assert_eq!(e.index(), 0);
    let (e, o) = e.step(Event::Opened);
    assert_eq!(o, nothing());
    assert_eq!(e.action(), Action::Abort("Is a directory (os error 21)".to_string()));
}

#[test]
fn a_failed_read_of_bytes_ends_the_run() {
    let e = emitter(&["a", "b"], None, Some("3"));
    let (e, _) = e.step(Event::Opened);
    let (e, o) = e.step(Event::ReadFailed("Is a directory (os error 21)".to_string()));
    assert_eq!(o, nothing());
    assert_eq!(e.action(), Action::Abort("Is a directory (os error 21)".to_string()));
}

#[test]
fn an_event_that_answers_nothing_changes_nothing() {
    let e = emitter(&["a"], Some("2"), None);
    let (e, o) = e.step(Event::Line("x\n".to_string()));
    assert_eq!(o, nothing());
    assert_eq!(e.action(), Action::OpenFile("a".to_string()));
    let (e, o) = e.step(Event::Bytes(b"x".to_vec()));
    assert_eq!(o, nothing());
    let (e, o) = e.step(Event::ReadFailed("x".to_string()));
    assert_eq!(o, nothing());
    assert_eq!(e.action(), Action::OpenFile("a".to_string()));
    let (e, _) = e.step(Event::Opened);
    let (e, o) = e.step(Event::Opened);
    assert_eq!(o, nothing());
    let (e, o) = e.step(Event::OpenFailed("x".to_string()));
    assert_eq!(o, nothing());
    assert_eq!(e.action(), Action::ReadLine);
    let (e, _) = e.step(Event::Line(String::new()));
    assert_eq!(e.action(), Action::Finish);
    let (e, o) = e.step(Event::Opened);
    assert_eq!(o, nothing());
    assert_eq!(e.action(), Action::Finish);
}
