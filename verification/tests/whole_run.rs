use headr::{get_args, run, Config, Source, Transcript};

fn config(files: &[&str], lines: Option<&str>, bytes: Option<&str>) -> Config {
    get_args(
        files.iter().map(|s| s.to_string()).collect(),
        lines.map(|s| s.to_string()),
        bytes.map(|s| s.to_string()),
    )
    .unwrap()
}

fn content(text: &str) -> Source {
    Source::Content(text.as_bytes().to_vec())
}

fn written(stdout: &str) -> Transcript {
    Transcript { stdout: stdout.to_string(), stderr: String::new(), failure: None }
}

const TWELVE: &str = "1\n2\n3\n4\n5\n6\n7\n8\n9\n10\n11\n12\n";

#[test]
fn the_first_lines_are_written_with_their_newlines() {
    let t = run(config(&["a"], Some("3"), None), &vec![content("one\ntwo\nthree\nfour\n")]);
    assert_eq!(t, written("one\ntwo\nthree\n"));
}

#[test]
fn exactly_as_many_lines_as_there_are() {
    let t = run(config(&["a"], Some("2"), None), &vec![content("one\ntwo\n")]);
    assert_eq!(t, written("one\ntwo\n"));
}

#[test]
fn empty_lines_count() {
    let t = run(config(&["a"], Some("3"), None), &vec![content("\n\nx\ny\n")]);
    assert_eq!(t, written("\n\nx\n"));
}

#[test]
fn a_shorter_text_is_written_unchanged() {
    let t = run(config(&["a"], Some("5"), None), &vec![content("one\ntwo\n")]);
    assert_eq!(t, written("one\ntwo\n"));
}

#[test]
fn an_unfinished_last_line_is_written_and_counts() {
    let t = run(config(&["a"], Some("5"), None), &vec![content("one\ntwo")]);
    assert_eq!(t, written("one\ntwo"));
    let t = run(config(&["a"], Some("2"), None), &vec![content("one\ntwo")]);
    assert_eq!(t, written("one\ntwo"));
    let t = run(config(&["a"], Some("1"), None), &vec![content("one")]);
    assert_eq!(t, written("one"));
}

#[test]
fn an_empty_source_writes_nothing() {
    let t = run(config(&["a"], Some("5"), None), &vec![content("")]);
    assert_eq!(t, written(""));
    let t = run(config(&["a"], None, Some("5")), &vec![content("")]);
    assert_eq!(t, written(""));
}

#[test]
fn lines_keep_characters_of_several_bytes() {
    let t = run(config(&["a"], Some("2"), None), &vec![content("für\n日本語\nmore\n")]);
    assert_eq!(t, written("für\n日本語\n"));
}

#[test]
fn carriage_returns_stay_in_their_lines() {
    let t = run(config(&["a"], Some("1"), None), &vec![content("one\r\ntwo\r\n")]);
    assert_eq!(t, written("one\r\n"));
}

#[test]
fn the_first_bytes_are_written() {
    let t = run(config(&["a"], None, Some("5")), &vec![content("one\ntwo\n")]);
    assert_eq!(t, written("one\nt"));
}

#[test]
fn fewer_bytes_than_asked_for_are_written_whole() {
    let t = run(config(&["a"], None, Some("100")), &vec![content("one\ntwo")]);
    assert_eq!(t, written("one\ntwo"));
}

#[test]
fn zero_bytes_write_nothing() {
    let t = run(config(&["a"], None, Some("0")), &vec![content("one\ntwo\n")]);
    assert_eq!(t, written(""));
}

#[test]
fn zero_bytes_of_several_sources_still_write_the_headers() {
    let t = run(config(&["a", "b"], None, Some("0")), &vec![content("x"), content("y")]);
    assert_eq!(t, written("==> a <==\n\n==> b <==\n"));
}

#[test]
fn bytes_cut_inside_a_character_are_replaced() {
    let t = run(config(&["a"], None, Some("4")), &vec![content("abcé")]);
    assert_eq!(t, written("abc\u{fffd}"));
    let t = run(config(&["a"], None, Some("5")), &vec![content("abcé")]);
    assert_eq!(t, written("abcé"));
}

#[test]
fn bytes_that_are_no_text_are_replaced_one_by_one() {
    let t = run(config(&["a"], None, Some("3")), &vec![Source::Content(vec![0xff, b'a', 0xfe, b'b'])]);
    assert_eq!(t, written("\u{fffd}a\u{fffd}"));
}

#[test]
fn several_sources_get_headers() {
    let t = run(
        config(&["a", "b"], Some("1"), None),
        &vec![content("a1\na2\n"), content("b1\nb2\n")],
    );
    assert_eq!(t, written("==> a <==\na1\n\n==> b <==\nb1\n"));
}

#[test]
fn three_sources_get_an_empty_line_before_each_later_header() {
    let t = run(
        config(&["a", "b", "c"], None, Some("2")),
        &vec![content("aaa"), content("bbb"), content("ccc")],
    );
    assert_eq!(t, written("==> a <==\naa\n==> b <==\nbb\n==> c <==\ncc"));
}

#[test]
fn a_single_source_gets_no_header() {
    let t = run(config(&["a"], None, None), &vec![content("==> a <==\nx\n")]);
    assert_eq!(t, written("==> a <==\nx\n"));
    let t = run(config(&["a"], None, Some("3")), &vec![content("xyz")]);
    assert_eq!(t, written("xyz"));
}

#[test]
fn a_missing_source_is_reported_and_the_others_are_written() {
    let t = run(
        config(&["missing.txt", "a"], None, None),
        &vec![
            Source::Unopened("No such file or directory (os error 2)".to_string()),
            content("a1\na2\n"),
        ],
    );
    assert_eq!(
        t,
        Transcript {
            stdout: "\n==> a <==\na1\na2\n".to_string(),
            stderr: "missing.txt: No such file or directory (os error 2)\n".to_string(),
            failure: None,
        }
    );
}

#[test]
fn every_missing_source_gets_its_line() {
    let t = run(
        config(&["x", "a", "y"], None, Some("1")),
        &vec![
            Source::Unopened("No such file or directory (os error 2)".to_string()),
            content("abc"),
            Source::Unopened("Permission denied (os error 13)".to_string()),
        ],
    );
    assert_eq!(
        t,
        Transcript {
            stdout: "\n==> a <==\na".to_string(),
            stderr: "x: No such file or directory (os error 2)\ny: Permission denied (os error 13)\n"
                .to_string(),
            failure: None,
        }
    );
}

#[test]
fn a_single_missing_source_writes_only_its_line() {
    let t = run(config(&["x"], None, None), &vec![Source::Unopened("gone".to_string())]);
    assert_eq!(
        t,
        Transcript { stdout: String::new(), stderr: "x: gone\n".to_string(), failure: None }
    );
}

#[test]
fn the_default_is_ten_lines_of_standard_input() {
    let config = get_args(Vec::new(), None, None).unwrap();
    assert_eq!(config.sources(), &vec!["-".to_string()]);
    let t = run(config, &vec![content(TWELVE)]);
    assert_eq!(t, written("1\n2\n3\n4\n5\n6\n7\n8\n9\n10\n"));
}

#[test]
fn a_line_that_is_no_text_ends_the_run_behind_the_lines_before_it() {
    let mut data = b"good\n".to_vec();
    data.extend_from_slice(&[b'b', 0xff, b'd', b'\n']);
    data.extend_from_slice(b"more\n");
    let t = run(
        config(&["a", "b"], Some("3"), None),
        &vec![Source::Content(data), content("never\n")],
    );
    assert_eq!(
        t,
        Transcript {
            stdout: "==> a <==\ngood\n".to_string(),
            stderr: String::new(),
            failure: Some("stream did not contain valid UTF-8".to_string()),
        }
    );
}

#[test]
fn a_line_that_is_no_text_does_no_harm_behind_the_count() {
    let mut data = b"good\n".to_vec();
    data.extend_from_slice(&[0xff, b'\n']);
    let t = run(config(&["a"], Some("1"), None), &vec![Source::Content(data)]);
    assert_eq!(t, written("good\n"));
}

#[test]
fn no_sources_to_read_from_are_needed_for_sources_that_are_missing() {
    let t = run(
        config(&["a", "b"], None, None),
        &vec![Source::Unopened("gone".to_string()), Source::Unopened("gone".to_string())],
    );
    assert_eq!(
        t,
        Transcript { stdout: String::new(), stderr: "a: gone\nb: gone\n".to_string(), failure: None }
    );
}
