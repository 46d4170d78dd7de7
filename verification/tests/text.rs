use metric_census::text::{ends_with, join_lines, same_text, split_lines, starts_with, to_chars};

fn std_lines(text: &str) -> Vec<String> {
    text.lines().map(|line| line.to_string()).collect()
}

fn chars(text: &str) -> Vec<char> {
    text.chars().collect()
}

#[test]
fn split_lines_of_empty_text_is_empty() {
    assert_eq!(split_lines(""), Vec::<String>::new());
}

#[test]
fn split_lines_without_line_feed_is_one_line() {
    assert_eq!(split_lines("abc"), vec!["abc".to_string()]);
}

#[test]
fn split_lines_drops_final_line_feed() {
    assert_eq!(split_lines("a\nb\n"), vec!["a".to_string(), "b".to_string()]);
}

#[test]
fn split_lines_keeps_empty_lines() {
    assert_eq!(
        split_lines("a\n\nb"),
        vec!["a".to_string(), "".to_string(), "b".to_string()]
    );
    assert_eq!(split_lines("\n"), vec!["".to_string()]);
    assert_eq!(split_lines("\n\n"), vec!["".to_string(), "".to_string()]);
}

#[test]
fn split_lines_strips_carriage_return_before_line_feed() {
    assert_eq!(split_lines("a\r\nb\r\n"), vec!["a".to_string(), "b".to_string()]);
    assert_eq!(split_lines("\r\n"), vec!["".to_string()]);
}

#[test]
fn split_lines_strips_only_one_carriage_return() {
    assert_eq!(split_lines("a\r\r\nb"), vec!["a\r".to_string(), "b".to_string()]);
}

#[test]
fn split_lines_keeps_carriage_return_elsewhere() {
    assert_eq!(split_lines("a\rb"), vec!["a\rb".to_string()]);
    assert_eq!(split_lines("a\r"), vec!["a\r".to_string()]);
    assert_eq!(split_lines("\r"), vec!["\r".to_string()]);
    assert_eq!(split_lines("x\n\r"), vec!["x".to_string(), "\r".to_string()]);
}

#[test]
fn split_lines_agrees_with_std() {
    let samples = [
        "",
        "a",
        "a\n",
        "a\nb",
        "a\r\nb",
        "a\r",
        "\r\r",
        "\r\r\n",
        "\n\r\n\r",
        "{\"k\":1}\n[1,2]\n\n\"s\"\r\n",
        "caf\u{e9}\n\u{1f600} smile\r\n\u{4e2d}\u{6587}",
        "one\ntwo\r\rthree\r\nfour\n\n\n",
    ];
    for sample in samples {
        assert_eq!(split_lines(sample), std_lines(sample), "sample {:?}", sample);
    }
}

#[test]
fn join_lines_of_nothing_is_empty() {
    assert_eq!(join_lines(&Vec::new()), "");
}

#[test]
fn join_lines_of_one_name_has_no_line_feed() {
    assert_eq!(join_lines(&vec!["a".to_string()]), "a");
}

#[test]
fn join_lines_of_two_names_has_no_trailing_line_feed() {
    assert_eq!(join_lines(&vec!["a".to_string(), "b".to_string()]), "a\nb");
    assert_eq!(join_lines(&vec!["b".to_string(), "a".to_string()]), "b\na");
}

#[test]
fn join_lines_keeps_empty_names() {
    assert_eq!(
        join_lines(&vec!["".to_string(), "x".to_string(), "".to_string()]),
        "\nx\n"
    );
}

#[test]
fn join_lines_agrees_with_std() {
    let names = vec!["\"a\"".to_string(), "\"b c\"".to_string(), "12".to_string()];
    assert_eq!(join_lines(&names), names.join("\n"));
}

#[test]
fn split_lines_undoes_join_lines() {
    let names = vec!["alpha".to_string(), "beta".to_string(), "gamma".to_string()];
    assert_eq!(split_lines(&join_lines(&names)), names);
}

#[test]
fn to_chars_gives_every_character() {
    assert_eq!(to_chars(""), Vec::<char>::new());
    assert_eq!(to_chars("ab"), vec!['a', 'b']);
    assert_eq!(to_chars("\u{e9}\u{1f600}"), vec!['\u{e9}', '\u{1f600}']);
}

#[test]
fn starts_with_compares_the_front() {
    assert!(starts_with(&chars("metrics.out"), &chars("metrics")));
    assert!(starts_with(&chars("metrics"), &chars("metrics")));
    assert!(starts_with(&chars("abc"), &chars("")));
    assert!(!starts_with(&chars("metric"), &chars("metrics")));
    assert!(!starts_with(&chars("xmetrics"), &chars("metrics")));
    assert!(!starts_with(&chars("metricz"), &chars("metrics")));
}

#[test]
fn ends_with_compares_the_back() {
    assert!(ends_with(&chars("metrics.out"), &chars(".out")));
    assert!(ends_with(&chars(".out"), &chars(".out")));
    assert!(ends_with(&chars("abc"), &chars("")));
    assert!(!ends_with(&chars("out"), &chars(".out")));
    assert!(!ends_with(&chars("a.out.gz"), &chars(".out")));
    assert!(!ends_with(&chars("a.oux"), &chars(".out")));
}

#[test]
fn same_text_is_equality() {
    assert!(same_text("true", "true"));
    assert!(same_text("", ""));
    assert!(!same_text("true", "True"));
    assert!(!same_text("true", "tru"));
    assert!(!same_text("tru", "true"));
    assert!(!same_text("", "x"));
}
