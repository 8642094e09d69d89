use pinentry_bitwarden::args::split_ws;

#[test]
fn split_separates_on_runs_of_whitespace() {
    assert_eq!(split_ws("a  b\tc"), vec!["a".to_string(), "b".to_string(), "c".to_string()]);
    assert_eq!(split_ws(" leading and trailing "), vec![
        "leading".to_string(),
        "and".to_string(),
        "trailing".to_string(),
    ]);
}

#[test]
fn split_of_blank_input_is_empty() {
    assert_eq!(split_ws(""), Vec::<String>::new());
    assert_eq!(split_ws(" \t \r\n "), Vec::<String>::new());
}

#[test]
fn split_of_one_word_is_that_word() {
    assert_eq!(split_ws("--start-server"), vec!["--start-server".to_string()]);
}
