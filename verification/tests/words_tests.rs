use media_tagger::words::{command_arguments, expand_words, extract_output_path, find_output_path};

fn words(list: &[&str]) -> Vec<String> {
    list.iter().map(|w| w.to_string()).collect()
}

#[test]
fn output_path_lies_below_home() {
    let found = extract_output_path("-x --foo -o \"~/music/a.mp3\" --bar", Some("/home/u"));
    assert_eq!(found.as_deref(), Some("/home/u/music/a.mp3"));
}

#[test]
fn output_path_is_missing_without_the_flag() {
    assert_eq!(extract_output_path("-x --foo --bar", Some("/home/u")), None);
    assert_eq!(extract_output_path("", Some("/home/u")), None);
}

#[test]
fn output_path_is_missing_for_an_open_quote() {
    assert_eq!(extract_output_path("-o \"~/music/a.mp3", Some("/home/u")), None);
    assert_eq!(extract_output_path("-o 'a.mp3", None), None);
}

#[test]
fn output_path_needs_a_word_after_the_flag() {
    assert_eq!(extract_output_path("-x -o", Some("/home/u")), None);
    assert_eq!(extract_output_path("-o -o x", None).as_deref(), Some("-o"));
    assert_eq!(extract_output_path("-o a -o b", None).as_deref(), Some("a"));
}

#[test]
fn output_path_without_home_keeps_the_tilde() {
    assert_eq!(extract_output_path("-o ~/a.mp3", None).as_deref(), Some("~/a.mp3"));
}

#[test]
fn only_a_leading_tilde_names_home() {
    let home = Some("/home/u");
    assert_eq!(find_output_path(&words(&["-o", "~"]), home).as_deref(), Some("/home/u"));
    assert_eq!(find_output_path(&words(&["-o", "~/x"]), home).as_deref(), Some("/home/u/x"));
    assert_eq!(find_output_path(&words(&["-o", "~other/x"]), home).as_deref(), Some("~other/x"));
    assert_eq!(find_output_path(&words(&["-o", "a/~/x"]), home).as_deref(), Some("a/~/x"));
    assert_eq!(find_output_path(&words(&["x", "-o"]), home), None);
    assert_eq!(find_output_path(&words(&[]), home), None);
}

#[test]
fn arguments_are_cut_like_shell_words() {
    let args = command_arguments("-x  'a b' \"c d\" e\\ f ~/g", Some("/h")).unwrap();
    assert_eq!(args, words(&["-x", "a b", "c d", "e f", "/h/g"]));
}

#[test]
fn blank_line_gives_no_arguments() {
    assert_eq!(command_arguments("", None).unwrap(), Vec::<String>::new());
    assert_eq!(command_arguments(" \t\r\n", None).unwrap(), Vec::<String>::new());
    assert_eq!(command_arguments("\u{a0}", None).unwrap(), Vec::<String>::new());
}

#[test]
fn open_quote_is_refused() {
    assert!(command_arguments("-o \"a", None).is_err());
    assert!(command_arguments("'", Some("/h")).is_err());
}

#[test]
fn every_word_is_expanded() {
    let out = expand_words(&words(&["~", "a", "~/b", "~c"]), Some("/h"));
    assert_eq!(out, words(&["/h", "a", "/h/b", "~c"]));
    let kept = expand_words(&words(&["~", "~/b"]), None);
    assert_eq!(kept, words(&["~", "~/b"]));
}
