use resh::posix::{quote, quote_remote_path};

#[test]
fn quoting_wraps_the_value_in_single_quotes() {
    assert_eq!(quote(""), "''");
    assert_eq!(quote("plain"), "'plain'");
    assert_eq!(quote("it's"), "'it'\\''s'");
    assert_eq!(
        quote("- name '雪';$(touch nope) & * ?"),
        "'- name '\\''雪'\\'';$(touch nope) & * ?'"
    );
}

#[test]
fn a_leading_tilde_stands_for_the_remote_home_directory() {
    assert_eq!(quote_remote_path("~"), "\"$HOME\"");
    assert_eq!(quote_remote_path("~/"), "\"$HOME\"");
    assert_eq!(quote_remote_path("/absolute/path"), "'/absolute/path'");
    assert_eq!(
        quote_remote_path("~/dir with ' quote/雪"),
        "\"$HOME\"/'dir with '\\'' quote/雪'"
    );
    assert_eq!(quote_remote_path("~user"), "'~user'");
}
