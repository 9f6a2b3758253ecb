use path_completion::path::{
    check_name_char, check_segment, classify_char, get_last_input, get_path_from_input,
    has_final_separator, is_valid_path, is_valid_path_when, parse, split_point, SEPARATOR,
};

fn chars(s: &str) -> Vec<char> {
    s.chars().collect()
}

#[test]
fn separator_is_slash() {
    assert_eq!(SEPARATOR, '/');
}

#[test]
fn directory_is_everything_up_to_last_separator() {
    assert_eq!(get_path_from_input("/usr/lo"), "/usr/");
    assert_eq!(get_path_from_input("/usr/local/"), "/usr/local/");
    assert_eq!(get_path_from_input("/"), "/");
    assert_eq!(get_path_from_input("/u"), "/");
    assert_eq!(get_path_from_input("a/b/c"), "a/b/");
    assert_eq!(get_path_from_input("//"), "//");
}

#[test]
fn directory_is_empty_without_separator() {
    assert_eq!(get_path_from_input(""), "");
    assert_eq!(get_path_from_input("usr"), "");
    assert_eq!(get_path_from_input("~"), "");
}

#[test]
fn directory_may_hold_any_characters() {
    assert_eq!(get_path_from_input("/my dir/$x/é/par"), "/my dir/$x/é/");
}

#[test]
fn partial_is_what_follows_last_separator() {
    assert_eq!(get_last_input("/usr/lo"), "lo");
    assert_eq!(get_last_input("/usr/local/"), "");
    assert_eq!(get_last_input("/"), "");
    assert_eq!(get_last_input("/u"), "u");
    assert_eq!(get_last_input("a/b/c"), "c");
    assert_eq!(get_last_input("/x/My_file-2.tar"), "My_file-2.tar");
    assert_eq!(get_last_input("/x/."), ".");
    assert_eq!(get_last_input("/x/.."), "..");
}

#[test]
fn partial_is_empty_without_separator() {
    assert_eq!(get_last_input(""), "");
    assert_eq!(get_last_input("usr"), "");
}

#[test]
fn partial_takes_escaped_spaces() {
    assert_eq!(get_last_input("/x/my\\ dir"), "my\\ dir");
    assert_eq!(get_last_input("/x/my\\ "), "my\\ ");
    assert_eq!(get_last_input("/x/\\ "), "\\ ");
    assert_eq!(get_last_input("/x/a\\ \\ b"), "a\\ \\ b");
}

#[test]
fn partial_is_empty_with_other_characters() {
    assert_eq!(get_last_input("/x/my dir"), "");
    assert_eq!(get_last_input("/x/my\\"), "");
    assert_eq!(get_last_input("/x/my\\dir"), "");
    assert_eq!(get_last_input("/x/my\\\\ dir"), "");
    assert_eq!(get_last_input("/x/my\\  dir"), "");
    assert_eq!(get_last_input("/x/ "), "");
    assert_eq!(get_last_input("/x/a$b"), "");
    assert_eq!(get_last_input("/x/a+b"), "");
    assert_eq!(get_last_input("/x/a~"), "");
    assert_eq!(get_last_input("/x/a\tb"), "");
}

#[test]
fn partial_takes_letters_and_digits_of_any_script() {
    assert_eq!(get_last_input("/x/é"), "é");
    assert_eq!(get_last_input("/x/Música2"), "Música2");
    assert_eq!(get_last_input("/x/日本語"), "日本語");
    assert_eq!(get_last_input("/x/٣"), "٣");
    assert_eq!(get_last_input("/x/a€"), "");
    assert_eq!(get_last_input("/x/a→"), "");
}

#[test]
fn parse_gives_both_parts() {
    let parsed = parse("/usr/lo");
    assert_eq!(parsed.directory_path, "/usr/");
    assert_eq!(parsed.partial_segment, "lo");
    let parsed = parse("usr");
    assert_eq!(parsed.directory_path, "");
    assert_eq!(parsed.partial_segment, "");
    let parsed = parse("/a/b c");
    assert_eq!(parsed.directory_path, "/a/");
    assert_eq!(parsed.partial_segment, "");
    let parsed = parse("");
    assert_eq!(parsed.directory_path, "");
    assert_eq!(parsed.partial_segment, "");
}

#[test]
fn split_point_counts_characters() {
    assert_eq!(split_point(&chars("/é/x")), 3);
    assert_eq!(split_point(&chars("éé")), 0);
    assert_eq!(split_point(&chars("")), 0);
    assert_eq!(split_point(&chars("a/")), 2);
}

#[test]
fn check_segment_starts_where_told() {
    assert!(check_segment(&chars("/x/ab"), 3));
    assert!(check_segment(&chars("/x/ab"), 5));
    assert!(!check_segment(&chars("/x/ab"), 2));
    assert!(check_segment(&chars("a\\ b"), 0));
    assert!(!check_segment(&chars("a\\ b"), 2));
    assert!(check_segment(&chars("a\\ b"), 3));
}

#[test]
fn classify_char_takes_ascii_by_range() {
    for c in ['a', 'm', 'z', 'A', 'Q', 'Z', '0', '5', '9', '_', '.', '-'] {
        assert!(classify_char(c, false), "{:?}", c);
        assert!(classify_char(c, true), "{:?}", c);
    }
    for c in [' ', '\\', '/', '$', '+', '~', '@', '[', '`', '{', ':', '\x7f', '\0', '\t'] {
        assert!(!classify_char(c, false), "{:?}", c);
        assert!(!classify_char(c, true), "{:?}", c);
    }
}

#[test]
fn classify_char_asks_unicode_beyond_ascii() {
    assert!(classify_char('é', true));
    assert!(!classify_char('é', false));
    assert!(classify_char('\u{80}', true));
    assert!(!classify_char('\u{80}', false));
}

#[test]
fn check_name_char_knows_letters() {
    assert!(check_name_char('a'));
    assert!(check_name_char('é'));
    assert!(check_name_char('ß'));
    assert!(check_name_char('語'));
    assert!(check_name_char('_'));
    assert!(!check_name_char('€'));
    assert!(!check_name_char(' '));
    assert!(!check_name_char('\\'));
    assert!(!check_name_char('/'));
    assert!(!check_name_char('\u{a0}'));
}

#[test]
fn final_separator_is_seen() {
    assert!(has_final_separator("/"));
    assert!(has_final_separator("/usr/"));
    assert!(has_final_separator("é/"));
    assert!(!has_final_separator(""));
    assert!(!has_final_separator("/usr"));
    assert!(!has_final_separator("/usr/ "));
}

#[test]
fn valid_path_needs_separator_and_existence() {
    assert!(is_valid_path_when("/usr/", true));
    assert!(!is_valid_path_when("/usr/", false));
    assert!(!is_valid_path_when("/usr", true));
    assert!(!is_valid_path_when("/usr", false));
    assert!(!is_valid_path_when("", true));
}

#[test]
fn root_is_a_valid_path() {
    assert!(is_valid_path("/"));
}

#[test]
fn missing_directory_is_no_valid_path() {
    assert!(!is_valid_path("/no-such-directory-a81f3c/"));
    assert!(!is_valid_path("/no-such-directory-a81f3c/deeper/"));
}

#[test]
fn path_without_final_separator_is_not_valid() {
    assert!(!is_valid_path(""));
    assert!(!is_valid_path("/."));
    assert!(!is_valid_path("."));
}
