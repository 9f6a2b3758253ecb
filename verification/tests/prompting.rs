use path_completion::listing::DirectoryChild;
use path_completion::prompt::{Command, Effect, PromptState};

fn folders(names: &[&str]) -> Vec<DirectoryChild> {
    names.iter().map(|n| DirectoryChild { name: n.to_string(), is_directory: true }).collect()
}

fn typed(text: &str) -> PromptState {
    let mut state = PromptState::new();
    for c in text.chars() {
        assert_eq!(state.apply(Command::InsertChar(c)), Effect::Redraw);
    }
    state
}

fn at_root() -> PromptState {
    let mut state = typed("/");
    state.install_listing(Some(&folders(&["Zebra", "apple", ".git", "Banana"])));
    state.refresh_guess();
    state
}

#[test]
fn new_prompt_is_empty() {
    let state = PromptState::new();
    assert_eq!(state.buffer(), "");
    assert_eq!(state.offset(), 0);
    assert_eq!(state.guess(), "");
    assert_eq!(state.listing().path(), "");
    assert!(state.listing().is_empty());
    assert!(!state.awaits_listing());
    assert_eq!(state.directory_to_read(), None);
}

#[test]
fn characters_are_appended() {
    let state = typed("/usr/lo");
    assert_eq!(state.buffer(), "/usr/lo");
    assert_eq!(state.offset(), 0);
}

#[test]
fn space_is_typed_escaped() {
    let state = typed("/my dir");
    assert_eq!(state.buffer(), "/my\\ dir");
}

#[test]
fn backspace_removes_one_character() {
    let mut state = typed("/usr");
    assert_eq!(state.apply(Command::Backspace), Effect::Redraw);
    assert_eq!(state.buffer(), "/us");
    let mut state = typed("/a b");
    state.apply(Command::Backspace);
    assert_eq!(state.buffer(), "/a\\ ");
    state.apply(Command::Backspace);
    assert_eq!(state.buffer(), "/a\\");
    let mut state = typed("é");
    state.apply(Command::Backspace);
    assert_eq!(state.buffer(), "");
}

#[test]
fn backspace_on_empty_text_changes_nothing() {
    let mut state = PromptState::new();
    assert_eq!(state.apply(Command::Backspace), Effect::Redraw);
    assert_eq!(state.buffer(), "");
    assert_eq!(state.offset(), 0);
}

#[test]
fn cycling_moves_the_offset_by_one() {
    let mut state = at_root();
    assert_eq!(state.apply(Command::CycleNext), Effect::Redraw);
    assert_eq!(state.offset(), 1);
    state.apply(Command::CycleNext);
    assert_eq!(state.offset(), 2);
    state.apply(Command::CyclePrev);
    state.apply(Command::CyclePrev);
    assert_eq!(state.apply(Command::CyclePrev), Effect::Redraw);
    assert_eq!(state.offset(), -1);
    assert_eq!(state.buffer(), "/");
}

#[test]
fn cycling_is_not_clamped_to_the_listing() {
    let mut state = at_root();
    for _ in 0..9 {
        state.apply(Command::CycleNext);
    }
    assert_eq!(state.offset(), 9);
    state.refresh_guess();
    assert_eq!(state.guess(), "Banana");
}

#[test]
fn cycling_shows_each_subfolder() {
    let mut state = at_root();
    assert_eq!(state.guess(), "apple");
    state.apply(Command::CycleNext);
    state.refresh_guess();
    assert_eq!(state.guess(), "Banana");
    state.apply(Command::CyclePrev);
    state.apply(Command::CyclePrev);
    state.refresh_guess();
    assert_eq!(state.guess(), ".git");
}

#[test]
fn command_withdraws_the_suggestion() {
    let mut state = at_root();
    assert_eq!(state.guess(), "apple");
    state.apply(Command::CycleNext);
    assert_eq!(state.guess(), "");
}

#[test]
fn accept_appends_suggestion_and_separator() {
    let mut state = at_root();
    state.apply(Command::InsertChar('b'));
    state.refresh_guess();
    assert_eq!(state.guess(), "anana");
    assert_eq!(state.apply(Command::Accept), Effect::Redraw);
    assert_eq!(state.buffer(), "/banana/");
    assert_eq!(state.offset(), 0);
}

#[test]
fn accept_resets_the_offset() {
    let mut state = at_root();
    state.apply(Command::CycleNext);
    state.apply(Command::CycleNext);
    state.refresh_guess();
    assert_eq!(state.guess(), "Zebra");
    state.apply(Command::Accept);
    assert_eq!(state.buffer(), "/Zebra/");
    assert_eq!(state.offset(), 0);
}

#[test]
fn accept_without_suggestion_changes_nothing() {
    let mut state = at_root();
    state.apply(Command::CycleNext);
    state.apply(Command::InsertChar('q'));
    state.refresh_guess();
    assert_eq!(state.guess(), "");
    assert_eq!(state.apply(Command::Accept), Effect::Redraw);
    assert_eq!(state.buffer(), "/q");
    assert_eq!(state.offset(), 1);
}

#[test]
fn offset_starts_again_in_another_directory() {
    let mut state = at_root();
    state.apply(Command::CycleNext);
    state.apply(Command::InsertChar('x'));
    assert_eq!(state.offset(), 1);
    state.apply(Command::InsertChar('/'));
    assert_eq!(state.offset(), 0);
    state.apply(Command::CyclePrev);
    assert_eq!(state.offset(), -1);
    state.apply(Command::Backspace);
    assert_eq!(state.buffer(), "/x");
    assert_eq!(state.offset(), 0);
}

#[test]
fn submit_and_quit_leave_the_text() {
    let mut state = at_root();
    state.apply(Command::CycleNext);
    assert_eq!(state.apply(Command::Submit), Effect::Open);
    assert_eq!(state.buffer(), "/");
    assert_eq!(state.offset(), 1);
    assert_eq!(state.apply(Command::Quit), Effect::Quit);
    assert_eq!(state.buffer(), "/");
    assert_eq!(state.offset(), 1);
}

#[test]
fn submission_is_the_text_where_it_is_a_valid_path() {
    assert_eq!(typed("/").submission(), Some("/".to_string()));
    assert_eq!(typed("/no-such-directory-a81f3c/").submission(), None);
    assert_eq!(typed("/.").submission(), None);
    assert_eq!(typed("").submission(), None);
}

#[test]
fn submission_when_follows_validity() {
    assert_eq!(typed("/usr/").submission_when(true), Some("/usr/".to_string()));
    assert_eq!(typed("/usr/").submission_when(false), None);
    assert_eq!(typed("").submission_when(false), None);
}

#[test]
fn directory_to_read_when_needs_stale_listing_and_valid_path() {
    let state = typed("/usr/lo");
    assert_eq!(state.directory_to_read_when(true), Some("/usr/".to_string()));
    assert_eq!(state.directory_to_read_when(false), None);
    let state = at_root();
    assert_eq!(state.directory_to_read_when(true), None);
    assert_eq!(state.directory_to_read_when(false), None);
    let state = PromptState::new();
    assert_eq!(state.directory_to_read_when(true), None);
}

#[test]
fn one_read_serves_every_key_in_the_same_directory() {
    let mut state = PromptState::new();
    let mut reads = 0;
    let keys = [
        Command::InsertChar('/'),
        Command::InsertChar('a'),
        Command::InsertChar('p'),
        Command::CycleNext,
        Command::Backspace,
        Command::Backspace,
        Command::CyclePrev,
        Command::InsertChar('Z'),
        Command::Submit,
    ];
    for key in keys {
        state.apply(key);
        if let Some(directory) = state.directory_to_read_when(true) {
            reads += 1;
            assert_eq!(directory, "/");
            state.install_listing(Some(&folders(&["apple", "Zebra"])));
        }
        state.refresh_guess_when(true);
    }
    assert_eq!(reads, 1);
    assert_eq!(state.buffer(), "/Z");
    assert_eq!(state.guess(), "ebra");
    state.apply(Command::Accept);
    assert_eq!(state.buffer(), "/Zebra/");
    if let Some(directory) = state.directory_to_read_when(true) {
        reads += 1;
        assert_eq!(directory, "/Zebra/");
        state.install_listing(Some(&folders(&["stripes"])));
    }
    state.refresh_guess_when(true);
    assert_eq!(reads, 2);
    assert_eq!(state.listing().path(), "/Zebra/");
    assert_eq!(state.guess(), "stripes");
}

#[test]
fn directory_is_read_when_the_text_names_another() {
    let state = typed("/");
    assert!(state.awaits_listing());
    assert_eq!(state.directory_to_read(), Some("/".to_string()));
}

#[test]
fn missing_directory_is_not_read() {
    let state = typed("/no-such-directory-a81f3c/");
    assert!(state.awaits_listing());
    assert_eq!(state.directory_to_read(), None);
}

#[test]
fn same_directory_is_not_read_twice() {
    let mut state = at_root();
    assert!(!state.awaits_listing());
    assert_eq!(state.directory_to_read(), None);
    for command in [
        Command::InsertChar('a'),
        Command::InsertChar('p'),
        Command::CycleNext,
        Command::Backspace,
        Command::CyclePrev,
        Command::Submit,
        Command::Backspace,
    ] {
        state.apply(command);
        assert!(!state.awaits_listing());
        assert_eq!(state.directory_to_read(), None);
        state.refresh_guess();
    }
    assert_eq!(state.buffer(), "/");
}

#[test]
fn listing_is_kept_while_another_directory_is_missing() {
    let mut state = at_root();
    for c in "no-such-directory-a81f3c/".chars() {
        state.apply(Command::InsertChar(c));
    }
    assert!(state.awaits_listing());
    assert_eq!(state.directory_to_read(), None);
    state.refresh_guess();
    assert_eq!(state.guess(), "");
    assert_eq!(state.listing().path(), "/");
    for _ in 0.."no-such-directory-a81f3c/".len() {
        state.apply(Command::Backspace);
    }
    assert_eq!(state.buffer(), "/");
    assert_eq!(state.directory_to_read(), None);
    state.refresh_guess();
    assert_eq!(state.guess(), "apple");
}

#[test]
fn stale_listing_suggests_nothing() {
    let mut state = typed("/elsewhere/");
    state.install_listing(Some(&folders(&["apple"])));
    state.refresh_guess_when(true);
    assert_eq!(state.guess(), "apple");
    state.apply(Command::InsertChar('a'));
    state.apply(Command::InsertChar('/'));
    assert!(state.awaits_listing());
    state.refresh_guess_when(true);
    assert_eq!(state.guess(), "");
    state.refresh_guess();
    assert_eq!(state.guess(), "");
}

#[test]
fn installed_listing_is_of_the_directory_in_the_text() {
    let mut state = typed("/usr/lo");
    state.install_listing(Some(&folders(&["local", "lib", ".cache"])));
    assert_eq!(state.listing().path(), "/usr/");
    assert_eq!(state.listing().ordered_names(), &vec!["lib", "local", ".cache"]);
    assert!(!state.awaits_listing());
    assert_eq!(state.buffer(), "/usr/lo");
    state.refresh_guess_when(true);
    assert_eq!(state.guess(), "cal");
}

#[test]
fn unreadable_directory_leaves_an_empty_listing() {
    let mut state = at_root();
    for c in "private/".chars() {
        state.apply(Command::InsertChar(c));
    }
    assert_eq!(state.directory_to_read_when(true), Some("/private/".to_string()));
    state.install_listing(None);
    assert_eq!(state.listing().path(), "/private/");
    assert!(state.listing().is_empty());
    assert_eq!(state.directory_to_read_when(true), None);
    state.refresh_guess_when(true);
    assert_eq!(state.guess(), "");
}

#[test]
fn refresh_when_directory_is_gone_suggests_nothing() {
    let mut state = at_root();
    state.refresh_guess_when(false);
    assert_eq!(state.guess(), "");
    state.refresh_guess_when(true);
    assert_eq!(state.guess(), "apple");
}

#[test]
fn suggestion_follows_the_typed_segment() {
    let mut state = at_root();
    state.apply(Command::InsertChar('Z'));
    state.refresh_guess();
    assert_eq!(state.guess(), "ebra");
    state.apply(Command::InsertChar('e'));
    state.refresh_guess();
    assert_eq!(state.guess(), "bra");
    state.apply(Command::InsertChar('x'));
    state.refresh_guess();
    assert_eq!(state.guess(), "");
}

#[test]
fn frame_places_the_cursor_behind_the_text() {
    let mut state = at_root();
    state.apply(Command::InsertChar('b'));
    state.refresh_guess();
    let frame = state.frame("GOTO : ");
    assert_eq!(frame.label, "GOTO : ");
    assert_eq!(frame.buffer, "/b");
    assert_eq!(frame.suggestion, "anana");
    assert_eq!(frame.cursor_column, 10);
    let frame = PromptState::new().frame("");
    assert_eq!(frame.cursor_column, 1);
    let frame = typed("/é").frame("> ");
    assert_eq!(frame.cursor_column, 5);
}
