use espanso_gui::session::{FileId, PairField, State};
use espanso_gui::validate::RootCheck;
use espanso_gui::EditError;

const EMPTY_FILE: &str = "matches: []\n";
const ONE_PAIR_FILE: &str = "matches:\n- trigger: \"hi\"\n  replace: \"hello there\"\n";

fn open_match_file(state: &mut State, content: &str) {
    state
        .request_navigate(FileId::MatchFile("base".to_string()), content)
        .unwrap();
}

#[test]
fn fresh_session_shows_settings_and_is_clean() {
    let s = State::new();
    assert!(matches!(s.selected_nav, FileId::Settings));
    assert_eq!(s.espanso_loc, "");
    assert!(s.match_files.is_empty());
    assert!(!s.is_dirty());
    assert!(s.prompt.is_none());
    assert!(s.nav_queue.is_none());
}

#[test]
fn select_directory_adopts_valid_root() {
    let mut s = State::new();
    let check = RootCheck {
        config_dir_present: true,
        match_dir_present: true,
        default_yml_present: true,
    };
    s.select_directory("/tmp/espanso".to_string(), check, vec!["base".to_string()]);
    assert_eq!(s.espanso_loc, "/tmp/espanso");
    assert_eq!(s.match_files, vec!["base".to_string()]);
}

#[test]
fn select_directory_rejects_invalid_root_silently() {
    let mut s = State::new();
    let check = RootCheck {
        config_dir_present: true,
        match_dir_present: false,
        default_yml_present: true,
    };
    s.select_directory("/bad".to_string(), check, vec!["x".to_string()]);
    assert_eq!(s.espanso_loc, "");
    assert!(s.match_files.is_empty());
}

#[test]
fn loading_a_file_leaves_session_clean() {
    let mut s = State::new();
    open_match_file(&mut s, ONE_PAIR_FILE);
    assert!(matches!(&s.selected_nav, FileId::MatchFile(n) if n == "base"));
    assert!(!s.is_dirty());
    assert_eq!(s.edited_file.matches.len(), 1);
    assert_eq!(s.edited_file.matches[0].trigger, "hi");
    assert_eq!(s.edited_file.matches[0].replace, "hello there");
}

#[test]
fn add_and_edit_make_dirty_and_reset_cleans() {
    let mut s = State::new();
    open_match_file(&mut s, ONE_PAIR_FILE);
    s.add_pair();
    assert!(s.is_dirty());
    s.reset_edits();
    assert!(!s.is_dirty());
    s.edit_pair(0, PairField::Trigger, "other".to_string()).unwrap();
    assert!(s.is_dirty());
    s.reset_edits();
    assert!(!s.is_dirty());
    assert_eq!(s.edited_file.matches[0].trigger, "hi");
}

#[test]
fn navigation_while_dirty_prompts_and_stays() {
    let mut s = State::new();
    open_match_file(&mut s, ONE_PAIR_FILE);
    s.add_pair();
    s.request_navigate(FileId::Settings, "").unwrap();
    assert!(matches!(&s.selected_nav, FileId::MatchFile(n) if n == "base"));
    let p = s.prompt.as_ref().expect("prompt shown");
    assert_eq!(p.title, "Unsaved Changes");
    assert_eq!(p.message, "Leaving this file will erase any unsaved changes.");
    assert!(matches!(s.nav_queue, Some(FileId::Settings)));
}

#[test]
fn confirm_navigates_to_queued_target_exactly_once() {
    let mut s = State::new();
    open_match_file(&mut s, ONE_PAIR_FILE);
    s.add_pair();
    s.request_navigate(FileId::Settings, "").unwrap();
    s.confirm_navigate("").unwrap();
    assert!(matches!(s.selected_nav, FileId::Settings));
    assert!(s.prompt.is_none());
    assert!(s.nav_queue.is_none());
    // The documents were kept, so the session is still dirty and a new
    // request prompts again before the unsaved edit is dropped.
    assert!(s.is_dirty());
    s.request_navigate(FileId::MatchFile("base".to_string()), "").unwrap();
    assert!(matches!(s.selected_nav, FileId::Settings));
    s.confirm_navigate(EMPTY_FILE).unwrap();
    assert!(matches!(&s.selected_nav, FileId::MatchFile(n) if n == "base"));
    assert!(!s.is_dirty());
    // A further confirmation has nothing queued and changes nothing.
    s.confirm_navigate("").unwrap();
    assert!(matches!(&s.selected_nav, FileId::MatchFile(n) if n == "base"));
}

#[test]
fn cancel_drops_prompt_and_queue_without_navigating() {
    let mut s = State::new();
    open_match_file(&mut s, ONE_PAIR_FILE);
    s.add_pair();
    s.request_navigate(FileId::Preferences, EMPTY_FILE).unwrap();
    s.cancel_navigate();
    assert!(matches!(&s.selected_nav, FileId::MatchFile(n) if n == "base"));
    assert!(s.prompt.is_none());
    assert!(s.nav_queue.is_none());
    // The unsaved edit is still there.
    assert!(s.is_dirty());
}

#[test]
fn clean_navigation_is_immediate() {
    let mut s = State::new();
    open_match_file(&mut s, ONE_PAIR_FILE);
    s.request_navigate(FileId::Preferences, EMPTY_FILE).unwrap();
    assert!(matches!(s.selected_nav, FileId::Preferences));
    assert!(s.prompt.is_none());
    assert_eq!(s.edited_file.matches.len(), 0);
}

#[test]
fn malformed_file_is_a_recoverable_format_error() {
    let mut s = State::new();
    let err = s
        .request_navigate(FileId::MatchFile("bad".to_string()), "not yaml at all")
        .unwrap_err();
    assert_eq!(err, EditError::Format);
    assert!(matches!(s.selected_nav, FileId::Settings));
    assert!(!s.is_dirty());
}

#[test]
fn edit_pair_out_of_bounds_fails_and_changes_nothing() {
    let mut s = State::new();
    open_match_file(&mut s, ONE_PAIR_FILE);
    let err = s.edit_pair(1, PairField::Trigger, "x".to_string()).unwrap_err();
    assert_eq!(err, EditError::Index);
    assert!(!s.is_dirty());
    assert_eq!(s.edited_file.matches.len(), 1);
    assert_eq!(s.edited_file.matches[0].trigger, "hi");
}

#[test]
fn edit_save_reload_round_trip() {
    let mut s = State::new();
    open_match_file(&mut s, EMPTY_FILE);
    s.add_pair();
    s.add_pair();
    s.edit_pair(0, PairField::Trigger, "hello".to_string()).unwrap();
    s.edit_pair(0, PairField::Replace, "world".to_string()).unwrap();
    assert!(s.is_dirty());
    let written = s.serialize_edits();
    s.mark_saved();
    assert!(!s.is_dirty());
    // Reopening the written file yields the saved pairs.
    let mut t = State::new();
    open_match_file(&mut t, &written);
    assert_eq!(t.edited_file.matches.len(), 2);
    assert_eq!(t.edited_file.matches[0].trigger, "hello");
    assert_eq!(t.edited_file.matches[0].replace, "world");
    assert_eq!(t.edited_file.matches[1].trigger, "");
    assert_eq!(t.edited_file.matches[1].replace, "");
}

#[test]
fn failed_save_keeps_edits_for_retry() {
    let mut s = State::new();
    open_match_file(&mut s, EMPTY_FILE);
    s.add_pair();
    let _unwritten = s.serialize_edits();
    // The caller's write failed, so mark_saved is never called: the edit
    // is preserved and the session stays dirty.
    assert!(s.is_dirty());
    assert_eq!(s.edited_file.matches.len(), 1);
    assert_eq!(s.original_file.matches.len(), 0);
}

#[test]
fn file_paths_follow_the_root() {
    let mut s = State::new();
    let check = RootCheck {
        config_dir_present: true,
        match_dir_present: true,
        default_yml_present: true,
    };
    s.select_directory("/home/u/espanso".to_string(), check, vec![]);
    assert_eq!(s.file_path_of(&FileId::Settings), None);
    assert_eq!(
        s.file_path_of(&FileId::Preferences),
        Some("/home/u/espanso/config/default.yml".to_string())
    );
    assert_eq!(
        s.file_path_of(&FileId::MatchFile("base".to_string())),
        Some("/home/u/espanso/match/base.yml".to_string())
    );
    // A root that already ends in a separator gets no second one.
    s.select_directory("/home/u/espanso/".to_string(), check, vec![]);
    assert_eq!(
        s.file_path_of(&FileId::MatchFile("base".to_string())),
        Some("/home/u/espanso/match/base.yml".to_string())
    );
}
