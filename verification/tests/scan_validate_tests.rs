use espanso_gui::scan::{get_all_match_file_stems, DirEntryInfo};
use espanso_gui::validate::{config_path_from_output, valid_espanso_dir, RootCheck};

fn entry(is_file: bool, name: &str) -> DirEntryInfo {
    DirEntryInfo { is_file, name: name.to_string() }
}

#[test]
fn stems_of_mixed_directory() {
    // A walk of a directory holding a.yml, b.yaml, c.yml and sub/d.yml.
    let entries = vec![
        entry(false, "match"),
        entry(true, "a.yml"),
        entry(true, "b.yaml"),
        entry(true, "c.yml"),
        entry(false, "sub"),
        entry(true, "d.yml"),
    ];
    let stems = get_all_match_file_stems(&entries);
    assert_eq!(stems, vec!["a".to_string(), "c".to_string(), "d".to_string()]);
}

#[test]
fn stems_ignore_directories_named_like_match_files() {
    let entries = vec![entry(false, "odd.yml"), entry(true, "real.yml")];
    assert_eq!(get_all_match_file_stems(&entries), vec!["real".to_string()]);
}

#[test]
fn stems_keep_inner_dots() {
    let entries = vec![entry(true, "a.b.yml")];
    assert_eq!(get_all_match_file_stems(&entries), vec!["a.b".to_string()]);
}

#[test]
fn hidden_file_has_no_extension() {
    // A leading dot marks a hidden file, not an extension.
    let entries = vec![entry(true, ".yml"), entry(true, "plain")];
    assert_eq!(get_all_match_file_stems(&entries), Vec::<String>::new());
}

#[test]
fn valid_root_needs_all_three_entries() {
    let all = RootCheck {
        config_dir_present: true,
        match_dir_present: true,
        default_yml_present: true,
    };
    assert!(valid_espanso_dir(&all));
    let no_config = RootCheck { config_dir_present: false, ..all };
    assert!(!valid_espanso_dir(&no_config));
    let no_match = RootCheck { match_dir_present: false, ..all };
    assert!(!valid_espanso_dir(&no_match));
    let no_default = RootCheck { default_yml_present: false, ..all };
    assert!(!valid_espanso_dir(&no_default));
}

#[test]
fn config_path_read_from_report() {
    let report = "Config: /home/u/.config/espanso\nPackages: /x\n";
    assert_eq!(
        config_path_from_output(report),
        Some("/home/u/.config/espanso".to_string())
    );
}

#[test]
fn config_path_needs_the_prefix() {
    assert_eq!(config_path_from_output("Packages: /x\n"), None);
    assert_eq!(config_path_from_output(""), None);
    assert_eq!(config_path_from_output("Config:\n"), None);
}

#[test]
fn config_path_from_single_line_report() {
    assert_eq!(config_path_from_output("Config: /a/b"), Some("/a/b".to_string()));
}
