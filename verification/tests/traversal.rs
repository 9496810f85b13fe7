use licensesnip::Action;
use licensesnip::ApplyOutcome;
use licensesnip::CommentStyle;
use licensesnip::Config;
use licensesnip::Entry;
use licensesnip::FiletypeRule;
use licensesnip::Runner;
use licensesnip::apply_header;
use licensesnip::extension_of;

fn two_rule_config() -> Config {
    let mut config = Config::new();
    let added_rs = config.add_rule(FiletypeRule {
        extension: b"rs".to_vec(),
        enabled: true,
        style: CommentStyle::LinePrefix { prefix: b"// ".to_vec() },
    });
    let added_py = config.add_rule(FiletypeRule {
        extension: b"py".to_vec(),
        enabled: false,
        style: CommentStyle::LinePrefix { prefix: b"# ".to_vec() },
    });
    assert!(added_rs && added_py);
    config
}

fn template() -> Vec<Vec<u8>> {
    vec![b"Copyright {{year}} {{file}}".to_vec()]
}

#[test]
fn extension_is_last_dot_segment() {
    assert_eq!(extension_of(&b"a.b.rs".to_vec()), Some(b"rs".to_vec()));
    assert_eq!(extension_of(&b"main.go".to_vec()), Some(b"go".to_vec()));
    assert_eq!(extension_of(&b"Makefile".to_vec()), None);
    assert_eq!(extension_of(&b"trailing.".to_vec()), Some(b"".to_vec()));
    assert_eq!(extension_of(&b".gitignore".to_vec()), Some(b"gitignore".to_vec()));
}

#[test]
fn no_dot_never_matches_any_rule() {
    let config = two_rule_config();
    let mut runner = Runner::new(config, template(), 2022);
    let action = runner.visit_entry(&Entry::File { name: b"rs".to_vec() });
    assert!(matches!(action, Action::Skip));
    assert_eq!(runner.filetypes_matched, 0);
    assert_eq!(runner.files_changed, 0);
}

#[test]
fn enabled_rule_yields_exact_header() {
    let config = two_rule_config();
    let mut runner = Runner::new(config, template(), 2022);
    let action = runner.visit_entry(&Entry::File { name: b"lib.rs".to_vec() });
    match action {
        Action::Apply { header } => assert_eq!(header, b"// Copyright 2022 lib.rs".to_vec()),
        Action::Skip => panic!("an enabled rule must yield a header"),
    }
    assert_eq!(runner.filetypes_matched, 1);
    assert_eq!(runner.files_changed, 0);
}

#[test]
fn resolution_uses_last_dot_segment() {
    let config = two_rule_config();
    let mut runner = Runner::new(config, template(), 2022);
    let action = runner.visit_entry(&Entry::File { name: b"a.b.rs".to_vec() });
    match action {
        Action::Apply { header } => assert_eq!(header, b"// Copyright 2022 a.b.rs".to_vec()),
        Action::Skip => panic!("the rs rule must match a.b.rs"),
    }
    assert_eq!(runner.filetypes_matched, 1);
}

#[test]
fn disabled_rule_matches_but_never_mutates() {
    let config = two_rule_config();
    let mut runner = Runner::new(config, template(), 2022);
    let action = runner.visit_entry(&Entry::File { name: b"setup.py".to_vec() });
    assert!(matches!(action, Action::Skip));
    assert_eq!(runner.filetypes_matched, 1);
    assert_eq!(runner.files_changed, 0);
}

#[test]
fn non_file_entries_change_nothing() {
    let config = two_rule_config();
    let mut runner = Runner::new(config, template(), 2022);
    let action = runner.visit_entry(&Entry::NonFile);
    assert!(matches!(action, Action::Skip));
    assert_eq!(runner.filetypes_matched, 0);
    assert_eq!(runner.files_changed, 0);
}

#[test]
fn unconfigured_extensions_trigger_zero_match_warning() {
    let config = two_rule_config();
    let mut runner = Runner::new(config, template(), 2022);
    assert!(matches!(runner.visit_entry(&Entry::File { name: b"notes.txt".to_vec() }), Action::Skip));
    assert!(matches!(runner.visit_entry(&Entry::File { name: b"plain".to_vec() }), Action::Skip));
    assert!(matches!(runner.visit_entry(&Entry::NonFile), Action::Skip));
    let summary = runner.summary();
    assert_eq!(summary.filetypes_matched, 0);
    assert_eq!(summary.files_changed, 0);
    assert!(runner.zero_match_warning());
}

#[test]
fn record_added_counts_changed_files() {
    let config = two_rule_config();
    let mut runner = Runner::new(config, template(), 2022);
    let _ = runner.visit_entry(&Entry::File { name: b"lib.rs".to_vec() });
    runner.record_added();
    let summary = runner.summary();
    assert_eq!(summary.files_changed, 1);
    assert_eq!(summary.filetypes_matched, 1);
    assert!(!runner.zero_match_warning());
}

#[test]
fn insert_once_then_second_run_changes_nothing() {
    let config = two_rule_config();
    let mut runner = Runner::new(config, template(), 2022);
    let entry = Entry::File { name: b"main.rs".to_vec() };
    let header = match runner.visit_entry(&entry) {
        Action::Apply { header } => header,
        Action::Skip => panic!("the rs rule is enabled"),
    };
    let content = b"fn main() {}\n".to_vec();
    let once = match apply_header(&content, &header) {
        ApplyOutcome::Added { new_content } => {
            runner.record_added();
            new_content
        }
        ApplyOutcome::AlreadyPresent => panic!("the header was not present yet"),
    };
    assert_eq!(once, b"// Copyright 2022 main.rs\nfn main() {}\n".to_vec());
    let header_again = match runner.visit_entry(&entry) {
        Action::Apply { header } => header,
        Action::Skip => panic!("the rs rule is still enabled"),
    };
    assert_eq!(header, header_again);
    assert!(matches!(apply_header(&once, &header_again), ApplyOutcome::AlreadyPresent));
    let summary = runner.summary();
    assert_eq!(summary.files_changed, 1);
    assert_eq!(summary.filetypes_matched, 2);
}

#[test]
fn duplicate_extension_is_rejected() {
    let mut config = two_rule_config();
    let added_again = config.add_rule(FiletypeRule {
        extension: b"rs".to_vec(),
        enabled: false,
        style: CommentStyle::LinePrefix { prefix: b"-- ".to_vec() },
    });
    assert!(!added_again);
    let found = config.resolve(&b"rs".to_vec()).expect("rs stays configured");
    assert!(found.enabled);
    assert!(config.resolve(&b"toml".to_vec()).is_none());
}
