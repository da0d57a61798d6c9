use dotman::{
    has_unique_elements, home_dir, ApplyAction, ConfigFile, LinkOutcome, LinkedFile,
};

fn sample() -> ConfigFile {
    let mut c = ConfigFile::new("/home/u/dots".to_string());
    c.managed_paths.push(LinkedFile::new("a".to_string(), None));
    c.managed_paths
        .push(LinkedFile::new("b".to_string(), Some("/etc/b".to_string())));
    c
}

#[test]
fn new_config_is_empty() {
    let c = ConfigFile::new("/h".to_string());
    assert_eq!(c.home_path, "/h");
    assert!(c.managed_paths.is_empty());
    assert_eq!(c.remote_url, None);
    assert!(!c.git_init);
    assert_eq!(home_dir(&c), "/h");
}

#[test]
fn paths_iter_lists_sources_and_destinations() {
    let c = sample();
    assert_eq!(
        c.paths_iter(),
        vec![
            ("a".to_string(), None),
            ("b".to_string(), Some("/etc/b".to_string()))
        ]
    );
}

#[test]
fn unique_elements() {
    let mut items = vec![
        LinkedFile::new("a".to_string(), None),
        LinkedFile::new("a".to_string(), Some("x".to_string())),
    ];
    assert!(has_unique_elements(&items));
    items.push(LinkedFile::new("a".to_string(), None));
    assert!(!has_unique_elements(&items));
    assert!(has_unique_elements(&Vec::new()));
}

#[test]
fn unlink_clears_destination() {
    let mut c = sample();
    c.unlink_source(&"b".to_string());
    assert_eq!(c.managed_paths[1].destination, None);
    assert_eq!(c.managed_paths[0], LinkedFile::new("a".to_string(), None));
}

#[test]
fn remove_drops_first_match() {
    let mut c = sample();
    assert!(c.remove_source(&"a".to_string()));
    assert_eq!(c.managed_paths.len(), 1);
    assert_eq!(c.managed_paths[0].source, "b");
    assert!(!c.remove_source(&"zzz".to_string()));
    assert_eq!(c.managed_paths.len(), 1);
}

#[test]
fn link_outcomes() {
    let mut c = sample();
    assert_eq!(
        c.link_source(&"a".to_string(), "/x".to_string()),
        LinkOutcome::Linked
    );
    assert_eq!(c.managed_paths[0].destination, Some("/x".to_string()));
    assert_eq!(
        c.link_source(&"b".to_string(), "/y".to_string()),
        LinkOutcome::Relinked
    );
    assert_eq!(c.managed_paths[1].destination, Some("/y".to_string()));
    assert_eq!(
        c.link_source(&"c".to_string(), "/z".to_string()),
        LinkOutcome::NotManaged
    );
    c.managed_paths.push(LinkedFile::new("a".to_string(), None));
    assert_eq!(
        c.link_source(&"a".to_string(), "/w".to_string()),
        LinkOutcome::DuplicateSource
    );
    assert_eq!(c.managed_paths[0].destination, Some("/x".to_string()));
}

#[test]
fn apply_classification() {
    assert_eq!(
        dotman::config::classify_entry(false, false, Some(false), false),
        ApplyAction::SkipMissingSource
    );
    assert_eq!(
        dotman::config::classify_entry(true, true, Some(false), false),
        ApplyAction::SkipEmptySource
    );
    assert_eq!(
        dotman::config::classify_entry(true, false, Some(true), false),
        ApplyAction::SkipDestinationExists
    );
    assert_eq!(
        dotman::config::classify_entry(true, false, Some(false), true),
        ApplyAction::Template
    );
    assert_eq!(
        dotman::config::classify_entry(true, false, None, true),
        ApplyAction::Source
    );
    assert_eq!(
        dotman::config::classify_entry(true, false, None, false),
        ApplyAction::SkipUnlinked
    );
}
