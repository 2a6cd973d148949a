use caliber::config::Config;

#[test]
fn test_get_favorite_tag() {
    let config = Config {
        favorite_tags: vec!["work".to_string(), "personal".to_string()],
        ..Default::default()
    };

    assert_eq!(config.get_favorite_tag('1'), Some("work"));
    assert_eq!(config.get_favorite_tag('2'), Some("personal"));
    assert_eq!(config.get_favorite_tag('3'), None);
    assert_eq!(config.get_favorite_tag('0'), None);
}

#[test]
fn test_get_favorite_tag_empty_string() {
    let config = Config {
        favorite_tags: vec!["".to_string()],
        ..Default::default()
    };

    assert_eq!(config.get_favorite_tag('1'), None);
}

#[test]
fn test_get_favorite_tag_tenth_slot() {
    let mut tags = vec!["".to_string(); 9];
    tags.push("tenth".to_string());

    let config = Config {
        favorite_tags: tags,
        ..Default::default()
    };

    assert_eq!(config.get_favorite_tag('0'), Some("tenth"));
}

#[test]
fn favorite_tag_keys_outside_digits_give_nothing() {
    let config = Config { favorite_tags: vec!["work".to_string()], ..Default::default() };
    assert_eq!(config.get_favorite_tag('a'), None);
    assert_eq!(config.get_favorite_tag(' '), None);
    assert_eq!(config.get_favorite_tag('9'), None);
}

#[test]
fn sort_order_drops_unknown_and_repeated_names() {
    let order = |names: &[&str]| -> Vec<String> {
        let config = Config { sort_order: names.iter().map(|s| s.to_string()).collect(), ..Default::default() };
        config.validated_sort_order()
    };
    assert_eq!(order(&["notes", "bogus", "events", "notes", "completed"]), vec!["notes", "events", "completed"]);
    assert_eq!(order(&[]), vec!["completed", "events", "notes", "uncompleted"]);
    assert_eq!(order(&["x", "Notes"]), vec!["completed", "events", "notes", "uncompleted"]);
    assert_eq!(order(&["uncompleted"]), vec!["uncompleted"]);
}

#[test]
fn defaults_of_the_settings() {
    assert_eq!(caliber::config::default_sort_order(), vec!["completed", "events", "notes", "uncompleted"]);
    assert_eq!(caliber::config::default_favorite_tags(), vec!["feature", "bug", "idea"]);
    let filters = caliber::config::default_filters();
    let pairs: Vec<(&str, &str)> = filters.iter().map(|f| (f.name.as_str(), f.query.as_str())).collect();
    assert_eq!(pairs, vec![("t", "!tasks"), ("n", "!notes"), ("e", "!events")]);
}

#[test]
fn paths_of_the_settings() {
    assert_eq!(caliber::config::get_config_dir(Some("/home/me")), "/home/me/.config/caliber");
    assert_eq!(caliber::config::get_config_dir(None), "./.config/caliber");
    assert_eq!(caliber::config::get_config_path(Some("/home/me")), "/home/me/.config/caliber/config.toml");
    assert_eq!(
        caliber::config::get_default_journal_path(Some("/home/me")),
        "/home/me/.config/caliber/journals/journal.md"
    );
}
