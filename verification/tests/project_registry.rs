use caliber::project::{
    capitalize_first, derive_identity, get_registry_path, normalize_to_caliber_dir,
    resolve_project_info, sanitize_id, ProjectIdentity, ProjectInfo, ProjectRegistry, RegistryError,
};

fn project(path: &str, root: &str, name: &str, id: &str) -> ProjectInfo {
    ProjectInfo {
        path: path.to_string(),
        root: root.to_string(),
        name: name.to_string(),
        id: id.to_string(),
        available: true,
        hidden: false,
    }
}

#[test]
fn sanitize_id_handles_special_chars() {
    assert_eq!(sanitize_id("My App"), "my-app");
    assert_eq!(sanitize_id("my_app"), "my-app");
    assert_eq!(sanitize_id("my--app"), "my-app");
    assert_eq!(sanitize_id("--my-app--"), "my-app");
    assert_eq!(sanitize_id("MyApp123"), "myapp123");
    assert_eq!(sanitize_id(""), "project");
    assert_eq!(sanitize_id("---"), "project");
}

#[test]
fn capitalize_first_works() {
    assert_eq!(capitalize_first("myapp"), "Myapp");
    assert_eq!(capitalize_first("my-app"), "My-app");
    assert_eq!(capitalize_first(""), "Project");
}

#[test]
fn id_lookup_is_case_insensitive() {
    let mut registry = ProjectRegistry::default();
    registry.projects.push(ProjectInfo {
        path: "/test/.caliber".to_string(),
        root: "/test".to_string(),
        name: "Test".to_string(),
        id: "myapp".to_string(),
        available: true,
        hidden: false,
    });

    assert!(registry.find_by_id("myapp").is_some());
    assert!(registry.find_by_id("MYAPP").is_some());
    assert!(registry.find_by_id("MyApp").is_some());
    assert!(registry.find_by_id("other").is_none());
}

#[test]
fn generate_unique_id_adds_disambiguator() {
    let mut registry = ProjectRegistry::default();
    registry.projects.push(ProjectInfo {
        path: "/test/.caliber".to_string(),
        root: "/test".to_string(),
        name: "Test".to_string(),
        id: "myapp".to_string(),
        available: true,
        hidden: false,
    });

    assert_eq!(registry.generate_unique_id("other"), "other");
    assert_eq!(registry.generate_unique_id("myapp"), "myapp-2");

    registry.projects.push(ProjectInfo {
        path: "/test2/.caliber".to_string(),
        root: "/test2".to_string(),
        name: "Test 2".to_string(),
        id: "myapp-2".to_string(),
        available: true,
        hidden: false,
    });

    assert_eq!(registry.generate_unique_id("myapp"), "myapp-3");
}

#[test]
fn remove_by_id_is_case_insensitive() {
    let mut registry = ProjectRegistry::default();
    registry.projects.push(ProjectInfo {
        path: "/test/.caliber".to_string(),
        root: "/test".to_string(),
        name: "Test".to_string(),
        id: "myapp".to_string(),
        available: true,
        hidden: false,
    });

    assert!(registry.remove("MYAPP"));
    assert!(registry.projects.is_empty());
}

#[test]
fn find_by_path_accepts_journal_path() {
    let mut registry = ProjectRegistry::default();
    registry.projects.push(ProjectInfo {
        path: "/test/.caliber".to_string(),
        root: "/test".to_string(),
        name: "Test".to_string(),
        id: "myapp".to_string(),
        available: true,
        hidden: false,
    });

    assert!(registry.find_by_path("/test/.caliber").is_some());
    assert!(registry.find_by_path("/test/.caliber/journal.md").is_some());
}

#[test]
fn sanitize_and_capitalize_beyond_ascii() {
    assert_eq!(sanitize_id("Über Café 2"), "über-café-2");
    assert_eq!(capitalize_first("émile"), "Émile");
    assert_eq!(capitalize_first("ßtraße"), "SStraße");
    assert_eq!(capitalize_first("1abc"), "1abc");
}

#[test]
fn remove_keeps_the_others_in_order() {
    let mut registry = ProjectRegistry::default();
    registry.projects.push(project("/a/.caliber", "/a", "A", "one"));
    registry.projects.push(project("/b/.caliber", "/b", "B", "two"));
    registry.projects.push(project("/c/.caliber", "/c", "C", "ONE"));
    registry.projects.push(project("/d/.caliber", "/d", "D", "three"));
    assert!(!registry.remove("four"));
    assert_eq!(registry.projects.len(), 4);
    assert!(registry.remove("One"));
    let ids: Vec<&str> = registry.projects.iter().map(|p| p.id.as_str()).collect();
    assert_eq!(ids, vec!["two", "three"]);
    assert!(registry.id_exists("TWO"));
    assert!(!registry.id_exists("one"));
}

#[test]
fn unique_id_counts_past_taken_numbers_and_sanitizes() {
    let mut registry = ProjectRegistry::default();
    registry.projects.push(project("/a/.caliber", "/a", "A", "my-app"));
    registry.projects.push(project("/b/.caliber", "/b", "B", "MY-APP-2"));
    registry.projects.push(project("/c/.caliber", "/c", "C", "my-app-4"));
    assert_eq!(registry.generate_unique_id("My App"), "my-app-3");
    for n in 2..=99 {
        registry.projects.push(project("/x/.caliber", "/x", "X", &format!("full-{n}")));
    }
    registry.projects.push(project("/y/.caliber", "/y", "Y", "full"));
    let late = registry.generate_unique_id("full");
    assert!(late.starts_with("full-"));
    assert!(!registry.id_exists(&late));
}

#[test]
fn normalize_accepts_directory_and_journal() {
    assert_eq!(normalize_to_caliber_dir("/test/.caliber/journal.md"), "/test/.caliber");
    assert_eq!(normalize_to_caliber_dir("/test/.caliber"), "/test/.caliber");
    assert_eq!(normalize_to_caliber_dir("/test/other/journal.md"), "/test/other/journal.md");
    assert_eq!(normalize_to_caliber_dir(".caliber/journal.md"), ".caliber");
    assert_eq!(normalize_to_caliber_dir("journal.md"), "journal.md");
    assert_eq!(normalize_to_caliber_dir(""), "");
}

#[test]
fn identity_comes_from_the_folder() {
    assert_eq!(derive_identity("/home/me/My App"), ("My App".to_string(), "my-app".to_string()));
    assert_eq!(derive_identity("/home/me/tool"), ("Tool".to_string(), "tool".to_string()));
    assert_eq!(derive_identity(""), ("Project".to_string(), "project".to_string()));
    assert_eq!(derive_identity("/"), ("Project".to_string(), "project".to_string()));
}

#[test]
fn resolve_uses_settings_before_folder() {
    assert_eq!(resolve_project_info("/p/tool", true, None), None);
    let bare = resolve_project_info(".caliber", true, None).unwrap();
    assert_eq!(bare, project(".caliber", "", "Project", "project"));
    assert_eq!(resolve_project_info("/", true, None), None);
    assert_eq!(resolve_project_info("", true, None), None);
    let plain = resolve_project_info("/p/tool/.caliber", true, None).unwrap();
    assert_eq!(plain, project("/p/tool/.caliber", "/p/tool", "Tool", "tool"));
    assert_eq!(plain.journal_path(), "/p/tool/.caliber/journal.md");
    let given = ProjectIdentity { name: Some("Nice".to_string()), id: Some("My ID".to_string()), hidden: true };
    let named = resolve_project_info("/p/tool/.caliber", false, Some(given)).unwrap();
    assert_eq!(
        named,
        ProjectInfo {
            path: "/p/tool/.caliber".to_string(),
            root: "/p/tool".to_string(),
            name: "Nice".to_string(),
            id: "my-id".to_string(),
            available: false,
            hidden: true,
        }
    );
    let partly = ProjectIdentity { name: None, id: None, hidden: false };
    assert_eq!(resolve_project_info("/p/tool/.caliber", true, Some(partly)).unwrap(), plain);
}

#[test]
fn register_refuses_twice_and_invalid() {
    let mut registry = ProjectRegistry::default();
    let first = resolve_project_info("/a/app/.caliber", true, None);
    let info = registry.register("/a/app/.caliber", first).unwrap();
    assert_eq!(info.id, "app");
    assert_eq!(registry.projects.len(), 1);
    let again = resolve_project_info("/a/app/.caliber", true, None);
    assert_eq!(registry.register("/a/app/.caliber/journal.md", again), Err(RegistryError::AlreadyRegistered));
    assert_eq!(registry.register("/nowhere", None), Err(RegistryError::InvalidPath));
    assert_eq!(registry.projects.len(), 1);
    let second = resolve_project_info("/b/app/.caliber", true, None);
    let info = registry.register("/b/app/.caliber", second).unwrap();
    assert_eq!(info.id, "app-2");
    assert_eq!(registry.projects.len(), 2);
    assert!(!RegistryError::InvalidPath.message().is_empty());
}

#[test]
fn registry_file_path() {
    assert_eq!(get_registry_path(Some("/home/me")), "/home/me/.config/caliber/projects.toml");
}

#[test]
fn ignore_file_gets_the_entry_once() {
    let ignored = caliber::project::with_caliber_ignored;
    assert_eq!(ignored(""), Some(".caliber/\n".to_string()));
    assert_eq!(ignored("target"), Some("target\n.caliber/\n".to_string()));
    assert_eq!(ignored("target\n"), Some("target\n.caliber/\n".to_string()));
    assert_eq!(ignored("target\n.caliber/\n"), None);
    assert_eq!(ignored("  .caliber/ \r\ntarget"), None);
    assert_eq!(ignored(".caliber"), Some(".caliber\n.caliber/\n".to_string()));
    assert_eq!(ignored("x/.caliber/"), Some("x/.caliber/\n.caliber/\n".to_string()));
}

#[test]
fn separators_at_the_end_of_a_path_do_not_count() {
    assert_eq!(normalize_to_caliber_dir("/p/.caliber/"), "/p/.caliber");
    assert_eq!(normalize_to_caliber_dir("/p/.caliber//journal.md/"), "/p/.caliber");
    assert_eq!(normalize_to_caliber_dir("/p/other/"), "/p/other");
    assert_eq!(normalize_to_caliber_dir("/"), "/");
    assert_eq!(normalize_to_caliber_dir("/.caliber/journal.md"), "/.caliber");
    let info = resolve_project_info("/p/tool/.caliber/", true, None).unwrap();
    assert_eq!(info, project("/p/tool/.caliber", "/p/tool", "Tool", "tool"));
    let at_root = resolve_project_info("/.caliber", true, None).unwrap();
    assert_eq!((at_root.root.as_str(), at_root.name.as_str()), ("/", "Project"));
    assert_eq!(derive_identity("/home/me/tool///"), ("Tool".to_string(), "tool".to_string()));
    let mut registry = ProjectRegistry::default();
    registry.projects.push(project("/test/.caliber/", "/test", "Test", "myapp"));
    assert!(registry.find_by_path("/test/.caliber").is_some());
    assert!(registry.find_by_path("/test/.caliber/").is_some());
    assert!(registry.find_by_path("/test/.caliber/journal.md").is_some());
    assert!(registry.find_by_path("/test").is_none());
}

#[test]
fn loading_tells_projects_of_one_name_apart() {
    let listed = vec![
        project("/a/.caliber", "/a", "A", "app"),
        project("/b/.caliber", "/b", "B", "APP"),
        project("/c/.caliber", "/c", "C", "other"),
        project("/d/.caliber", "/d", "D", "app-2"),
        project("/e/.caliber", "/e", "E", "app"),
        project("/f/.caliber", "/f", "F", "My App"),
    ];
    let registry = ProjectRegistry::load(listed);
    let ids: Vec<&str> = registry.projects.iter().map(|p| p.id.as_str()).collect();
    assert_eq!(ids, vec!["app", "APP-2", "other", "app-2-2", "app-3", "My App"]);
    let paths: Vec<&str> = registry.projects.iter().map(|p| p.path.as_str()).collect();
    assert_eq!(paths, vec!["/a/.caliber", "/b/.caliber", "/c/.caliber", "/d/.caliber", "/e/.caliber", "/f/.caliber"]);
    assert!(ProjectRegistry::load(Vec::new()).projects.is_empty());
    let many: Vec<_> = (0..120).map(|_| project("/x/.caliber", "/x", "X", "same")).collect();
    let registry = ProjectRegistry::load(many);
    assert_eq!(registry.projects[0].id, "same");
    assert_eq!(registry.projects[1].id, "same-2");
    assert_eq!(registry.projects[119].id, "same-120");
}
