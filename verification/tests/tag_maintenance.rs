use caliber::tags::{
    count_tag_occurrences, delete_all_tag_occurrences, extract_tags, rename_tag_occurrences,
    validate_tag_name, TagNameError,
};

#[test]
fn rename_leaves_longer_tags_alone() {
    let journal = "- [ ] Fix bug #work\n- Sign up for #workshop\n";
    let done = rename_tag_occurrences(journal, "work", "job").unwrap();
    assert_eq!(done.journal, "- [ ] Fix bug #job\n- Sign up for #workshop\n");
    assert_eq!(done.count, 1);
}

#[test]
fn rename_ignores_case_and_counts_each_occurrence() {
    let journal = "- a #Work and #WORK, #work.\n- b #work-out #work_x #work2\n# work";
    let done = rename_tag_occurrences(journal, "work", "job").unwrap();
    assert_eq!(done.journal, "- a #job and #job, #job.\n- b #work-out #work_x #work2\n# work");
    assert_eq!(done.count, 3);
    assert_eq!(count_tag_occurrences(journal, "WORK"), 3);
    assert_eq!(count_tag_occurrences(journal, "wor"), 0);
}

#[test]
fn rename_refuses_bad_names() {
    let journal = "- a #work";
    assert_eq!(rename_tag_occurrences(journal, "work", ""), Err(TagNameError::Empty));
    assert_eq!(rename_tag_occurrences(journal, "work", "1st"), Err(TagNameError::MustStartWithLetter));
    assert_eq!(rename_tag_occurrences(journal, "work", "-x"), Err(TagNameError::MustStartWithLetter));
    assert_eq!(rename_tag_occurrences(journal, "work", "a b"), Err(TagNameError::InvalidCharacter));
    assert_eq!(rename_tag_occurrences(journal, "work", "a#b"), Err(TagNameError::InvalidCharacter));
    assert!(rename_tag_occurrences(journal, "work", "new_tag-2").is_ok());
}

#[test]
fn validate_tag_name_gives_the_reason() {
    assert_eq!(validate_tag_name("ok-1_x"), Ok(()));
    assert_eq!(validate_tag_name(""), Err(TagNameError::Empty));
    assert_eq!(validate_tag_name("_x"), Err(TagNameError::MustStartWithLetter));
    assert_eq!(validate_tag_name("x!"), Err(TagNameError::InvalidCharacter));
    assert_eq!(TagNameError::Empty.message(), "Tag name cannot be empty");
    assert_eq!(TagNameError::MustStartWithLetter.message(), "Tag must start with a letter");
    assert_eq!(
        TagNameError::InvalidCharacter.message(),
        "Tag can only contain letters, numbers, underscore, and dash"
    );
    assert_eq!(
        rename_tag_occurrences("- a #work", "work", "9lives").unwrap_err().message(),
        "Tag must start with a letter"
    );
}

#[test]
fn delete_drops_entries_left_empty() {
    let journal = "# 2026/01/15\n- [ ] #work\n- [ ] keep #work me\n* #work\n-  #work  \n- [x] stays";
    let done = delete_all_tag_occurrences(journal, "work");
    assert_eq!(done.journal, "# 2026/01/15\n- [ ] keep  me\n- [x] stays");
    assert_eq!(done.count, 4);
}

#[test]
fn delete_collapses_blank_lines_that_come_to_touch() {
    let journal = "a\n\n- #x\n\nb\n\n\nc";
    let done = delete_all_tag_occurrences(journal, "x");
    assert_eq!(done.journal, "a\n\nb\n\n\nc");
    assert_eq!(done.count, 1);
}

#[test]
fn delete_of_absent_tag_changes_nothing() {
    let journal = "# h\n\n\n- a #b\n---\ntext\n";
    let done = delete_all_tag_occurrences(journal, "zzz");
    assert_eq!(done.journal, journal);
    assert_eq!(done.count, 0);
}

#[test]
fn extract_tags_lists_names_in_order() {
    assert_eq!(extract_tags("a #one b #Two-2 #3no ##x #one#two # end#"), vec!["one", "Two-2", "x", "one", "two"]);
    assert!(extract_tags("no tags here").is_empty());
}

#[test]
fn tag_boundary_is_the_end_or_a_character_no_tag_holds() {
    let text: Vec<char> = "#work #workshop #work-1 #work.".chars().collect();
    assert!(caliber::tags::is_valid_tag_boundary(&text, 5));
    assert!(!caliber::tags::is_valid_tag_boundary(&text, 11));
    assert!(!caliber::tags::is_valid_tag_boundary(&text, 21));
    assert!(caliber::tags::is_valid_tag_boundary(&text, 29));
    assert!(caliber::tags::is_valid_tag_boundary(&text, 30));
    assert!(caliber::tags::is_valid_tag_boundary(&text, 99));
}

#[test]
fn checkbox_with_nothing_behind_it_is_an_empty_entry() {
    let journal = "# h\n\n- [ ] \n\n- keep\n* \n- [x]";
    let done = delete_all_tag_occurrences(journal, "none");
    assert_eq!(done.journal, "# h\n\n- keep");
    assert_eq!(done.count, 0);
    let kept = "- [x] done\n- [ ]x\n- [y]\n- see [x]\n* [x]\n- [x] [x]";
    assert_eq!(delete_all_tag_occurrences(kept, "none").journal, kept);
    let dropped = "- [ ]\n  - [x]\t \n- [x]#t\n-  [ ]";
    assert_eq!(delete_all_tag_occurrences(dropped, "t").journal, "-  [ ]");
}
