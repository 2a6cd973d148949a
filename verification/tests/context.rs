use caliber::context::{
    get_active_journal_path, get_active_slot, get_project_path, reset_journal_context,
    set_active_slot, set_journal_context, set_project_path, JournalContext, JournalSlot,
};

#[test]
fn context_unset_falls_back() {
    let mut ctx: Option<JournalContext> = None;
    assert_eq!(get_active_slot(&ctx), JournalSlot::Global);
    assert_eq!(get_project_path(&ctx), None);
    assert_eq!(get_active_journal_path(&ctx, "/default.md"), "/default.md");
    set_active_slot(&mut ctx, JournalSlot::Project);
    set_project_path(&mut ctx, "/p.md".to_string());
    assert_eq!(ctx, None);
}

#[test]
fn context_tracks_the_active_journal() {
    let mut ctx: Option<JournalContext> = None;
    set_journal_context(&mut ctx, "/g.md".to_string(), None, JournalSlot::Global);
    assert_eq!(get_active_journal_path(&ctx, "/default.md"), "/g.md");
    set_active_slot(&mut ctx, JournalSlot::Project);
    assert_eq!(get_active_slot(&ctx), JournalSlot::Project);
    assert_eq!(get_active_journal_path(&ctx, "/default.md"), "/g.md");
    set_project_path(&mut ctx, "/p.md".to_string());
    assert_eq!(get_project_path(&ctx), Some("/p.md".to_string()));
    assert_eq!(get_active_journal_path(&ctx, "/default.md"), "/p.md");
    set_active_slot(&mut ctx, JournalSlot::Global);
    assert_eq!(get_active_journal_path(&ctx, "/default.md"), "/g.md");
    reset_journal_context(&mut ctx);
    assert_eq!(ctx, None);
    assert_eq!(get_active_journal_path(&ctx, "/default.md"), "/default.md");
}
