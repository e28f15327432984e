use easyalias::alias_entry::{render_aliases, AliasEntry};
use easyalias::alias_store::{
    export_alias_backup, import_alias_backup, move_alias_to_trash, permanently_delete_trash_alias,
    restore_trash_alias, save_alias_form,
};
use easyalias::automation::{Automation, AutomationStep};
use easyalias::automation_store::{export_automation_backup, permanently_delete_trash_automation, AutomationTrashEntry};
use easyalias::trash::TrashEntry;
use easyalias::backup_view::{default_backup_path, BackupKind};

fn test_alias(id: &str, name: &str, command: &str) -> AliasEntry {
    AliasEntry {
        id: id.to_string(),
        name: name.to_string(),
        path: String::new(),
        action: "custom".to_string(),
        custom_command: Some(command.to_string()),
        command_preview: command.to_string(),
        favorite: false,
        created_at: "2026-08-13T18:00:00.000Z".to_string(),
        updated_at: "2026-08-13T18:00:00.000Z".to_string(),
    }
}

#[test]
fn tests_deleted_alias_can_be_restored_from_trash() {
    let deleted = move_alias_to_trash(vec![test_alias("one", "ll", "ls -lah")], Vec::new(), "one", 500).unwrap();
    assert!(deleted.aliases.is_empty());
    assert_eq!(deleted.trash.len(), 1);
    assert_eq!(deleted.trash[0].alias.name, "ll");
    assert!(!render_aliases(&deleted.aliases).unwrap().contains("alias ll="));

    let restored = restore_trash_alias(deleted.aliases, deleted.trash, "one").unwrap();
    assert_eq!(restored.aliases.len(), 1);
    assert!(restored.trash.is_empty());
    assert!(render_aliases(&restored.aliases).unwrap().contains("alias ll='ls -lah'"));
}

#[test]
fn tests_backup_export_contains_only_selected_aliases() {
    let aliases = vec![test_alias("one", "ll", "ls -lah"), test_alias("two", "gs", "git status")];
    let selected = export_alias_backup(aliases, &vec!["two".to_string()], "/tmp/selected.json", "2026-08-13T18:30:00.000Z")
        .unwrap();
    assert_eq!(selected.len(), 1);
    assert_eq!(selected[0].name, "gs");
}

#[test]
fn tests_backup_import_replaces_name_conflicts_and_keeps_other_aliases() {
    let current = vec![test_alias("current-ll", "ll", "ls"), test_alias("keep", "gs", "git status")];
    let backup = vec![test_alias("backup-ll", "ll", "ls -lah"), test_alias("backup-dcu", "dcu", "docker compose up -d")];
    let result = import_alias_backup(
        backup,
        current,
        &vec!["backup-ll".to_string(), "backup-dcu".to_string()],
        "2026-08-13T19:00:00.000Z",
        1_700_000_000,
    )
    .unwrap();
    assert_eq!(result.imported_count, 2);
    assert_eq!(result.replaced_count, 1);
    assert_eq!(result.aliases.len(), 3);
    assert!(result.aliases.iter().any(|alias| alias.name == "ll" && alias.command_preview == "ls -lah"));
    assert!(result.aliases.iter().any(|alias| alias.name == "gs"));
    assert!(result.aliases.iter().any(|alias| alias.name == "dcu"));
    let names: Vec<&str> = result.aliases.iter().map(|a| a.name.as_str()).collect();
    assert_eq!(names, vec!["dcu", "gs", "ll"]);
    assert_eq!(result.aliases[2].id, "backup-1700000000-backup-ll");
    assert_eq!(result.aliases[2].updated_at, "2026-08-13T19:00:00.000Z");
}

#[test]
fn alias_restore_refuses_taken_names_and_ids() {
    let bin = vec![TrashEntry { alias: test_alias("one", "ll", "ls"), deleted_at: 1 }];
    let taken_name = restore_trash_alias(vec![test_alias("x", "ll", "ls")], bin, "one");
    assert_eq!(
        taken_name.err().unwrap(),
        "Alias \"ll\" already exists. Rename or delete the active alias before restoring."
    );
    let bin = vec![TrashEntry { alias: test_alias("one", "ll", "ls"), deleted_at: 1 }];
    let taken_id = restore_trash_alias(vec![test_alias("one", "other", "ls")], bin, "one");
    assert_eq!(taken_id.err().unwrap(), "An active alias already uses this id.");
    assert_eq!(
        move_alias_to_trash(Vec::new(), Vec::new(), "x", 1).err().unwrap(),
        "Alias no longer exists."
    );
}

#[test]
fn permanent_deletion_needs_an_entry() {
    let bin = vec![
        TrashEntry { alias: test_alias("one", "ll", "ls"), deleted_at: 2 },
        TrashEntry { alias: test_alias("two", "gs", "git status"), deleted_at: 1 },
    ];
    let left = permanently_delete_trash_alias(bin, "one").unwrap();
    assert_eq!(left.len(), 1);
    assert_eq!(left[0].alias.id, "two");
    assert_eq!(permanently_delete_trash_alias(left, "one").err().unwrap(), "Deleted alias no longer exists.");
}

fn automation(id: &str, name: &str) -> Automation {
    Automation {
        id: id.to_string(),
        name: name.to_string(),
        path: "~/Projects".to_string(),
        steps: vec![AutomationStep {
            id: format!("{}-step", id),
            kind: "command".to_string(),
            command: "npm run build".to_string(),
            seconds: 0,
            behavior: "wait".to_string(),
        }],
        favorite: false,
        group: String::new(),
        hotkey: None,
        created_at: "2026-08-25T12:00:00.000Z".to_string(),
        updated_at: "2026-08-25T12:00:00.000Z".to_string(),
    }
}

#[test]
fn automation_backup_export_contains_only_selected_workflows() {
    let list = vec![automation("build", "Build"), automation("deploy", "Deploy")];
    let selected =
        export_automation_backup(list, &vec!["deploy".to_string()], "/tmp/a.json", "2026-08-25T12:30:00.000Z").unwrap();
    assert_eq!(selected.len(), 1);
    assert_eq!(selected[0].name, "Deploy");
    let list = vec![automation("build", "Build")];
    assert_eq!(
        export_automation_backup(list, &vec!["gone".to_string()], "/tmp/a.json", "t").err().unwrap(),
        "Some automations changed. Reopen Export and try again."
    );
    let list = vec![automation("build", "Build")];
    assert_eq!(
        export_automation_backup(list, &vec!["build".to_string()], " ", "t").err().unwrap(),
        "Choose where to save the backup."
    );
}

#[test]
fn deleting_an_automation_for_good() {
    let bin = vec![AutomationTrashEntry { automation: automation("build", "Build"), deleted_at: 3 }];
    assert!(permanently_delete_trash_automation(bin, "build").unwrap().is_empty());
    let bin = vec![AutomationTrashEntry { automation: automation("build", "Build"), deleted_at: 3 }];
    assert_eq!(
        permanently_delete_trash_automation(bin, "x").err().unwrap(),
        "Deleted automation no longer exists."
    );
}

#[test]
fn backups_are_suggested_under_the_date() {
    assert_eq!(
        default_backup_path(BackupKind::Aliases, "2026-08-14"),
        "~/easyalias-backup-2026-08-14.json"
    );
    assert_eq!(
        default_backup_path(BackupKind::Automations, "2026-08-14"),
        "~/easyalias-automations-2026-08-14.json"
    );
}

fn form_alias(id: &str, name: &str) -> AliasEntry {
    AliasEntry {
        id: id.to_string(),
        name: name.to_string(),
        path: String::new(),
        action: "custom".to_string(),
        custom_command: Some("echo old".to_string()),
        command_preview: "echo old".to_string(),
        favorite: true,
        created_at: "2026-07-01T00:00:00.000Z".to_string(),
        updated_at: "2026-07-01T00:00:00.000Z".to_string(),
    }
}

#[test]
fn alias_form_adds_and_edits() {
    let stored = vec![form_alias("a", "ll")];
    let (added, id) = save_alias_form(
        stored.clone(),
        None,
        "  gs ",
        "custom",
        "",
        " git status ",
        "2026-08-01T00:00:00.000Z",
        "new-id".to_string(),
    )
    .unwrap();
    assert_eq!(id, "new-id");
    assert_eq!(added.len(), 2);
    assert_eq!(added[1].name, "gs");
    assert_eq!(added[1].custom_command.as_deref(), Some("git status"));
    assert_eq!(added[1].command_preview, "git status");
    assert!(!added[1].favorite);

    let (edited, id) = save_alias_form(
        stored.clone(),
        Some("a".to_string()),
        "ll",
        "custom",
        "",
        "ls -lah",
        "2026-08-02T00:00:00.000Z",
        "unused".to_string(),
    )
    .unwrap();
    assert_eq!(id, "a");
    assert_eq!(edited.len(), 1);
    assert_eq!(edited[0].command_preview, "ls -lah");
    assert!(edited[0].favorite);
    assert_eq!(edited[0].created_at, "2026-07-01T00:00:00.000Z");
    assert_eq!(edited[0].updated_at, "2026-08-02T00:00:00.000Z");
}

#[test]
fn alias_form_refusals() {
    let stored = vec![form_alias("a", "ll")];
    let clash = save_alias_form(stored.clone(), None, "ll", "custom", "", "ls", "t", "n".to_string());
    assert_eq!(clash.err(), Some("Alias \"ll\" already exists.".to_string()));
    let gone = save_alias_form(stored.clone(), Some("x".to_string()), "zz", "custom", "", "ls", "t", "n".to_string());
    assert_eq!(gone.err(), Some("This alias no longer exists.".to_string()));
    let bad = save_alias_form(stored, None, "9bad", "custom", "", "ls", "t", "n".to_string());
    assert_eq!(bad.err(), Some("Invalid alias name: 9bad".to_string()));
}
