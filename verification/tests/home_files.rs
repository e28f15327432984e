use easyalias::alias_entry::AliasEntry;
use easyalias::home_import::{
    home_backup_file_name, import_shell_aliases, prepare_managed_shell_updates, scan_import_candidates,
    scan_shell_candidates_in_home, shell_config_paths, StartupFile,
};
use easyalias::managed_block::{MANAGED_BLOCK_END, MANAGED_BLOCK_START};

fn stored(name: &str, command: &str) -> AliasEntry {
    AliasEntry {
        id: name.to_string(),
        name: name.to_string(),
        path: String::new(),
        action: "custom".to_string(),
        custom_command: Some(command.to_string()),
        command_preview: command.to_string(),
        favorite: false,
        created_at: "2026-07-26T12:00:00.000Z".to_string(),
        updated_at: "2026-07-26T12:00:00.000Z".to_string(),
    }
}

fn file(display: &str, content: &str) -> StartupFile {
    StartupFile { display: display.to_string(), content: content.to_string() }
}

fn three_files() -> Vec<StartupFile> {
    vec![
        file("~/.zshrc", "alias ll='ls -lah'\nalias dup='echo z'\n"),
        file("~/.bash_profile", "export PATH=/opt/bin:$PATH\nalias gs='git status'\n"),
        file("~/.bashrc", "alias dup='echo b'\n"),
    ]
}

#[test]
fn startup_files_are_the_three_shell_files() {
    let files = shell_config_paths("/Users/me");
    let paths: Vec<&str> = files.iter().map(|f| f.path.as_str()).collect();
    assert_eq!(paths, vec!["/Users/me/.zshrc", "/Users/me/.bash_profile", "/Users/me/.bashrc"]);
    assert_eq!(files[1].display, "~/.bash_profile");
}

#[test]
fn home_scan_numbers_candidates_per_file_and_drops_shared_names() {
    let found = scan_shell_candidates_in_home(&three_files()).unwrap();
    let ids: Vec<&str> = found.iter().map(|c| c.id.as_str()).collect();
    assert_eq!(ids, vec!["shell-0-line-1", "shell-1-line-2"]);
    assert_eq!(found[0].name, "ll");
    assert_eq!(found[0].source_file, "~/.zshrc");
    assert_eq!(found[1].command, "git status");
    assert_eq!(found[1].line_number, 2);

    let offered = scan_import_candidates(&vec![stored("gs", "git status")], found);
    assert_eq!(offered.len(), 1);
    assert_eq!(offered[0].name, "ll");
}

#[test]
fn home_scan_refuses_a_broken_block() {
    let files = vec![file("~/.zshrc", "alias ll='ls'\n"), file("~/.bashrc", &format!("{}\n", MANAGED_BLOCK_START))];
    assert!(scan_shell_candidates_in_home(&files).is_err());
}

#[test]
fn home_import_replaces_lines_and_rewrites_every_block() {
    let ids = vec!["shell-1-line-2".to_string()];
    let plan = import_shell_aliases(
        &three_files(),
        vec![stored("zz", "echo zz")],
        &ids,
        "2026-07-27T08:00:00.000Z",
        1700000000,
    )
    .unwrap();
    assert_eq!(plan.imported_count, 1);
    let names: Vec<&str> = plan.aliases.iter().map(|a| a.name.as_str()).collect();
    assert_eq!(names, vec!["gs", "zz"]);
    assert_eq!(plan.aliases[0].id, "imported-1700000000-shell-1-line-2");
    assert_eq!(plan.contents.len(), 3);
    assert!(plan.contents[1].starts_with("export PATH=/opt/bin:$PATH\n: # EasyAlias imported alias gs\n"));
    for content in &plan.contents {
        assert_eq!(content.matches(MANAGED_BLOCK_START).count(), 1);
        assert!(content.contains("alias gs='git status'"));
        assert!(content.contains(MANAGED_BLOCK_END));
    }
    assert!(plan.contents[0].starts_with("alias ll='ls -lah'\n"));
}

#[test]
fn home_import_refusals() {
    let files = three_files();
    let err = |ids: &[&str], aliases: Vec<AliasEntry>, stamp: &str| {
        let ids: Vec<String> = ids.iter().map(|s| s.to_string()).collect();
        import_shell_aliases(&files, aliases, &ids, stamp, 1).err().unwrap()
    };
    assert_eq!(err(&[], vec![], "t"), "Select at least one alias to import.");
    assert_eq!(err(&["shell-0-line-1"], vec![], " "), "Import timestamp is missing.");
    assert_eq!(
        err(&["shell-2-line-1"], vec![], "t"),
        "Some aliases changed in the shell files. Reopen Import and try again."
    );
    assert_eq!(err(&["shell-0-line-1"], vec![stored("ll", "ls")], "t"), "Alias \"ll\" already exists.");
}

#[test]
fn managed_updates_rewrite_each_file() {
    let files = vec![file("~/.zshrc", "export A=1\n"), file("~/.bashrc", "")];
    let updated = prepare_managed_shell_updates(&files, &[stored("ll", "ls -lah")]).unwrap();
    assert_eq!(updated.len(), 2);
    assert!(updated[0].starts_with("export A=1\n\n"));
    assert!(updated[1].starts_with(MANAGED_BLOCK_START));
    assert!(updated[1].contains("alias ll='ls -lah'"));
}

#[test]
fn startup_file_copies_drop_the_leading_dot() {
    assert_eq!(home_backup_file_name(".zshrc", 1700000000, 0), "zshrc-1700000000.backup");
    assert_eq!(home_backup_file_name(".bashrc", 1700000000, 3), "bashrc-1700000000-3.backup");
    assert_eq!(home_backup_file_name("shellrc", 5, 0), "shellrc-5.backup");
}
