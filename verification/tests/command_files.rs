use easyalias::alias_entry::AliasEntry;
use easyalias::command_import::{
    command_file_candidate, command_file_folders, command_file_name, expand_percent_variables,
    import_backup_dir_name, importable_command_files, percent_variables,
    path_entries, plan_command_file_import, unique_command_files, CommandFileCandidate,
    MAX_COMMAND_FILES,
};

fn alias(name: &str) -> AliasEntry {
    AliasEntry {
        id: name.to_string(),
        name: name.to_string(),
        path: String::new(),
        action: "custom".to_string(),
        custom_command: Some("echo stored".to_string()),
        command_preview: "echo stored".to_string(),
        favorite: false,
        created_at: "2026-07-01T00:00:00.000Z".to_string(),
        updated_at: "2026-07-01T00:00:00.000Z".to_string(),
    }
}

fn candidate(name: &str, command: &str) -> CommandFileCandidate {
    let path = format!("C:\\Users\\me\\bin\\{}.cmd", name);
    CommandFileCandidate {
        id: path.to_ascii_lowercase(),
        name: name.to_string(),
        command: command.to_string(),
        source_file: format!("~/bin/{}.cmd", name),
        source_path: path,
    }
}

#[test]
fn command_file_names_follow_the_stem_rules() {
    assert_eq!(command_file_name("gst.cmd").as_deref(), Some("gst"));
    assert_eq!(command_file_name("Deploy.BAT").as_deref(), Some("Deploy"));
    assert_eq!(command_file_name("build-all.Cmd").as_deref(), Some("build-all"));
    assert_eq!(command_file_name(".cmd"), None);
    assert_eq!(command_file_name("gst.exe"), None);
    assert_eq!(command_file_name("gst"), None);
    assert_eq!(command_file_name("a.b.cmd"), None);
    assert_eq!(command_file_name("1abc.cmd"), None);
    assert_eq!(command_file_name("easya.cmd"), None);
    assert_eq!(command_file_name("EasyA.bat"), None);
}

#[test]
fn command_file_candidate_reads_simple_scripts_only() {
    let found = command_file_candidate(
        "C:\\Users\\Me\\aliases\\gst.cmd",
        "gst.cmd",
        "@echo off\r\ngit status --short %*\r\n",
        "~/aliases/gst.cmd",
    )
    .unwrap();
    assert_eq!(found.name, "gst");
    assert_eq!(found.command, "git status --short %*");
    assert_eq!(found.id, "c:\\users\\me\\aliases\\gst.cmd");
    assert_eq!(found.source_file, "~/aliases/gst.cmd");
    assert_eq!(found.source_path, "C:\\Users\\Me\\aliases\\gst.cmd");

    assert!(command_file_candidate(
        "C:\\Users\\Me\\aliases\\two.cmd",
        "two.cmd",
        "@echo off\r\necho one\r\necho two\r\n",
        "~/aliases/two.cmd",
    )
    .is_none());
    assert!(command_file_candidate(
        "C:\\Users\\Me\\aliases\\easya.cmd",
        "easya.cmd",
        "@echo off\r\necho hi\r\n",
        "~/aliases/easya.cmd",
    )
    .is_none());
}

#[test]
fn unique_command_files_drop_shared_names_and_sort() {
    let found = vec![
        candidate("zeta", "echo z"),
        candidate("Build", "echo b1"),
        candidate("alpha", "echo a"),
        candidate("build", "echo b2"),
    ];
    let offered = unique_command_files(found);
    let names: Vec<&str> = offered.iter().map(|c| c.name.as_str()).collect();
    assert_eq!(names, vec!["alpha", "zeta"]);
}

#[test]
fn unique_command_files_offer_at_most_the_limit() {
    let found: Vec<CommandFileCandidate> = (0..250)
        .map(|i| candidate(&format!("cmd{:03}", i), "echo x"))
        .collect();
    let offered = unique_command_files(found);
    assert_eq!(offered.len(), MAX_COMMAND_FILES);
    assert_eq!(offered[0].name, "cmd000");
    assert_eq!(offered[199].name, "cmd199");
}

#[test]
fn importable_command_files_skip_existing_names_ignoring_case() {
    let aliases = vec![alias("GST")];
    let offered = vec![candidate("gst", "git status"), candidate("ll", "dir")];
    let left = importable_command_files(&aliases, offered);
    assert_eq!(left.len(), 1);
    assert_eq!(left[0].name, "ll");
}

#[test]
fn command_file_import_refuses_bad_requests() {
    let scanned = vec![candidate("gst", "git status")];
    let err = plan_command_file_import(vec![], scanned.clone(), &vec![], "2026-07-18T10:00:00.000Z", 7)
        .err()
        .unwrap();
    assert_eq!(err, "Select at least one command file to import.");

    let ids = vec![scanned[0].id.clone()];
    let err = plan_command_file_import(vec![], scanned.clone(), &ids, "  ", 7).err().unwrap();
    assert_eq!(err, "Import timestamp is missing.");

    let gone = vec!["c:\\users\\me\\bin\\gone.cmd".to_string()];
    let err = plan_command_file_import(vec![], scanned.clone(), &gone, "2026-07-18T10:00:00.000Z", 7)
        .err()
        .unwrap();
    assert_eq!(err, "Some command files changed. Reopen EasyAlias and try again.");

    let err = plan_command_file_import(vec![alias("GST")], scanned, &ids, "2026-07-18T10:00:00.000Z", 7)
        .err()
        .unwrap();
    assert_eq!(err, "Alias \"gst\" already exists.");
}

#[test]
fn command_file_import_refuses_two_files_with_one_name() {
    let mut second = candidate("run", "echo 2");
    second.id = "c:\\users\\me\\tools\\run.cmd".to_string();
    let scanned = vec![candidate("Run", "echo 1"), second];
    let ids = vec![scanned[0].id.clone(), scanned[1].id.clone()];
    let err = plan_command_file_import(vec![], scanned, &ids, "2026-07-18T10:00:00.000Z", 7)
        .err()
        .unwrap();
    assert_eq!(err, "Alias \"run\" already exists.");
}

#[test]
fn command_file_import_adds_custom_aliases_in_name_order() {
    let scanned = vec![candidate("gst", "git status --short %*"), candidate("ll", "dir /a")];
    let ids = vec![scanned[0].id.clone(), scanned[0].id.clone()];
    let plan = plan_command_file_import(
        vec![alias("zz"), alias("aa")],
        scanned,
        &ids,
        "2026-07-18T10:00:00.000Z",
        1700000000,
    )
    .unwrap();
    assert_eq!(plan.imported.len(), 1);
    assert_eq!(plan.imported[0].name, "gst");
    let names: Vec<&str> = plan.aliases.iter().map(|a| a.name.as_str()).collect();
    assert_eq!(names, vec!["aa", "gst", "zz"]);
    let added = &plan.aliases[1];
    assert_eq!(added.id, "imported-1700000000-0");
    assert_eq!(added.action, "custom");
    assert_eq!(added.path, "");
    assert_eq!(added.custom_command.as_deref(), Some("git status --short %*"));
    assert_eq!(added.command_preview, "git status --short %*");
    assert!(!added.favorite);
    assert_eq!(added.created_at, "2026-07-18T10:00:00.000Z");
    assert_eq!(added.updated_at, "2026-07-18T10:00:00.000Z");
}

#[test]
fn path_entries_trim_and_unquote() {
    let entries = path_entries(" C:\\Tools ;\"%USERPROFILE%\\bin\";;");
    assert_eq!(entries, vec!["C:\\Tools", "%USERPROFILE%\\bin", "", ""]);
}

#[test]
fn command_file_folders_stay_in_home_once_each() {
    let dirs = vec![
        "C:\\Users\\me\\bin".to_string(),
        "C:\\Windows\\System32".to_string(),
        "c:\\users\\me\\BIN\\".to_string(),
        "C:\\Users\\me\\.easyalias\\bin".to_string(),
        "C:\\Users\\me\\scripts".to_string(),
        "C:\\Users\\meadow\\bin".to_string(),
    ];
    let folders = command_file_folders(&dirs, "C:\\Users\\me", "C:\\Users\\me\\.easyalias\\bin");
    assert_eq!(folders, vec!["C:\\Users\\me\\bin", "C:\\Users\\me\\scripts"]);
}

#[test]
fn percent_variables_are_named_in_order() {
    assert_eq!(
        percent_variables("%USERPROFILE%\\bin;%APPDATA%\\x"),
        vec!["USERPROFILE", "APPDATA"]
    );
    assert_eq!(percent_variables("C:\\50%"), Vec::<String>::new());
    assert_eq!(percent_variables("%%"), vec![""]);
}

#[test]
fn percent_variables_expand_with_found_values() {
    let value = "%USERPROFILE%\\bin\\%MISSING%\\100%";
    let values = vec![Some("C:\\Users\\me".to_string()), None];
    assert_eq!(
        expand_percent_variables(value, &values),
        "C:\\Users\\me\\bin\\%MISSING%\\100%"
    );
    assert_eq!(expand_percent_variables("plain", &vec![]), "plain");
}

#[test]
fn import_backup_folders_are_numbered_after_the_first() {
    assert_eq!(import_backup_dir_name(1700000000, 0), "import-backup-1700000000");
    assert_eq!(import_backup_dir_name(1700000000, 2), "import-backup-1700000000-2");
}
