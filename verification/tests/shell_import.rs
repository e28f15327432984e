use easyalias::alias_entry::{render_aliases, single_quote, validate_alias_collection, validate_alias_entry, AliasEntry};
use easyalias::managed_block::{
    find_shell_aliases as find_block_file_aliases, managed_block_present, update_managed_block,
    without_managed_block, MANAGED_BLOCK_END, MANAGED_BLOCK_START,
};
use easyalias::shell_alias::{
    decode_alias_value, find_shell_aliases, parse_shell_alias_line, replace_imported_alias_lines,
    validate_alias_name,
};
use easyalias::trash::{retain_current_trash_entries, TrashEntry};
use std::collections::HashMap;

fn alias(name: &str, command: &str) -> AliasEntry {
    AliasEntry {
        id: name.to_string(),
        name: name.to_string(),
        path: String::new(),
        action: "custom".to_string(),
        custom_command: Some(command.to_string()),
        command_preview: command.to_string(),
        favorite: false,
        created_at: "2026-07-26T12:00:00.000Z".to_string(),
        updated_at: "2026-07-26T12:00:00.000Z".to_string(),
    }
}

#[test]
fn main_parses_only_safe_single_line_aliases() {
    let alias = parse_shell_alias_line("alias ll='ls -lah'", 3).unwrap();
    assert_eq!(alias.name, "ll");
    assert_eq!(alias.command, "ls -lah");
    assert!(parse_shell_alias_line("  alias nested='echo no'", 4).is_none());
    assert!(parse_shell_alias_line("alias -g pipe='| grep'", 5).is_none());
    assert!(parse_shell_alias_line("alias a='one' b='two'", 6).is_none());
}

#[test]
fn tests_parses_only_safe_single_line_aliases() {
    let alias = parse_shell_alias_line("alias ll='ls -lah'", 3).unwrap();
    assert_eq!(alias.name, "ll");
    assert_eq!(alias.command, "ls -lah");
    assert!(parse_shell_alias_line("  alias nested='echo no'", 4).is_none());
    assert!(parse_shell_alias_line("alias -g pipe='| grep'", 5).is_none());
    assert!(parse_shell_alias_line("alias a='one' b='two'", 6).is_none());
}

#[test]
fn main_skips_repeated_names() {
    let aliases = find_shell_aliases(
        "alias gs='git status'\nalias ll='ls -lah'\nalias gs='git status --short'\n",
    );
    assert_eq!(aliases.len(), 1);
    assert_eq!(aliases[0].name, "ll");
}

#[test]
fn tests_skips_repeated_names() {
    let aliases = find_shell_aliases(
        "alias gs='git status'\nalias ll='ls -lah'\nalias gs='git status --short'\n",
    );
    assert_eq!(aliases.len(), 1);
    assert_eq!(aliases[0].name, "ll");
}

#[test]
fn parses_common_alias_forms_without_running_a_shell() {
    let single = parse_shell_alias_line("alias ll='ls -lah'", 4).unwrap();
    assert_eq!(single.name, "ll");
    assert_eq!(single.command, "ls -lah");
    assert_eq!(single.id, "shell-line-4");

    let double =
        parse_shell_alias_line(r#"alias project="cd \"$HOME/My Project\"""#, 8).unwrap();
    assert_eq!(double.command, "cd \"$HOME/My Project\"");

    let escaped = parse_shell_alias_line(r"alias notes=open\ ~/notes.txt", 12).unwrap();
    assert_eq!(escaped.command, "open ~/notes.txt");
}

#[test]
fn skips_aliases_that_are_unsafe_to_move_automatically() {
    assert!(parse_shell_alias_line("  alias nested='echo nested'", 1).is_none());
    assert!(parse_shell_alias_line("alias -g pipe='| grep'", 2).is_none());
    assert!(parse_shell_alias_line("alias one='echo one' two='echo two'", 3).is_none());
    assert!(parse_shell_alias_line("alias easya='open something-else'", 4).is_none());
    assert!(parse_shell_alias_line("alias broken='missing quote", 5).is_none());
}

#[test]
fn skips_repeated_alias_names() {
    let content = "alias gs='git status'\nalias ll='ls -lah'\nalias gs='git status --short'\n";
    let candidates = find_shell_aliases(content);

    assert_eq!(candidates.len(), 1);
    assert_eq!(candidates[0].name, "ll");
}

#[test]
fn replaces_only_confirmed_lines_and_preserves_file_shape() {
    let content = "export PATH=/opt/bin:$PATH\nalias ll='ls -lah'\nalias gs='git status'\n";
    let selected = HashMap::from([(2, "ll")]);

    assert_eq!(
        replace_imported_alias_lines(content, &selected),
        "export PATH=/opt/bin:$PATH\n: # EasyAlias imported alias ll\nalias gs='git status'\n"
    );
}

#[test]
fn replaces_only_confirmed_import_lines() {
    let content = "alias ll='ls -lah'\nalias gs='git status'\n";
    let selected = HashMap::from([(2, "gs")]);

    assert_eq!(
        replace_imported_alias_lines(content, &selected),
        "alias ll='ls -lah'\n: # EasyAlias imported alias gs\n"
    );
}

#[test]
fn parses_aliases_outside_the_managed_block() {
    let content = format!(
        "alias legacy='echo legacy'\n{}\nalias managed='echo managed'\n{}\n",
        MANAGED_BLOCK_START, MANAGED_BLOCK_END
    );
    let candidates = find_block_file_aliases(&content).unwrap();
    assert_eq!(candidates.len(), 1);
    assert_eq!(candidates[0].name, "legacy");
}

#[test]
fn updates_one_managed_block_without_touching_other_lines() {
    let original = "export PATH=/opt/bin:$PATH\n";
    let first = update_managed_block(original, &[alias("ll", "ls -lah")]).unwrap();
    let second = update_managed_block(&first, &[alias("gs", "git status")]).unwrap();

    assert!(second.starts_with(original));
    assert_eq!(second.matches(MANAGED_BLOCK_START).count(), 1);
    assert!(!second.contains("alias ll="));
    assert!(second.contains("alias gs='git status'"));
}

#[test]
fn rejects_ambiguous_managed_markers() {
    let malformed = format!("{MANAGED_BLOCK_START}\nalias ll='ls'\n");
    assert!(without_managed_block(&malformed).is_err());
}

#[test]
fn tests_expired_trash_entries_are_removed_automatically() {
    let now: u64 = 10_000_000;
    let retention: u64 = 30 * 24 * 60 * 60;
    let mut trash = vec![
        TrashEntry {
            alias: alias("old", "echo old"),
            deleted_at: now.saturating_sub(retention + 1),
        },
        TrashEntry {
            alias: alias("new", "echo new"),
            deleted_at: now,
        },
    ];

    assert!(retain_current_trash_entries(&mut trash, now));
    assert_eq!(trash.len(), 1);
    assert_eq!(trash[0].alias.id, "new");
}

#[test]
fn trash_orders_entries_newest_first_and_keeps_equal_times_in_order() {
    let mut trash = vec![
        TrashEntry { alias: alias("a", "echo a"), deleted_at: 100 },
        TrashEntry { alias: alias("b", "echo b"), deleted_at: 300 },
        TrashEntry { alias: alias("c", "echo c"), deleted_at: 100 },
        TrashEntry { alias: alias("d", "echo d"), deleted_at: 200 },
    ];
    assert!(!retain_current_trash_entries(&mut trash, 1000));
    let order: Vec<&str> = trash.iter().map(|entry| entry.alias.id.as_str()).collect();
    assert_eq!(order, vec!["b", "d", "a", "c"]);
}

#[test]
fn decodes_quotes_escapes_and_comments() {
    assert_eq!(decode_alias_value("'ls -lah'").unwrap(), "ls -lah");
    assert_eq!(decode_alias_value("\"a\\$b\\q\"").unwrap(), "a$b\\q");
    assert_eq!(decode_alias_value("ls # comment").unwrap(), "ls");
    assert!(decode_alias_value("ls extra").is_none());
    assert!(decode_alias_value("'  '").is_none());
    assert!(decode_alias_value("\"open").is_none());
    assert!(decode_alias_value("trailing\\").is_none());
}

#[test]
fn single_quoted_commands_are_read_back_unchanged() {
    for command in ["echo 'hi'", "ls -lah", "it's \"quoted\" $HOME"] {
        let quoted = single_quote(command);
        assert_eq!(decode_alias_value(&quoted).unwrap(), command);
        let line = format!("alias demo={}", quoted);
        let parsed = parse_shell_alias_line(&line, 1).unwrap();
        assert_eq!(parsed.name, "demo");
        assert_eq!(parsed.command, command);
    }
    assert_eq!(single_quote("it's"), "'it'\\''s'");
}

#[test]
fn validates_alias_names_strictly() {
    assert!(validate_alias_name("gs"));
    assert!(validate_alias_name("_build-2"));
    assert!(!validate_alias_name(""));
    assert!(!validate_alias_name("2fast"));
    assert!(!validate_alias_name("a b"));
    assert!(!validate_alias_name("ä"));
}

#[test]
fn renders_the_generated_aliases_file() {
    let text = render_aliases(&[alias("ll", "ls -lah"), alias("q", "it's")]).unwrap();
    assert_eq!(
        text,
        "# Generated by EasyAlias.\n# Edit aliases in the app, not by hand.\n\nalias ll='ls -lah'\nalias q='it'\\''s'\n"
    );
    assert_eq!(
        render_aliases(&[]).unwrap(),
        "# Generated by EasyAlias.\n# Edit aliases in the app, not by hand.\n\n"
    );
}

#[test]
fn reports_each_alias_entry_error() {
    let mut entry = alias("ll", "ls");
    entry.id = "  ".to_string();
    assert_eq!(validate_alias_entry(&entry).unwrap_err(), "Alias \"ll\" has no id.");
    let mut entry = alias("1ll", "ls");
    entry.id = "x".to_string();
    assert_eq!(validate_alias_entry(&entry).unwrap_err(), "Invalid alias name: 1ll");
    let mut entry = alias("ll", "ls");
    entry.action = "teleport".to_string();
    assert_eq!(validate_alias_entry(&entry).unwrap_err(), "Alias \"ll\" has an unsupported action.");
    let entry = alias("ll", " ");
    assert_eq!(validate_alias_entry(&entry).unwrap_err(), "Alias ll has no command.");
    let mut entry = alias("ll", "ls");
    entry.updated_at = String::new();
    assert_eq!(validate_alias_entry(&entry).unwrap_err(), "Alias \"ll\" has incomplete timestamps.");
    assert!(render_aliases(&[alias("ok", "ls"), alias("bad name", "ls")]).is_err());
}

#[test]
fn rejects_duplicate_ids_and_names_in_collections() {
    assert!(validate_alias_collection(&[alias("a", "ls"), alias("b", "ls")]).is_ok());
    let mut second = alias("b", "ls");
    second.id = "a".to_string();
    assert_eq!(
        validate_alias_collection(&[alias("a", "ls"), second]).unwrap_err(),
        "Duplicate alias id in backup: a"
    );
    let mut second = alias("a", "ls");
    second.id = "other".to_string();
    assert_eq!(
        validate_alias_collection(&[alias("a", "ls"), second]).unwrap_err(),
        "Duplicate alias name in backup: a"
    );
    let many: Vec<AliasEntry> = (0..5001).map(|i| alias(&format!("a{}", i), "ls")).collect();
    assert_eq!(
        validate_alias_collection(&many).unwrap_err(),
        "Backup contains more than 5000 aliases."
    );
}

#[test]
fn managed_block_round_trip() {
    let content = "export A=1\n\n\n";
    let updated = update_managed_block(content, &[alias("ll", "ls -lah")]).unwrap();
    assert_eq!(
        updated,
        format!(
            "export A=1\n\n{}\n# Managed by EasyAlias. Edit these aliases in the app.\nalias ll='ls -lah'\n{}\n",
            MANAGED_BLOCK_START, MANAGED_BLOCK_END
        )
    );
    assert!(managed_block_present(&updated));
    assert!(!managed_block_present(content));
    assert_eq!(without_managed_block(&updated).unwrap(), "export A=1\n\n");
    let doubled = format!("{0}\n{1}\n{0}\n{1}\n", MANAGED_BLOCK_START, MANAGED_BLOCK_END);
    assert_eq!(
        without_managed_block(&doubled).unwrap_err(),
        "A shell startup file contains multiple EasyAlias blocks."
    );
    let stray_end = format!("{}\n", MANAGED_BLOCK_END);
    assert_eq!(
        without_managed_block(&stray_end).unwrap_err(),
        "A shell startup file contains an unmatched EasyAlias end marker."
    );
    assert!(find_block_file_aliases(&stray_end).is_err());
}

#[test]
fn updating_twice_with_the_same_aliases_changes_nothing() {
    let aliases = [alias("ll", "ls -lah"), alias("gs", "git status")];
    for content in [
        "",
        "\n",
        "export A=1",
        "export A=1\n\n\n",
        "export A=1\n# >>> EasyAlias managed aliases >>>\nalias x='y'\n# <<< EasyAlias managed aliases <<<\nexport B=2\n",
    ] {
        let once = update_managed_block(content, &aliases).unwrap();
        let twice = update_managed_block(&once, &aliases).unwrap();
        assert_eq!(once, twice);
        let starts = once.lines().filter(|l| l.trim() == MANAGED_BLOCK_START).count();
        let ends = once.lines().filter(|l| l.trim() == MANAGED_BLOCK_END).count();
        assert_eq!((starts, ends), (1, 1));
    }
}

#[test]
fn removing_the_block_twice_changes_nothing() {
    let content = format!(
        "export A=1\n{}\nalias x='y'\n{}\nexport B=2\n",
        MANAGED_BLOCK_START, MANAGED_BLOCK_END
    );
    let once = without_managed_block(&content).unwrap();
    assert_eq!(once, "export A=1\nexport B=2\n");
    assert_eq!(without_managed_block(&once).unwrap(), once);
    let indented = format!("a\n  {}  \nb\n\t{}\nc", MANAGED_BLOCK_START, MANAGED_BLOCK_END);
    assert_eq!(without_managed_block(&indented).unwrap(), "a\nc");
}

#[test]
fn marker_order_decides_whether_a_block_is_present() {
    let unclosed = format!("x\n{}\ny\n", MANAGED_BLOCK_START);
    assert!(without_managed_block(&unclosed).is_err());
    assert!(!managed_block_present(&unclosed));
    let reversed = format!("{}\n{}\n", MANAGED_BLOCK_END, MANAGED_BLOCK_START);
    assert!(without_managed_block(&reversed).is_err());
    assert!(!managed_block_present(&reversed));
    let plain = "x\ny\n";
    assert_eq!(without_managed_block(plain).unwrap(), plain);
    assert!(!managed_block_present(plain));
    let one = format!("{}\n{}\n", MANAGED_BLOCK_START, MANAGED_BLOCK_END);
    assert!(managed_block_present(&one));
}

#[test]
fn replacing_lines_keeps_the_line_count() {
    let content = "a\nalias ll='ls'\n\nalias gs='git status'";
    let selected = HashMap::from([(2, "ll"), (4, "gs"), (9, "zz")]);
    let replaced = replace_imported_alias_lines(content, &selected);
    assert_eq!(replaced.split('\n').count(), content.split('\n').count());
    assert_eq!(
        replaced,
        "a\n: # EasyAlias imported alias ll\n\n: # EasyAlias imported alias gs"
    );
    let none: HashMap<usize, &str> = HashMap::new();
    assert_eq!(replace_imported_alias_lines(content, &none), content);
}
