use easyalias::tui_keys::{search_key, SearchKey};
use easyalias::settings::{cycled_sun_region, cycled_theme};
use easyalias::automation_edit::{parse_u64_chars, save_editor};
use easyalias::automation_edit::{assign_group, group_notice, toggle_alias_favorite, toggle_automation_favorite};
use easyalias::alias_entry::AliasEntry;
use easyalias::automation::{Automation, AutomationStep};
use easyalias::backup_view::{
    alias_backup_items, automation_backup_items, backup_key, export_notice, import_notice,
    submit_backup, BackupForm, BackupItem, BackupKey, BackupKind, BackupMode, BackupSubmit,
};
use easyalias::list_view::{
    alias_filter_key, automation_filter_label, automation_groups, automation_rows,
    clamp_row_selection, cycle_automation_filter, move_selection, skip_headers, visible_aliases,
    AutomationRow,
};
use easyalias::run_view::{RunEvent, RunKey, RunView, StepStatus};
use easyalias::text_input::{Key, KeyCode, TextInput};
use easyalias::timed::TimedAutomation;
use easyalias::tui_forms::{
    alias_form_key, editor_key, insert_step, new_step, schedule_key, step_input, toggle_day,
    AliasForm, EditorForm, EditorKey, FormKey, ScheduleForm, ScheduleKey,
};
use easyalias::tui_keys::{
    aliases_key, automations_key, clamp_selection, confirm_key, cycle, global_key, group_pick,
    help_key, move_index, next_tab, previous_tab, settings_key, suggestion_key, toggle_all_checked,
    toggle_checked, trash_key, trash_selection, AliasesKey, AutomationsKey, Choice, GlobalKey,
    HelpKey, SettingsKey, SuggestionKey, Tab, TrashKey,
};

fn key(code: KeyCode) -> Key {
    Key { code, ctrl: false, alt: false, shift: false }
}

fn ch(c: char) -> Key {
    key(KeyCode::Char(c))
}

fn ctrl(c: char) -> Key {
    Key { code: KeyCode::Char(c), ctrl: true, alt: false, shift: false }
}

fn shift(code: KeyCode) -> Key {
    Key { code, ctrl: false, alt: false, shift: true }
}

#[test]
fn list_keys_move_within_the_list() {
    assert_eq!(move_index(3, 20, &key(KeyCode::Up)), 2);
    assert_eq!(move_index(0, 20, &ch('k')), 0);
    assert_eq!(move_index(3, 20, &ch('j')), 4);
    assert_eq!(move_index(19, 20, &key(KeyCode::Down)), 19);
    assert_eq!(move_index(5, 20, &key(KeyCode::PageUp)), 0);
    assert_eq!(move_index(5, 20, &key(KeyCode::PageDown)), 15);
    assert_eq!(move_index(15, 20, &key(KeyCode::PageDown)), 19);
    assert_eq!(move_index(7, 20, &key(KeyCode::Home)), 0);
    assert_eq!(move_index(7, 20, &key(KeyCode::End)), 19);
    assert_eq!(move_index(7, 0, &key(KeyCode::End)), 0);
    assert_eq!(move_index(7, 20, &ctrl('j')), 7);
    assert_eq!(clamp_selection(9, 4), 3);
    assert_eq!(clamp_selection(9, 0), 0);
}

#[test]
fn rings_of_choices_wrap_around_and_undo_each_other() {
    assert_eq!(cycle(5, 6, true), 0);
    assert_eq!(cycle(0, 6, false), 5);
    assert_eq!(cycle(cycle(3, 6, true), 6, false), 3);
    assert_eq!(cycle(13, 6, true), 2);
    for tab in [Tab::Aliases, Tab::Automations, Tab::Settings] {
        assert!(previous_tab(next_tab(tab)) == tab);
        assert!(next_tab(next_tab(next_tab(tab))) == tab);
    }
}

#[test]
fn global_keys_quit_help_and_switch_tabs() {
    assert!(matches!(global_key(Tab::Aliases, &ch('q')), GlobalKey::Quit));
    assert!(matches!(global_key(Tab::Aliases, &ctrl('q')), GlobalKey::PassOn));
    assert!(matches!(global_key(Tab::Automations, &ch('?')), GlobalKey::Help(1)));
    assert!(matches!(global_key(Tab::Settings, &ch('?')), GlobalKey::Help(0)));
    assert!(matches!(global_key(Tab::Aliases, &ch('3')), GlobalKey::Show(Tab::Settings)));
    assert!(matches!(global_key(Tab::Settings, &key(KeyCode::Tab)), GlobalKey::Show(Tab::Aliases)));
    assert!(matches!(global_key(Tab::Aliases, &key(KeyCode::BackTab)), GlobalKey::Show(Tab::Settings)));
    assert!(matches!(global_key(Tab::Aliases, &ch('x')), GlobalKey::PassOn));
}

#[test]
fn the_tutorial_pages_forward_and_back_across_topics() {
    let counts = vec![3usize, 2, 1];
    assert!(matches!(help_key(0, 1, &counts, false, &key(KeyCode::Right)), HelpKey::Show(0, 2)));
    assert!(matches!(help_key(0, 2, &counts, false, &key(KeyCode::Enter)), HelpKey::Show(1, 0)));
    assert!(matches!(help_key(2, 0, &counts, false, &ch(' ')), HelpKey::Close));
    assert!(matches!(help_key(1, 0, &counts, false, &key(KeyCode::Left)), HelpKey::Show(0, 2)));
    assert!(matches!(help_key(0, 0, &counts, false, &ch('h')), HelpKey::Show(0, 0)));
    assert!(matches!(help_key(2, 0, &counts, false, &key(KeyCode::Tab)), HelpKey::Show(0, 0)));
    assert!(matches!(help_key(0, 1, &counts, false, &key(KeyCode::Up)), HelpKey::Show(2, 0)));
    assert!(matches!(help_key(0, 1, &counts, false, &ch('2')), HelpKey::Show(1, 0)));
    assert!(matches!(help_key(0, 1, &counts, false, &ch('9')), HelpKey::Show(2, 0)));
    assert!(matches!(help_key(2, 0, &counts, true, &ch('s')), HelpKey::OpenSupport));
    assert!(matches!(help_key(2, 0, &counts, false, &ch('s')), HelpKey::Show(2, 0)));
    assert!(matches!(help_key(1, 1, &counts, false, &key(KeyCode::Esc)), HelpKey::Close));
}

#[test]
fn trash_lists_restore_ask_and_move() {
    assert!(matches!(trash_key(1, 3, &key(KeyCode::Esc)), TrashKey::Close));
    assert!(matches!(trash_key(1, 3, &ch('r')), TrashKey::Restore(1)));
    assert!(matches!(trash_key(1, 3, &key(KeyCode::Delete)), TrashKey::AskDelete(1)));
    assert!(matches!(trash_key(5, 3, &ch('d')), TrashKey::Select(2)));
    assert!(matches!(trash_key(0, 3, &ch('E')), TrashKey::AskEmpty));
    assert!(matches!(trash_key(0, 0, &ch('E')), TrashKey::Select(0)));
    assert!(matches!(trash_key(1, 3, &key(KeyCode::Down)), TrashKey::Select(2)));
    assert_eq!(trash_selection(4, 2, &ch('r')), 1);
}

#[test]
fn questions_groups_suggestions_and_settings() {
    assert!(confirm_key(&ch('Y')) == Choice::Yes);
    assert!(confirm_key(&key(KeyCode::Enter)) == Choice::Yes);
    assert!(confirm_key(&key(KeyCode::Esc)) == Choice::No);
    assert!(confirm_key(&ch('x')) == Choice::Undecided);
    assert_eq!(group_pick(None, 3, true), 0);
    assert_eq!(group_pick(None, 3, false), 2);
    assert_eq!(group_pick(Some(2), 3, true), 0);
    assert_eq!(group_pick(Some(0), 3, false), 2);
    assert!(matches!(suggestion_key(2, 5, &ch(' ')), SuggestionKey::Use(2, 2)));
    assert!(matches!(suggestion_key(2, 5, &ch('j')), SuggestionKey::Select(3)));
    assert!(matches!(suggestion_key(2, 5, &ch('q')), SuggestionKey::Close));
    assert!(matches!(settings_key(0, &key(KeyCode::Down)), SettingsKey::Select(1)));
    assert!(matches!(settings_key(6, &key(KeyCode::Down)), SettingsKey::Select(6)));
    assert!(matches!(settings_key(0, &ch('h')), SettingsKey::Theme(false)));
    assert!(matches!(settings_key(1, &key(KeyCode::Enter)), SettingsKey::Suggestions));
    assert!(matches!(settings_key(2, &key(KeyCode::Right)), SettingsKey::SunRegion(true)));
    assert!(matches!(settings_key(4, &ch(' ')), SettingsKey::OpenLink(1)));
    assert!(matches!(settings_key(4, &key(KeyCode::Left)), SettingsKey::Nothing));
    assert!(matches!(settings_key(4, &ch('x')), SettingsKey::Nothing));
}

#[test]
fn tab_keys_map_to_their_actions() {
    assert!(matches!(aliases_key(1, 4, 0, &key(KeyCode::End)), AliasesKey::Select(3)));
    assert!(matches!(aliases_key(1, 4, 5, &ch('f')), AliasesKey::Filter(0)));
    assert!(matches!(aliases_key(1, 4, 0, &ch('F')), AliasesKey::Filter(5)));
    assert!(matches!(aliases_key(1, 4, 0, &ch('a')), AliasesKey::Create));
    assert!(matches!(aliases_key(1, 4, 0, &ch('*')), AliasesKey::Favorite));
    assert!(matches!(aliases_key(1, 4, 0, &ch('B')), AliasesKey::ImportBackup));
    assert!(matches!(aliases_key(1, 4, 0, &key(KeyCode::Esc)), AliasesKey::Reset));
    assert!(matches!(automations_key(&key(KeyCode::Home)), AutomationsKey::MoveBy(-10000)));
    assert!(matches!(automations_key(&key(KeyCode::PageDown)), AutomationsKey::MoveBy(10)));
    assert!(matches!(automations_key(&ch('k')), AutomationsKey::MoveBy(-1)));
    assert!(matches!(automations_key(&key(KeyCode::Enter)), AutomationsKey::Run));
    assert!(matches!(automations_key(&key(KeyCode::Backspace)), AutomationsKey::AskDelete));
    assert!(matches!(automations_key(&ch('c')), AutomationsKey::Schedule));
    assert!(matches!(automations_key(&ch('F')), AutomationsKey::Filter(false)));
}

#[test]
fn ticking_twice_leaves_the_choice_as_it_was() {
    let mut checked: Vec<String> = vec!["a".to_string(), "b".to_string()];
    toggle_checked(&mut checked, "c");
    assert_eq!(checked, vec!["a", "b", "c"]);
    toggle_checked(&mut checked, "c");
    assert_eq!(checked, vec!["a", "b"]);
    toggle_checked(&mut checked, "a");
    assert_eq!(checked, vec!["b"]);
    let ids: Vec<String> = vec!["x".to_string(), "y".to_string(), "x".to_string()];
    toggle_all_checked(&mut checked, &ids);
    assert_eq!(checked, vec!["x", "y"]);
    let two: Vec<String> = vec!["p".to_string(), "q".to_string()];
    toggle_all_checked(&mut checked, &two);
    assert!(checked.is_empty());
}

fn schedule(days: &[&str]) -> TimedAutomation {
    TimedAutomation {
        id: "t1".to_string(),
        automation_id: "a1".to_string(),
        trigger_kind: "clock".to_string(),
        time: "07:30".to_string(),
        days: days.iter().map(|d| d.to_string()).collect(),
        enabled: true,
        created_at: "2026-01-01T00:00:00.000Z".to_string(),
        updated_at: "2026-01-01T00:00:00.000Z".to_string(),
        last_run_at: None,
        last_run_status: None,
        last_run_output: None,
        last_triggered_date: None,
    }
}

#[test]
fn choosing_a_day_again_takes_it_out_and_days_stay_in_week_order() {
    let mut days: Vec<String> = vec!["fri".to_string(), "mon".to_string()];
    toggle_day(&mut days, "wed");
    assert_eq!(days, vec!["mon", "wed", "fri"]);
    toggle_day(&mut days, "wed");
    assert_eq!(days, vec!["mon", "fri"]);
    let mut odd: Vec<String> = vec!["someday".to_string()];
    toggle_day(&mut odd, "sun");
    assert_eq!(odd, vec!["sun", "someday"]);
}

fn schedule_form(exists: bool) -> ScheduleForm {
    ScheduleForm {
        entry: schedule(&[]),
        automation_name: "Deploy".to_string(),
        exists,
        time: TextInput::new("07:30"),
        focus: 0,
        day_cursor: 0,
        error: "old".to_string(),
    }
}

#[test]
fn the_schedule_dialog_edits_trigger_time_days_and_switch() {
    let mut form = schedule_form(true);
    assert!(matches!(schedule_key(&mut form, &ctrl('d')), ScheduleKey::AskRemove));
    assert!(matches!(schedule_key(&mut form, &ch(' ')), ScheduleKey::Stay));
    assert_eq!(form.entry.trigger_kind, "sunrise");
    assert_eq!(form.error, "");
    assert!(matches!(schedule_key(&mut form, &key(KeyCode::Left)), ScheduleKey::Stay));
    assert!(matches!(schedule_key(&mut form, &key(KeyCode::Left)), ScheduleKey::Stay));
    assert_eq!(form.entry.trigger_kind, "sunset");
    assert!(matches!(schedule_key(&mut form, &key(KeyCode::Tab)), ScheduleKey::Stay));
    assert_eq!(form.focus, 1);
    assert!(matches!(schedule_key(&mut form, &ch('l')), ScheduleKey::SunRegion(true)));
    form.entry.trigger_kind = "clock".to_string();
    schedule_key(&mut form, &ch('x'));
    assert_eq!(form.time.value, "07:30");
    schedule_key(&mut form, &key(KeyCode::Backspace));
    schedule_key(&mut form, &ch('5'));
    assert_eq!(form.time.value, "07:35");
    schedule_key(&mut form, &key(KeyCode::Down));
    schedule_key(&mut form, &ch('3'));
    schedule_key(&mut form, &key(KeyCode::Right));
    schedule_key(&mut form, &ch(' '));
    assert_eq!(form.entry.days, vec!["wed", "thu"]);
    assert_eq!(form.day_cursor, 3);
    schedule_key(&mut form, &ch('a'));
    assert!(form.entry.days.is_empty());
    schedule_key(&mut form, &key(KeyCode::Up));
    schedule_key(&mut form, &key(KeyCode::Up));
    schedule_key(&mut form, &key(KeyCode::Up));
    assert_eq!(form.focus, 3);
    schedule_key(&mut form, &ch(' '));
    assert!(!form.entry.enabled);
    assert!(matches!(schedule_key(&mut form, &key(KeyCode::Enter)), ScheduleKey::Save));
    assert!(matches!(schedule_key(&mut form, &key(KeyCode::Esc)), ScheduleKey::Close));
    let mut fresh = schedule_form(false);
    assert!(matches!(schedule_key(&mut fresh, &ctrl('d')), ScheduleKey::Stay));
}

fn alias_form() -> AliasForm {
    AliasForm {
        editing_id: None,
        name: TextInput::new(""),
        action: 0,
        path: TextInput::new("~/Pro"),
        custom: TextInput::new(""),
        focus: 0,
        error: "Name is required.".to_string(),
        completions: vec!["~/Projects/".to_string()],
    }
}

#[test]
fn the_alias_form_moves_switches_actions_and_submits() {
    let mut form = alias_form();
    assert!(matches!(alias_form_key(&mut form, &ch('p')), FormKey::Stay));
    assert_eq!(form.name.value, "p");
    assert_eq!(form.error, "");
    assert!(form.completions.is_empty());
    alias_form_key(&mut form, &key(KeyCode::Down));
    alias_form_key(&mut form, &key(KeyCode::Left));
    assert_eq!(form.action, 5);
    alias_form_key(&mut form, &ch(' '));
    assert_eq!(form.action, 0);
    alias_form_key(&mut form, &key(KeyCode::Tab));
    assert_eq!(form.focus, 2);
    assert!(matches!(alias_form_key(&mut form, &key(KeyCode::Tab)), FormKey::CompletePath));
    alias_form_key(&mut form, &ch('j'));
    assert_eq!(form.path.value, "~/Proj");
    assert!(matches!(alias_form_key(&mut form, &key(KeyCode::Enter)), FormKey::Submit));
    alias_form_key(&mut form, &key(KeyCode::Up));
    assert_eq!(form.focus, 1);
    assert!(matches!(alias_form_key(&mut form, &ctrl('s')), FormKey::Submit));
    assert!(matches!(alias_form_key(&mut form, &key(KeyCode::Esc)), FormKey::Close));
}

fn command(id: &str, text: &str) -> AutomationStep {
    AutomationStep {
        id: id.to_string(),
        kind: "command".to_string(),
        command: text.to_string(),
        seconds: 0,
        behavior: "wait".to_string(),
    }
}

fn automation(id: &str, name: &str, group: &str, favorite: bool, steps: Vec<AutomationStep>) -> Automation {
    Automation {
        id: id.to_string(),
        name: name.to_string(),
        path: "~/Projects/app".to_string(),
        steps,
        favorite,
        group: group.to_string(),
        hotkey: None,
        created_at: "2026-01-01T00:00:00.000Z".to_string(),
        updated_at: "2026-01-01T00:00:00.000Z".to_string(),
    }
}

fn editor() -> EditorForm {
    let a = automation("a1", "Deploy", "", false, vec![command("s1", "git pull"), command("s2", "make")]);
    let inputs = a.steps.iter().map(step_input).collect();
    EditorForm {
        name: TextInput::new(&a.name),
        path: TextInput::new(&a.path),
        group: TextInput::new(&a.group),
        step_inputs: inputs,
        automation: a,
        focus: 0,
        is_new: false,
        error: "old".to_string(),
        completions: Vec::new(),
    }
}

fn step_ids(e: &EditorForm) -> Vec<String> {
    e.automation.steps.iter().map(|s| s.id.clone()).collect()
}

#[test]
fn the_editor_adds_moves_toggles_and_removes_steps() {
    let mut e = editor();
    assert!(matches!(editor_key(&mut e, &key(KeyCode::Tab)), EditorKey::Stay));
    assert!(matches!(editor_key(&mut e, &key(KeyCode::Tab)), EditorKey::CompletePath));
    editor_key(&mut e, &key(KeyCode::Down));
    editor_key(&mut e, &key(KeyCode::Down));
    assert_eq!(e.focus, 3);
    match editor_key(&mut e, &ctrl('p')) {
        EditorKey::AddStep(wait, at) => {
            assert!(wait);
            assert_eq!(at, 1);
            insert_step(&mut e, at, new_step(wait, "s3".to_string()));
        }
        _ => panic!("Control+P adds a wait step"),
    }
    assert_eq!(step_ids(&e), vec!["s1", "s3", "s2"]);
    assert_eq!(e.step_inputs[1].value, "10");
    assert_eq!(e.focus, 4);
    editor_key(&mut e, &ch('x'));
    assert_eq!(e.step_inputs[1].value, "10");
    editor_key(&mut e, &ch('5'));
    assert_eq!(e.step_inputs[1].value, "105");
    editor_key(&mut e, &shift(KeyCode::Down));
    assert_eq!(step_ids(&e), vec!["s1", "s2", "s3"]);
    assert_eq!(e.focus, 5);
    editor_key(&mut e, &shift(KeyCode::Up));
    assert_eq!(step_ids(&e), vec!["s1", "s3", "s2"]);
    assert_eq!(e.focus, 4);
    editor_key(&mut e, &ctrl('x'));
    assert_eq!(step_ids(&e), vec!["s1", "s2"]);
    editor_key(&mut e, &ctrl('t'));
    assert_eq!(e.automation.steps[1].behavior, "background");
    editor_key(&mut e, &ctrl('t'));
    assert_eq!(e.automation.steps[1].behavior, "wait");
    assert!(matches!(editor_key(&mut e, &key(KeyCode::Enter)), EditorKey::Save));
    assert!(matches!(editor_key(&mut e, &key(KeyCode::Esc)), EditorKey::Close));
}

#[test]
fn a_full_automation_takes_no_more_steps() {
    let mut e = editor();
    while e.automation.steps.len() < 100 {
        let at = e.automation.steps.len();
        insert_step(&mut e, at, new_step(false, format!("x{}", at)));
    }
    assert!(matches!(editor_key(&mut e, &ctrl('n')), EditorKey::Stay));
    assert_eq!(e.error, "An automation can have at most 100 steps.");
    assert_eq!(e.automation.steps.len(), 100);
}

#[test]
fn the_run_view_follows_reports_and_settles_when_done() {
    let a = automation("a1", "Deploy", "", false, vec![command("s1", "git pull"), command("s2", "make")]);
    let mut run = RunView::start(&a);
    assert_eq!(run.steps.len(), 2);
    assert_eq!(run.steps[0].label, "git pull");
    run.apply(RunEvent::StepStarted(0));
    assert!(run.steps[0].status == StepStatus::Running);
    run.apply(RunEvent::StepFinished(0, StepStatus::Error, "boom".to_string(), Some("Step 1 failed.".to_string())));
    assert!(run.steps[0].status == StepStatus::Error);
    assert_eq!(run.steps[0].output, "boom");
    assert!(run.request_stop());
    assert!(!run.request_stop());
    run.apply(RunEvent::Done);
    assert!(!run.running);
    assert!(run.steps[1].status == StepStatus::Skipped);
    assert_eq!(run.error, "Automation stopped. A background process that already started keeps running.");
    assert!(!run.succeeded());
    assert!(matches!(run.key(&ch('r')), RunKey::Restart));
    assert!(matches!(run.key(&ch('j')), RunKey::Stay));
    assert_eq!(run.selected, 1);
    assert!(!run.follow);
    run.key(&key(KeyCode::PageDown));
    assert_eq!(run.scroll, 10);
    run.key(&ch('f'));
    assert!(run.follow);
    assert_eq!(run.selected, 0);
    assert_eq!(run.scroll, 0);
}

fn alias(id: &str, name: &str, command: &str, favorite: bool) -> AliasEntry {
    AliasEntry {
        id: id.to_string(),
        name: name.to_string(),
        path: String::new(),
        action: "custom".to_string(),
        custom_command: Some(command.to_string()),
        command_preview: command.to_string(),
        favorite,
        created_at: "2026-01-01T00:00:00.000Z".to_string(),
        updated_at: "2026-01-01T00:00:00.000Z".to_string(),
    }
}

#[test]
fn the_alias_list_searches_filters_and_sorts_favorites_first() {
    let aliases = vec![
        alias("1", "zeta", "git status", false),
        alias("2", "Alpha", "docker ps", false),
        alias("3", "mid", "git log", true),
    ];
    assert_eq!(visible_aliases(&aliases, "all", ""), vec![2, 1, 0]);
    assert_eq!(visible_aliases(&aliases, alias_filter_key(2), ""), vec![2, 0]);
    assert_eq!(visible_aliases(&aliases, "all", "  GIT "), vec![2, 0]);
    assert_eq!(visible_aliases(&aliases, "favorites", "docker"), Vec::<usize>::new());
}

#[test]
fn the_automation_list_groups_and_skips_headers() {
    let autos = vec![
        automation("a", "Zed", " Work ", false, vec![command("1", "git pull")]),
        automation("b", "alpha", "", false, vec![command("2", "make")]),
        automation("c", "Beta", "work", true, vec![command("3", "npm run build")]),
        automation("d", "gamma", "Work", false, vec![command("4", "ls")]),
    ];
    let groups = automation_groups(&autos);
    assert_eq!(groups.len(), 2);
    assert!(groups.contains(&"Work".to_string()) && groups.contains(&"work".to_string()));
    let rows = automation_rows(&autos, "all", "", &groups);
    let items: Vec<usize> = rows.iter().map(|r| match r { AutomationRow::Item(i) => *i, _ => 99 }).collect();
    assert_eq!(items, vec![2, 1, 3, 0]);
    let grouped = automation_rows(&autos, "groups", "", &vec!["Work".to_string()]);
    let shape: Vec<String> = grouped
        .iter()
        .map(|r| match r {
            AutomationRow::Header(t, n) => format!("{}:{}", t, n),
            AutomationRow::Item(i) => i.to_string(),
        })
        .collect();
    assert_eq!(shape, vec!["Work:2", "3", "0", "Ungrouped:1", "1"]);
    assert_eq!(skip_headers(&grouped, 0, true), 1);
    assert_eq!(skip_headers(&grouped, 3, false), 2);
    assert_eq!(skip_headers(&grouped, 3, true), 4);
    assert_eq!(move_selection(&grouped, 1, 1), Some(2));
    assert_eq!(move_selection(&grouped, 2, 1), Some(4));
    assert_eq!(move_selection(&grouped, 2, -10000), Some(1));
    assert_eq!(move_selection(&Vec::new(), 0, 1), None);
    assert_eq!(clamp_row_selection(&grouped, 30), 4);
    let searched = automation_rows(&autos, "all", " BUILD", &groups);
    assert_eq!(searched.len(), 1);
    assert_eq!(cycle_automation_filter("groups", &vec!["Work".to_string()], true), "group:Work");
    assert_eq!(cycle_automation_filter("group:Work", &vec!["Work".to_string()], true), "all");
    assert_eq!(cycle_automation_filter("nonsense", &vec!["Work".to_string()], false), "group:Work");
    assert_eq!(automation_filter_label("group:Work"), "Group: Work");
    assert_eq!(automation_filter_label("group:"), "Ungrouped");
    assert_eq!(automation_filter_label("groups"), "Group view");
    assert_eq!(automation_filter_label("weird"), "All automations");
}

#[test]
fn backup_entries_are_listed_like_the_lists() {
    let aliases = vec![alias("1", "zeta", "git status", false), alias("3", "mid", "git log", true)];
    let items = alias_backup_items(&aliases);
    assert_eq!(items[0].label, "★ mid");
    assert_eq!(items[1].detail, "git status");
    let autos = vec![
        automation("a", "Zed", " Work ", false, vec![command("1", "git pull")]),
        automation("b", "alpha", "", false, vec![command("2", "make"), command("3", "ls")]),
    ];
    let items = automation_backup_items(&autos);
    assert_eq!(items[0].id, "b");
    assert_eq!(items[0].detail, "2 steps");
    assert_eq!(items[1].detail, "1 step · Work");
}

fn backup_form(mode: BackupMode) -> BackupForm {
    BackupForm {
        kind: BackupKind::Aliases,
        mode,
        path: TextInput::new("~/backup.json"),
        items: vec![
            BackupItem { id: "1".to_string(), label: "a".to_string(), detail: "x".to_string() },
            BackupItem { id: "2".to_string(), label: "b".to_string(), detail: "y".to_string() },
        ],
        checked: vec!["1".to_string(), "2".to_string()],
        selected: 0,
        focus_list: true,
        loaded_path: None,
        overwrite_armed: false,
        error: String::new(),
        completions: Vec::new(),
    }
}

#[test]
fn the_backup_dialog_ticks_checks_and_confirms_overwrites() {
    let mut form = backup_form(BackupMode::Export);
    backup_key(&mut form, &ch(' '), "/home/me/backup.json");
    assert_eq!(form.checked, vec!["2"]);
    backup_key(&mut form, &ch('a'), "/home/me/backup.json");
    assert_eq!(form.checked.len(), 2);
    backup_key(&mut form, &ch('a'), "/home/me/backup.json");
    assert!(form.checked.is_empty());
    assert!(matches!(submit_backup(&mut form, false, false), BackupSubmit::Stay));
    assert_eq!(form.error, "Select at least one alias to export.");
    backup_key(&mut form, &ch(' '), "/home/me/backup.json");
    assert!(matches!(submit_backup(&mut form, true, true), BackupSubmit::Stay));
    assert_eq!(form.error, "That is a folder - add a file name like backup.json.");
    assert!(matches!(submit_backup(&mut form, false, true), BackupSubmit::Stay));
    assert!(form.overwrite_armed);
    match submit_backup(&mut form, false, true) {
        BackupSubmit::Export(ids) => assert_eq!(ids, vec!["1"]),
        _ => panic!("the second Enter exports"),
    }
    backup_key(&mut form, &key(KeyCode::Up), "/home/me/backup.json");
    assert!(!form.focus_list);
    backup_key(&mut form, &ch('x'), "/home/me/backup.json");
    assert_eq!(form.path.value, "~/backup.jsonx");
    assert!(!form.overwrite_armed);
    let mut import = backup_form(BackupMode::Import);
    import.focus_list = false;
    assert!(matches!(backup_key(&mut import, &key(KeyCode::Enter), "/home/me/backup.json"), BackupKey::Inspect));
    assert!(matches!(submit_backup(&mut import, false, false), BackupSubmit::Inspect));
    import.loaded_path = Some("/home/me/backup.json".to_string());
    assert!(matches!(backup_key(&mut import, &key(KeyCode::Enter), "/home/me/backup.json"), BackupKey::Submit));
    match submit_backup(&mut import, false, false) {
        BackupSubmit::Import(ids) => assert_eq!(ids, vec!["1", "2"]),
        _ => panic!("a loaded backup imports"),
    }
    assert_eq!(export_notice(BackupKind::Aliases, 1, "/tmp/b.json"), "1 alias exported to /tmp/b.json.");
    assert_eq!(import_notice(BackupKind::Automations, 3, 1), "3 automations imported. 1 replaced.");
    assert_eq!(import_notice(BackupKind::Aliases, 2, 0), "2 aliases imported.");
}

#[test]
fn searches_cancel_finish_move_and_edit() {
    assert!(matches!(search_key(&key(KeyCode::Esc)), SearchKey::Cancel));
    assert!(matches!(search_key(&key(KeyCode::Enter)), SearchKey::Finish));
    assert!(matches!(search_key(&key(KeyCode::PageUp)), SearchKey::Move(-10)));
    assert!(matches!(search_key(&key(KeyCode::Down)), SearchKey::Move(1)));
    assert!(matches!(search_key(&ch('j')), SearchKey::Edit));
}

#[test]
fn themes_and_regions_step_through_their_rings() {
    assert_eq!(cycled_theme("system", true), "light");
    assert_eq!(cycled_theme("system", false), "dark");
    assert_eq!(cycled_theme("dark", true), "system");
    assert_eq!(cycled_theme("odd", true), "light");
    assert_eq!(cycled_sun_region("australia", true), "us-pacific");
    assert_eq!(cycled_sun_region("us-pacific", false), "australia");
    assert_eq!(cycled_sun_region("eu-west", true), "eu-central");
    assert_eq!(cycled_sun_region("mars", true), "us-mountain");
}

#[test]
fn saving_the_editor_checks_like_the_desktop_editor() {
    assert_eq!(parse_u64_chars(&"+42".chars().collect()), Some(42));
    assert_eq!(parse_u64_chars(&"18446744073709551616".chars().collect()), None);
    assert_eq!(parse_u64_chars(&"4x".chars().collect()), None);
    let mut e = editor();
    e.name = TextInput::new("  ");
    assert_eq!(save_editor(&e, Vec::new(), "2026-02-02T00:00:00.000Z").unwrap_err(), "Enter a name for the automation.");
    let mut e = editor();
    insert_step(&mut e, 2, new_step(true, "w".to_string()));
    e.step_inputs[2] = TextInput::new(" 90000 ");
    assert_eq!(
        save_editor(&e, Vec::new(), "2026-02-02T00:00:00.000Z").unwrap_err(),
        "Step 3 must wait between 1 second and 24 hours."
    );
    e.step_inputs[2] = TextInput::new(" 30 ");
    e.step_inputs[0] = TextInput::new("  git fetch  ");
    let others = vec![automation("zz", " deploy ", "", false, vec![command("1", "ls")])];
    assert_eq!(save_editor(&e, others, "2026-02-02T00:00:00.000Z").unwrap_err(), "Automation \"Deploy\" already exists.");
    let list = vec![
        automation("x", "Other", "", false, vec![command("1", "ls")]),
        automation("a1", "Old name", "", false, vec![command("1", "ls")]),
    ];
    let saved = save_editor(&e, list, "2026-02-02T00:00:00.000Z").unwrap();
    assert_eq!(saved.len(), 2);
    assert_eq!(saved[1].name, "Deploy");
    assert_eq!(saved[1].steps[0].command, "git fetch");
    assert_eq!(saved[1].steps[2].seconds, 30);
    assert_eq!(saved[1].updated_at, "2026-02-02T00:00:00.000Z");
    let appended = save_editor(&e, Vec::new(), "t").unwrap();
    assert_eq!(appended.len(), 1);
}

#[test]
fn groups_and_favorites_change_only_the_chosen_automation() {
    let list = vec![
        automation("a", "One", "", false, vec![command("1", "ls")]),
        automation("b", "Two", "Old", false, vec![command("2", "ls")]),
    ];
    let long = "x".repeat(61);
    assert_eq!(assign_group(list.clone(), "b", &long, "t").unwrap_err(), "The group label must be at most 60 characters.");
    let grouped = assign_group(list.clone(), "b", "  Work ", "t2").unwrap();
    assert_eq!(grouped[1].group, "Work");
    assert_eq!(grouped[1].updated_at, "t2");
    assert_eq!(grouped[0].group, "");
    assert_eq!(group_notice("Two", "Work"), "Moved \"Two\" to \"Work\".");
    assert_eq!(group_notice("Two", ""), "Removed \"Two\" from its group.");
    let pinned = toggle_automation_favorite(list, "a", "t3");
    assert!(pinned[0].favorite && !pinned[1].favorite);
    let mut aliases = vec![alias("1", "one", "ls", false), alias("2", "two", "pwd", true)];
    toggle_alias_favorite(&mut aliases, "2", "t4");
    assert!(!aliases[1].favorite);
    assert_eq!(aliases[1].updated_at, "t4");
    toggle_alias_favorite(&mut aliases, "9", "t5");
    assert!(!aliases[0].favorite);
}
