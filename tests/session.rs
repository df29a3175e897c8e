use process_monitor::app::{Action, App, InputMode, Key, Severity, MESSAGE_EXPIRY_MS};
use process_monitor::process::{ProcessInfo, SortColumn};

const MB: u64 = 1024 * 1024;

fn rec(pid: &str, name: &str, mem_mb: u64) -> ProcessInfo {
    ProcessInfo { pid: pid.to_string(), name: name.to_string(), memory_bytes: mem_mb * MB }
}

fn three() -> Vec<ProcessInfo> {
    vec![rec("1", "bash", 10), rec("2", "chrome", 800), rec("3", "vim", 5)]
}

fn names(app: &App) -> Vec<String> {
    app.processes.iter().map(|p| p.name.clone()).collect()
}

fn visible(app: &App) -> Vec<String> {
    app.filtered_processes.iter().map(|&i| app.processes[i].name.clone()).collect()
}

fn select_name(app: &mut App, name: &str) {
    while app.selected_process().map(|p| p.name.as_str()) != Some(name) {
        app.handle_key(Key::Down);
    }
}

#[test]
fn new_sorts_by_pid_and_selects_first() {
    let app = App::new(vec![rec("3", "vim", 5), rec("1", "bash", 10), rec("2", "chrome", 800)], 0);
    assert_eq!(names(&app), vec!["bash", "chrome", "vim"]);
    assert_eq!(app.filtered_processes, vec![0, 1, 2]);
    assert_eq!(app.selected, Some(0));
    assert_eq!(app.input_mode, InputMode::Normal);
    assert!(app.message.is_none());
}

#[test]
fn new_on_empty_snapshot_selects_nothing() {
    let app = App::new(Vec::new(), 0);
    assert!(app.filtered_processes.is_empty());
    assert_eq!(app.selected, None);
    assert!(app.selected_process().is_none());
}

#[test]
fn memory_sort_toggles_ascending_then_descending() {
    let mut app = App::new(three(), 0);
    app.set_sort(SortColumn::Memory);
    assert!(app.sort_ascending);
    assert_eq!(names(&app), vec!["vim", "bash", "chrome"]);
    app.set_sort(SortColumn::Memory);
    assert!(!app.sort_ascending);
    assert_eq!(names(&app), vec!["chrome", "bash", "vim"]);
}

#[test]
fn name_sort_toggle_through_keys() {
    let mut app = App::new(vec![rec("1", "zsh", 1), rec("2", "Xorg", 2), rec("3", "bash", 3)], 0);
    app.handle_key(Key::Char('n'));
    assert_eq!(app.sort_column, SortColumn::Name);
    assert_eq!(names(&app), vec!["Xorg", "bash", "zsh"]);
    app.handle_key(Key::Char('n'));
    assert_eq!(names(&app), vec!["zsh", "bash", "Xorg"]);
}

#[test]
fn pid_sort_reads_numbers_and_puts_unparsable_first() {
    let mut app = App::new(vec![rec("10", "a", 1), rec("9", "b", 1), rec("x", "c", 1)], 0);
    assert_eq!(names(&app), vec!["c", "b", "a"]);
    app.set_sort(SortColumn::Pid);
    assert_eq!(names(&app), vec!["a", "b", "c"]);
}

#[test]
fn equal_keys_keep_their_order() {
    let mut app = App::new(
        vec![rec("1", "d", 7), rec("2", "c", 7), rec("3", "b", 1), rec("4", "a", 7)],
        0,
    );
    app.set_sort(SortColumn::Memory);
    assert_eq!(names(&app), vec!["b", "d", "c", "a"]);
    app.set_sort(SortColumn::Memory);
    assert_eq!(names(&app), vec!["d", "c", "a", "b"]);
}

#[test]
fn search_b_shows_only_bash() {
    let mut app = App::new(three(), 0);
    app.handle_key(Key::Char('/'));
    assert_eq!(app.input_mode, InputMode::Search);
    app.handle_key(Key::Char('b'));
    assert_eq!(app.search_query, "b");
    assert_eq!(visible(&app), vec!["bash"]);
    assert_eq!(app.selected, Some(0));
}

#[test]
fn search_ignores_case_and_matches_ids() {
    let mut app = App::new(three(), 0);
    app.handle_key(Key::Char('/'));
    app.handle_key(Key::Char('C'));
    app.handle_key(Key::Char('H'));
    assert_eq!(visible(&app), vec!["chrome"]);
    app.handle_key(Key::Backspace);
    app.handle_key(Key::Backspace);
    app.handle_key(Key::Char('3'));
    assert_eq!(visible(&app), vec!["vim"]);
}

#[test]
fn search_without_match_clears_selection() {
    let mut app = App::new(three(), 0);
    app.handle_key(Key::Char('/'));
    app.handle_key(Key::Char('q'));
    assert!(app.filtered_processes.is_empty());
    assert_eq!(app.selected, None);
}

#[test]
fn enter_keeps_query_and_escape_clears_it() {
    let mut app = App::new(three(), 0);
    app.handle_key(Key::Char('/'));
    app.handle_key(Key::Char('i'));
    app.handle_key(Key::Enter);
    assert_eq!(app.input_mode, InputMode::Normal);
    assert_eq!(app.search_query, "i");
    assert_eq!(visible(&app), vec!["vim"]);
    app.handle_key(Key::Char('/'));
    assert_eq!(app.search_query, "");
    app.handle_key(Key::Char('v'));
    app.handle_key(Key::Esc);
    assert_eq!(app.input_mode, InputMode::Normal);
    assert_eq!(app.search_query, "");
    assert_eq!(visible(&app), vec!["bash", "chrome", "vim"]);
}

#[test]
fn backspace_on_empty_query_changes_nothing() {
    let mut app = App::new(three(), 0);
    app.handle_key(Key::Char('/'));
    app.handle_key(Key::Backspace);
    assert_eq!(app.search_query, "");
    assert_eq!(app.input_mode, InputMode::Search);
    assert_eq!(visible(&app).len(), 3);
}

#[test]
fn apply_filter_twice_gives_the_same_rows() {
    let mut app = App::new(three(), 0);
    app.handle_key(Key::Char('/'));
    app.handle_key(Key::Char('h'));
    app.apply_filter();
    let once = (app.filtered_processes.clone(), app.selected);
    app.apply_filter();
    assert_eq!((app.filtered_processes.clone(), app.selected), once);
    assert_eq!(visible(&app), vec!["bash", "chrome"]);
}

#[test]
fn filter_clamps_selection_to_last_row() {
    let mut app = App::new(three(), 0);
    app.handle_key(Key::Down);
    app.handle_key(Key::Down);
    assert_eq!(app.selected, Some(2));
    app.handle_key(Key::Char('/'));
    app.handle_key(Key::Char('h'));
    assert_eq!(app.selected, Some(1));
}

#[test]
fn move_next_wraps_after_all_rows() {
    let mut app = App::new(three(), 0);
    app.handle_key(Key::Down);
    let start = app.selected;
    for _ in 0..app.filtered_processes.len() {
        app.move_next();
    }
    assert_eq!(app.selected, start);
}

#[test]
fn move_previous_wraps_to_last() {
    let mut app = App::new(three(), 0);
    app.move_previous();
    assert_eq!(app.selected, Some(2));
    app.move_previous();
    assert_eq!(app.selected, Some(1));
}

#[test]
fn moving_from_no_selection_selects_first() {
    let mut app = App::new(three(), 0);
    app.selected = None;
    app.move_next();
    assert_eq!(app.selected, Some(0));
    app.selected = None;
    app.move_previous();
    assert_eq!(app.selected, Some(0));
}

#[test]
fn moving_in_empty_list_does_nothing() {
    let mut app = App::new(Vec::new(), 0);
    app.move_next();
    app.move_previous();
    assert_eq!(app.selected, None);
}

#[test]
fn refresh_keeps_selection_on_same_pid() {
    let mut app = App::new(three(), 0);
    select_name(&mut app, "chrome");
    app.install_snapshot(
        vec![rec("7", "top", 1), rec("2", "chrome", 900), rec("1", "bash", 10)],
        2000,
    );
    assert_eq!(names(&app), vec!["bash", "chrome", "top"]);
    assert_eq!(app.selected_process().unwrap().pid, "2");
    assert_eq!(app.last_refresh, Some(2000));
}

#[test]
fn refresh_without_selected_pid_clamps() {
    let mut app = App::new(three(), 0);
    select_name(&mut app, "vim");
    app.install_snapshot(vec![rec("1", "bash", 10)], 2000);
    assert_eq!(app.selected, Some(0));
}

#[test]
fn refresh_is_due_after_interval() {
    let app = App::new(three(), 1000);
    assert!(!app.refresh_due(1000));
    assert!(!app.refresh_due(2999));
    assert!(app.refresh_due(3000));
}

#[test]
fn confirm_cancelled_by_other_key() {
    let mut app = App::new(three(), 0);
    select_name(&mut app, "chrome");
    let before = names(&app);
    assert_eq!(app.handle_key(Key::Char('k')), Action::Continue);
    assert_eq!(app.input_mode, InputMode::ConfirmKill);
    assert_eq!(app.handle_key(Key::Char('n')), Action::Continue);
    assert_eq!(app.input_mode, InputMode::Normal);
    assert_eq!(names(&app), before);
    assert!(app.message.is_none());
}

#[test]
fn confirm_kill_failure_posts_error() {
    let mut app = App::new(three(), 0);
    select_name(&mut app, "chrome");
    let before = names(&app);
    app.handle_key(Key::Char('k'));
    let action = app.handle_key(Key::Char('y'));
    assert_eq!(action, Action::Kill(2));
    assert_eq!(app.input_mode, InputMode::Normal);
    app.kill_finished(Err("Permission denied".to_string()), 500);
    let (text, sev) = app.message.clone().unwrap();
    assert_eq!(text, "Failed to kill process: Permission denied");
    assert_eq!(sev, Severity::Error);
    assert_eq!(names(&app), before);
    assert_eq!(app.input_mode, InputMode::Normal);
    assert_eq!(app.last_refresh, Some(0));
}

#[test]
fn kill_success_forces_next_refresh() {
    let mut app = App::new(three(), 0);
    app.kill_finished(Ok(()), 100);
    let (text, sev) = app.message.clone().unwrap();
    assert_eq!(text, "Process terminated");
    assert_eq!(sev, Severity::Info);
    assert!(app.refresh_due(100));
}

#[test]
fn kill_with_unusable_pid_is_silent() {
    let mut app = App::new(vec![rec("0", "idle", 1), rec("abc", "odd", 1)], 0);
    assert_eq!(app.kill_selected(), None);
    app.handle_key(Key::Char('k'));
    app.handle_key(Key::Down);
    app.handle_key(Key::Char('k'));
    assert_eq!(app.handle_key(Key::Char('y')), Action::Continue);
    assert!(app.message.is_none());
}

#[test]
fn confirm_with_nothing_selected_is_silent() {
    let mut app = App::new(Vec::new(), 0);
    app.handle_key(Key::Char('k'));
    assert_eq!(app.handle_key(Key::Char('y')), Action::Continue);
    assert_eq!(app.input_mode, InputMode::Normal);
}

#[test]
fn message_expires_after_three_seconds() {
    let mut app = App::new(three(), 0);
    let t = 10_000;
    app.kill_finished(Err("gone".to_string()), t);
    app.expire_message(t + 2000);
    assert!(app.message.is_some());
    app.expire_message(t + MESSAGE_EXPIRY_MS);
    assert!(app.message.is_some());
    app.expire_message(t + 4000);
    assert!(app.message.is_none());
    assert!(app.message_time.is_none());
}

#[test]
fn quit_only_in_normal_mode() {
    let mut app = App::new(three(), 0);
    app.handle_key(Key::Char('/'));
    assert_eq!(app.handle_key(Key::Char('q')), Action::Continue);
    app.handle_key(Key::Enter);
    assert_eq!(app.handle_key(Key::Char('q')), Action::Quit);
}
