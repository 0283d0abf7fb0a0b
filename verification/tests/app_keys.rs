use uvcleaner::model::{App, Effect, Key, Project};

fn project(name: &str, modified: i128, size: u64, selected: bool) -> Project {
    Project {
        path: format!("/home/u/Development/{}", name),
        venv_path: format!("/home/u/Development/{}/.venv", name),
        last_modified: modified,
        venv_size: size,
        selected,
    }
}

fn sample() -> App {
    App::new(
        vec![project("a", 1, 100, false), project("b", 2, 200, true), project("c", 3, 300, false)],
        "/home/u/Development".to_string(),
    )
}

#[test]
fn new_starts_in_list_mode() {
    let app = sample();
    assert_eq!(app.items.len(), 3);
    assert_eq!(app.index, 0);
    assert_eq!(app.scroll_offset, 0);
    assert_eq!(app.suggestion_scroll_offset, 0);
    assert!(!app.confirm);
    assert!(!app.input_mode);
    assert_eq!(app.input, "/home/u/Development");
    assert!(app.suggestions.is_empty());
    assert_eq!(app.suggestion_index, None);
    assert_eq!(app.last_error, None);
}

#[test]
fn counts_and_totals_of_marked() {
    let mut app = sample();
    assert_eq!(app.selected_count(), 1);
    assert_eq!(app.selected_total(), 200);
    app.items[2].selected = true;
    assert_eq!(app.selected_count(), 2);
    assert_eq!(app.selected_total(), 500);
    assert_eq!(app.selected_venv_paths(), vec![
        "/home/u/Development/b/.venv".to_string(),
        "/home/u/Development/c/.venv".to_string(),
    ]);
}

#[test]
fn q_quits_only_in_list_mode() {
    let mut app = sample();
    assert_eq!(app.handle_key_normal(Key::Char('q')), Effect::Quit);
    app.input_mode = true;
    assert_eq!(app.handle_key(Key::Char('q')), Effect::RefreshSuggestions);
    assert_eq!(app.input, "/home/u/Developmentq");
}

#[test]
fn cursor_moves_within_list() {
    let mut app = sample();
    assert_eq!(app.handle_key_normal(Key::Up), Effect::Continue);
    assert_eq!(app.index, 0);
    app.handle_key_normal(Key::Down);
    app.handle_key_normal(Key::Down);
    app.handle_key_normal(Key::Down);
    assert_eq!(app.index, 2);
    app.handle_key_normal(Key::Up);
    assert_eq!(app.index, 1);
}

#[test]
fn space_toggles_cursor_row_and_clears_error() {
    let mut app = sample();
    app.last_error = Some("x".to_string());
    app.handle_key_normal(Key::Char(' '));
    assert!(app.items[0].selected);
    assert_eq!(app.last_error, None);
    app.handle_key_normal(Key::Char(' '));
    assert!(!app.items[0].selected);
}

#[test]
fn space_on_empty_list_only_clears_error() {
    let mut app = App::new(vec![], "/r".to_string());
    app.last_error = Some("x".to_string());
    app.handle_key_normal(Key::Char(' '));
    assert!(app.items.is_empty());
    assert_eq!(app.last_error, None);
}

#[test]
fn a_marks_all_then_none() {
    let mut app = sample();
    app.handle_key_normal(Key::Char('a'));
    assert!(app.items.iter().all(|p| p.selected));
    app.handle_key_normal(Key::Char('a'));
    assert!(app.items.iter().all(|p| !p.selected));
}

#[test]
fn d_asks_for_confirmation_only_with_marks() {
    let mut app = sample();
    app.handle_key_normal(Key::Char('d'));
    assert!(app.confirm);
    app.handle_key_normal(Key::Char('n'));
    assert!(!app.confirm);
    app.items[1].selected = false;
    app.handle_key_normal(Key::Char('d'));
    assert!(!app.confirm);
}

#[test]
fn y_deletes_only_after_confirmation() {
    let mut app = sample();
    assert_eq!(app.handle_key_normal(Key::Char('y')), Effect::Continue);
    app.handle_key_normal(Key::Char('d'));
    assert_eq!(app.handle_key_normal(Key::Char('y')), Effect::DeleteSelected);
    assert!(!app.confirm);
}

#[test]
fn tab_enters_editing() {
    let mut app = sample();
    app.suggestion_index = Some(3);
    assert_eq!(app.handle_key_normal(Key::Tab), Effect::RefreshSuggestions);
    assert!(app.input_mode);
    assert_eq!(app.suggestion_index, None);
}

#[test]
fn other_keys_do_nothing_in_list_mode() {
    let mut app = sample();
    assert_eq!(app.handle_key_normal(Key::Enter), Effect::Continue);
    assert_eq!(app.handle_key_normal(Key::Char('x')), Effect::Continue);
    assert_eq!(app.index, 0);
    assert!(!app.input_mode);
}

fn editing() -> App {
    let mut app = sample();
    app.input_mode = true;
    app.suggestions = vec!["/home/u/a/".to_string(), "/home/u/b/".to_string(), "/home/u/c/".to_string()];
    app
}

#[test]
fn tab_cycles_candidates() {
    let mut app = editing();
    app.handle_key_input_mode(Key::Tab);
    assert_eq!(app.suggestion_index, Some(0));
    app.handle_key_input_mode(Key::Tab);
    app.handle_key_input_mode(Key::Tab);
    assert_eq!(app.suggestion_index, Some(2));
    app.handle_key_input_mode(Key::Tab);
    assert_eq!(app.suggestion_index, Some(0));
}

#[test]
fn down_stops_at_last_candidate_and_up_leaves_list() {
    let mut app = editing();
    for _ in 0..5 {
        app.handle_key_input_mode(Key::Down);
    }
    assert_eq!(app.suggestion_index, Some(2));
    app.handle_key_input_mode(Key::Up);
    app.handle_key_input_mode(Key::Up);
    assert_eq!(app.suggestion_index, Some(0));
    app.handle_key_input_mode(Key::Up);
    assert_eq!(app.suggestion_index, None);
    app.handle_key_input_mode(Key::Up);
    assert_eq!(app.suggestion_index, None);
}

#[test]
fn tab_and_down_need_candidates() {
    let mut app = editing();
    app.suggestions.clear();
    app.handle_key_input_mode(Key::Tab);
    app.handle_key_input_mode(Key::Down);
    assert_eq!(app.suggestion_index, None);
}

#[test]
fn enter_takes_highlighted_candidate() {
    let mut app = editing();
    app.handle_key_input_mode(Key::Down);
    app.handle_key_input_mode(Key::Down);
    assert_eq!(app.handle_key_input_mode(Key::Enter), Effect::RefreshSuggestions);
    assert_eq!(app.input, "/home/u/b/");
    assert_eq!(app.suggestion_index, None);
    assert!(app.input_mode);
}

#[test]
fn enter_with_stale_highlight_does_nothing() {
    let mut app = editing();
    app.suggestion_index = Some(7);
    assert_eq!(app.handle_key_input_mode(Key::Enter), Effect::Continue);
    assert_eq!(app.input, "/home/u/Development");
    assert_eq!(app.suggestion_index, Some(7));
}

#[test]
fn enter_without_highlight_rescans() {
    let mut app = editing();
    app.index = 2;
    app.scroll_offset = 1;
    app.confirm = true;
    app.last_error = Some("e".to_string());
    assert_eq!(app.handle_key_input_mode(Key::Enter), Effect::Rescan);
    assert_eq!(app.index, 0);
    assert_eq!(app.scroll_offset, 0);
    assert!(!app.confirm);
    assert!(!app.input_mode);
    assert!(app.suggestions.is_empty());
    assert_eq!(app.last_error, None);
}

#[test]
fn escape_clears_highlight_then_leaves() {
    let mut app = editing();
    app.suggestion_index = Some(1);
    app.handle_key_input_mode(Key::Esc);
    assert_eq!(app.suggestion_index, None);
    assert!(app.input_mode);
    app.handle_key_input_mode(Key::Esc);
    assert!(!app.input_mode);
    assert!(app.suggestions.is_empty());
}

#[test]
fn typing_and_erasing() {
    let mut app = editing();
    app.suggestion_index = Some(1);
    assert_eq!(app.handle_key_input_mode(Key::Char('é')), Effect::RefreshSuggestions);
    assert_eq!(app.input, "/home/u/Developmenté");
    assert_eq!(app.suggestion_index, None);
    assert_eq!(app.handle_key_input_mode(Key::Backspace), Effect::RefreshSuggestions);
    assert_eq!(app.input, "/home/u/Development");
    app.input.clear();
    app.handle_key_input_mode(Key::Backspace);
    assert_eq!(app.input, "");
}

#[test]
fn ensure_cursor_visible_scrolls() {
    let mut app = sample();
    app.index = 2;
    app.ensure_cursor_visible(0);
    assert_eq!(app.scroll_offset, 0);
    app.ensure_cursor_visible(2);
    assert_eq!(app.scroll_offset, 1);
    app.ensure_cursor_visible(2);
    assert_eq!(app.scroll_offset, 1);
    app.index = 0;
    app.ensure_cursor_visible(2);
    assert_eq!(app.scroll_offset, 0);
}

#[test]
fn delete_selected_keeps_unmarked_and_reports_failures() {
    let mut app = App::new(
        vec![
            project("a", 1, 100, true),
            project("b", 2, 200, false),
            project("c", 3, 300, true),
            project("d", 4, 400, true),
        ],
        "/r".to_string(),
    );
    app.index = 3;
    app.scroll_offset = 3;
    app.delete_selected(vec![
        Some("Permission denied (os error 13)".to_string()),
        None,
        Some("busy".to_string()),
    ]);
    assert_eq!(app.items.len(), 1);
    assert_eq!(app.items[0].path, "/home/u/Development/b");
    assert_eq!(app.index, 2);
    assert_eq!(app.scroll_offset, 2);
    assert_eq!(
        app.last_error,
        Some(
            "/home/u/Development/a/.venv: Permission denied (os error 13); /home/u/Development/d/.venv: busy"
                .to_string()
        )
    );
}

#[test]
fn delete_selected_without_failures_clears_error() {
    let mut app = sample();
    app.last_error = Some("old".to_string());
    app.index = 1;
    app.delete_selected(vec![None]);
    assert_eq!(app.items.len(), 2);
    assert_eq!(app.index, 1);
    assert_eq!(app.last_error, None);
    assert_eq!(app.selected_count(), 0);
    assert_eq!(app.selected_total(), 0);
}

#[test]
fn delete_selected_at_start_keeps_cursor() {
    let mut app = sample();
    app.items[0].selected = true;
    app.delete_selected(vec![None, None]);
    assert_eq!(app.items.len(), 1);
    assert_eq!(app.index, 0);
}

#[test]
fn scanned_projects_start_unmarked() {
    let p = Project::unmarked("/d/a".to_string(), "/d/a/.venv".to_string(), 5, 7);
    assert_eq!(p.path, "/d/a");
    assert_eq!(p.venv_path, "/d/a/.venv");
    assert_eq!(p.last_modified, 5);
    assert_eq!(p.venv_size, 7);
    assert!(!p.selected);
}

#[test]
fn deletion_needs_d_then_y() {
    let mut app = sample();
    let mut deleted = false;
    for key in [Key::Char('y'), Key::Down, Key::Char('y'), Key::Char('d'), Key::Char('n'), Key::Char('y')] {
        deleted |= app.handle_key(key) == Effect::DeleteSelected;
    }
    assert!(!deleted);
    app.handle_key(Key::Char('d'));
    assert_eq!(app.handle_key(Key::Char('y')), Effect::DeleteSelected);
}
