use project_picker::app::{App, AppAction, KeyEffect, KeyInput, Mode};
use project_picker::rows::{ListRow, Section};

fn strings(v: &[&str]) -> Vec<String> {
    v.iter().map(|s| s.to_string()).collect()
}

fn picker(recents: &[&str], pinned: &[&str]) -> App {
    let mut app = App::new(strings(recents), strings(pinned));
    app.on_show();
    app
}

#[test]
fn test_new_and_show() {
    let mut app = App::new(strings(&["/a"]), strings(&["/b"]));
    assert_eq!(app.mode, Mode::Search);
    assert!(!app.anim_showing);
    app.query = "x".to_string();
    app.selected_idx = Some(2);
    app.mode = Mode::Add;
    app.anim_hide_pending = true;
    app.on_show();
    assert_eq!(app.query, "");
    assert_eq!(app.selected_idx, None);
    assert_eq!(app.mode, Mode::Search);
    assert!(app.focus_search && app.anim_showing && !app.anim_hide_pending);
    assert_eq!(app.recents, strings(&["/a"]));
}

#[test]
fn test_filtered_lists() {
    let mut app = picker(&["/x/alpha", "/x/beta", "/x/gamma"], &["/x/beta", "/x/delta"]);
    assert_eq!(app.filtered_pinned(), vec!["/x/beta", "/x/delta"]);
    assert_eq!(app.filtered_recents_unpinned(), vec!["/x/alpha", "/x/gamma"]);
    app.query = "ta".to_string();
    assert_eq!(app.filtered_pinned(), vec!["/x/beta", "/x/delta"]);
    assert_eq!(app.filtered_recents_unpinned(), Vec::<&str>::new());
    app.query = "AMM".to_string();
    assert_eq!(app.filtered_recents_unpinned(), vec!["/x/gamma"]);
}

#[test]
fn test_toggle_pin() {
    let mut app = picker(&[], &["/a", "/b"]);
    app.toggle_pin("/c");
    assert_eq!(app.pinned, strings(&["/a", "/b", "/c"]));
    app.toggle_pin("/c");
    assert_eq!(app.pinned, strings(&["/a", "/b"]));
    app.toggle_pin("/a");
    assert_eq!(app.pinned, strings(&["/b"]));
}

#[test]
fn test_open_project_moves_to_front_and_queues_actions() {
    let mut app = picker(&["/a", "/b", "/c"], &[]);
    assert!(app.open_project("/b"));
    assert_eq!(app.recents, strings(&["/b", "/a", "/c"]));
    assert_eq!(app.pending_actions.len(), 2);
    assert!(matches!(&app.pending_actions[0], AppAction::OpenTerminal(p) if p == "/b"));
    assert!(matches!(app.pending_actions[1], AppAction::Hide));
    // A second open in the same frame is ignored.
    assert!(!app.open_project("/c"));
    assert_eq!(app.recents, strings(&["/b", "/a", "/c"]));
    assert_eq!(app.pending_actions.len(), 2);
    let drained = app.drain_actions();
    assert_eq!(drained.len(), 2);
    assert!(app.pending_actions.is_empty());
    assert!(app.open_project("/new"));
    assert_eq!(app.recents, strings(&["/new", "/b", "/a", "/c"]));
}

#[test]
fn test_remove_project() {
    let mut app = picker(&["/a", "/b", "/a"], &[]);
    app.remove_project("/a");
    assert_eq!(app.recents, strings(&["/b"]));
    app.remove_project("/zzz");
    assert_eq!(app.recents, strings(&["/b"]));
}

#[test]
fn test_add_action_visibility() {
    let mut app = picker(&[], &[]);
    assert!(app.show_add_action());
    app.query = "add".to_string();
    assert!(app.show_add_action());
    app.query = "ADPJ".to_string();
    assert!(app.show_add_action());
    app.query = "zz".to_string();
    assert!(!app.show_add_action());
}

#[test]
fn test_selectable_count() {
    let mut app = picker(&["/r1", "/p1"], &["/p1"]);
    assert_eq!(app.selectable_count(7), 3);
    app.mode = Mode::Add;
    assert_eq!(app.selectable_count(7), 7);
}

#[test]
fn test_move_selection() {
    let mut app = picker(&[], &[]);
    app.move_selection(1, 0);
    assert_eq!(app.selected_idx, None);
    app.move_selection(-1, 3);
    assert_eq!(app.selected_idx, None);
    app.move_selection(1, 3);
    assert_eq!(app.selected_idx, Some(0));
    app.move_selection(1, 3);
    app.move_selection(1, 3);
    app.move_selection(1, 3);
    assert_eq!(app.selected_idx, Some(2));
    app.move_selection(-1, 3);
    assert_eq!(app.selected_idx, Some(1));
    app.move_selection(-1, 3);
    app.move_selection(-1, 3);
    assert_eq!(app.selected_idx, None);
    app.selected_idx = Some(9);
    app.move_selection(-1, 3);
    assert_eq!(app.selected_idx, Some(2));
}

#[test]
fn test_enter_activates_rows() {
    let home = "/home/user";
    let none: Vec<String> = vec![];
    // Nothing selected: Enter acts on the first row, the add action.
    let mut app = picker(&["/r"], &["/p"]);
    assert!(matches!(app.handle_key(KeyInput::Enter, 3, &none, home), KeyEffect::Nothing));
    assert_eq!(app.mode, Mode::Add);
    assert!(app.focus_search);
    // Slot 1 is the pinned project.
    let mut app = picker(&["/r"], &["/p"]);
    app.selected_idx = Some(1);
    assert!(matches!(app.handle_key(KeyInput::Enter, 3, &none, home), KeyEffect::RecentsChanged));
    assert_eq!(app.recents, strings(&["/p", "/r"]));
    // Slot 2 is the recent project.
    let mut app = picker(&["/r"], &["/p"]);
    app.selected_idx = Some(2);
    assert!(matches!(app.handle_key(KeyInput::Enter, 3, &none, home), KeyEffect::RecentsChanged));
    assert!(matches!(&app.pending_actions[0], AppAction::OpenTerminal(p) if p == "/r"));
    // Past the end: nothing.
    let mut app = picker(&["/r"], &["/p"]);
    app.selected_idx = Some(5);
    assert!(matches!(app.handle_key(KeyInput::Enter, 3, &none, home), KeyEffect::Nothing));
    assert!(app.pending_actions.is_empty());
    // No rows at all: nothing.
    let mut app = picker(&[], &[]);
    app.query = "zzz".to_string();
    assert!(matches!(app.handle_key(KeyInput::Enter, 0, &none, home), KeyEffect::Nothing));
    assert_eq!(app.mode, Mode::Search);
}

#[test]
fn test_enter_in_add_mode() {
    let mut app = picker(&[], &[]);
    app.enter_add_mode();
    let suggestions = strings(&["~/code", "/tmp"]);
    match app.handle_key(KeyInput::Enter, 2, &suggestions, "/home/user") {
        KeyEffect::OpenIfDirectory(p) => assert_eq!(p, "/home/user/code"),
        _ => panic!("expected a directory to open"),
    }
    app.selected_idx = Some(1);
    match app.handle_key(KeyInput::Enter, 2, &suggestions, "/home/user") {
        KeyEffect::OpenIfDirectory(p) => assert_eq!(p, "/tmp"),
        _ => panic!("expected a directory to open"),
    }
    app.selected_idx = Some(2);
    assert!(matches!(app.handle_key(KeyInput::Enter, 2, &suggestions, "/home/user"), KeyEffect::Nothing));
}

#[test]
fn test_navigation_keys() {
    let none: Vec<String> = vec![];
    let mut app = picker(&["/r"], &["/p"]);
    app.handle_key(KeyInput::Down, 3, &none, "");
    assert_eq!(app.selected_idx, Some(0));
    app.handle_key(KeyInput::Tab { shift: false }, 3, &none, "");
    assert_eq!(app.selected_idx, Some(1));
    app.handle_key(KeyInput::Tab { shift: true }, 3, &none, "");
    assert_eq!(app.selected_idx, Some(0));
    app.handle_key(KeyInput::Up, 3, &none, "");
    assert_eq!(app.selected_idx, None);
}

#[test]
fn test_alt_backspace_removes_selected_recent() {
    let none: Vec<String> = vec![];
    let mut app = picker(&["/r1", "/r2"], &["/p"]);
    // Slots: 0 add, 1 /p, 2 /r1, 3 /r2.
    app.selected_idx = Some(1);
    assert!(matches!(app.handle_key(KeyInput::AltBackspace, 4, &none, ""), KeyEffect::Nothing));
    assert_eq!(app.selected_idx, Some(1));
    app.selected_idx = Some(3);
    assert!(matches!(app.handle_key(KeyInput::AltBackspace, 4, &none, ""), KeyEffect::RecentsChanged));
    assert_eq!(app.recents, strings(&["/r1"]));
    assert_eq!(app.selected_idx, None);
    assert!(app.focus_search);
}

#[test]
fn test_alt_p_pins_and_unpins_selected() {
    let none: Vec<String> = vec![];
    let mut app = picker(&["/r1"], &["/p"]);
    app.selected_idx = Some(2);
    assert!(matches!(app.handle_key(KeyInput::AltP, 3, &none, ""), KeyEffect::PinnedChanged));
    assert_eq!(app.pinned, strings(&["/p", "/r1"]));
    app.selected_idx = Some(1);
    assert!(matches!(app.handle_key(KeyInput::AltP, 3, &none, ""), KeyEffect::PinnedChanged));
    assert_eq!(app.pinned, strings(&["/r1"]));
    app.selected_idx = Some(0);
    assert!(matches!(app.handle_key(KeyInput::AltP, 3, &none, ""), KeyEffect::Nothing));
    assert_eq!(app.pinned, strings(&["/r1"]));
}

#[test]
fn test_escape() {
    let mut app = picker(&[], &[]);
    app.enter_add_mode();
    app.query = "~/x".to_string();
    app.focus_search = false;
    app.on_escape();
    assert_eq!(app.mode, Mode::Search);
    assert_eq!(app.query, "");
    assert!(app.focus_search && app.anim_showing);
    app.on_escape();
    assert!(!app.anim_showing);
}

#[test]
fn test_focus_and_placeholder() {
    let mut app = picker(&[], &[]);
    assert!(app.take_focus_request());
    assert!(!app.focus_search);
    app.selected_idx = Some(0);
    assert!(!app.take_focus_request());
    app.on_query_changed();
    assert_eq!(app.selected_idx, None);
    assert_eq!(app.placeholder(), "Search projects...");
    app.enter_add_mode();
    assert_eq!(app.placeholder(), "Type directory path...");
}

#[test]
fn test_hide_request() {
    let mut app = picker(&[], &[]);
    assert!(!app.take_hide_request());
    app.anim_hide_pending = true;
    assert!(app.take_hide_request());
    assert!(!app.anim_hide_pending);
    app.begin_hide();
    assert!(!app.anim_showing);
}

#[test]
fn test_search_rows() {
    let mut app = picker(&["/r1", "/p"], &["/p"]);
    app.selected_idx = Some(2);
    let rows = app.search_rows();
    assert_eq!(rows.len(), 6);
    assert!(matches!(rows[0], ListRow::Header(Section::Actions)));
    assert!(matches!(rows[1], ListRow::AddProject { selected: false }));
    assert!(matches!(rows[2], ListRow::Header(Section::Pinned)));
    assert!(matches!(&rows[3], ListRow::Project { path, slot: 1, selected: false } if path == "/p"));
    assert!(matches!(rows[4], ListRow::Header(Section::Recent)));
    assert!(matches!(&rows[5], ListRow::Project { path, slot: 2, selected: true } if path == "/r1"));
    app.query = "r1".to_string();
    let rows = app.search_rows();
    assert_eq!(rows.len(), 2);
    assert!(matches!(&rows[1], ListRow::Project { path, slot: 0, selected: false } if path == "/r1"));
}

#[test]
fn test_edit_keys_accept_any_selection() {
    let none: Vec<String> = vec![];
    let mut app = picker(&["/r"], &["/p"]);
    app.selected_idx = Some(i32::MAX as usize);
    assert!(matches!(app.handle_key(KeyInput::AltBackspace, 3, &none, ""), KeyEffect::Nothing));
    assert!(matches!(app.handle_key(KeyInput::AltP, 3, &none, ""), KeyEffect::Nothing));
    assert!(matches!(app.handle_key(KeyInput::Enter, 3, &none, ""), KeyEffect::Nothing));
    assert_eq!(app.recents, strings(&["/r"]));
    assert_eq!(app.pinned, strings(&["/p"]));
    assert_eq!(app.selected_idx, Some(i32::MAX as usize));
}

#[test]
fn test_shown_lists_are_disjoint_and_cover_matches() {
    let mut app = picker(&["/x/a", "/x/b", "/y/c"], &["/x/b", "/y/d"]);
    app.query = "x".to_string();
    let pinned = app.filtered_pinned();
    let recents = app.filtered_recents_unpinned();
    assert_eq!(pinned, vec!["/x/b"]);
    assert_eq!(recents, vec!["/x/a"]);
    for p in &pinned {
        assert!(!recents.contains(p));
    }
}

#[test]
fn test_open_keeps_recents_distinct() {
    let mut app = picker(&["/a", "/b"], &[]);
    assert!(app.open_project("/b"));
    assert_eq!(app.recents, strings(&["/b", "/a"]));
    let _ = app.drain_actions();
    assert!(app.open_project("/c"));
    assert_eq!(app.recents, strings(&["/c", "/b", "/a"]));
}
