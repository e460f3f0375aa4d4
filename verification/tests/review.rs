use deputui::app::{
    get_keys_hints, output_line, status_text, App, ExitAction, KeyCode, KeyEvent, KeyEventKind,
    Pane, LEFT_COLUMN_WIDTH, SCROLL_STEP_SIZE,
};
use deputui::async_task::AsyncTaskStatus;
use deputui::multi_select::{MultiSelect, SelectOption};
use deputui::release::Release;

fn release(package: &str, semver: &str) -> Release {
    Release {
        package: package.to_string(),
        semver: semver.to_string(),
        repository_url: format!("https://github.com/o/{}", package),
    }
}

fn releases() -> Vec<Release> {
    vec![release("a", "1.1.0"), release("a", "1.2.0"), release("b", "2.1.0")]
}

fn press(c: char) -> KeyEvent {
    KeyEvent { code: KeyCode::Char(c), control: false, kind: KeyEventKind::Press }
}

fn enter() -> KeyEvent {
    KeyEvent { code: KeyCode::Enter, control: false, kind: KeyEventKind::Press }
}

fn interrupt() -> KeyEvent {
    KeyEvent { code: KeyCode::Char('c'), control: true, kind: KeyEventKind::Press }
}

fn selected(app: &App) -> Vec<String> {
    app.get_selected_releases().iter().map(|r| r.to_string()).collect()
}

fn flags(app: &App) -> Vec<bool> {
    app.multiselect().options().iter().map(|o| o.selected).collect()
}

#[test]
fn multi_select_starts_on_the_first_option_with_nothing_selected() {
    let options = vec![
        SelectOption::new("one".to_string(), 1u32),
        SelectOption::new("two".to_string(), 2u32),
        SelectOption::new("three".to_string(), 3u32),
    ];
    let list = MultiSelect::new(options);
    assert_eq!(list.cursor(), 0);
    assert_eq!(list.selected_values(), Vec::<&u32>::new());
    assert_eq!(*list.focused_value(), 1);
    assert_eq!(list.options().len(), 3);
    assert_eq!(list.options()[1].label, "two");
    assert!(!list.options()[1].selected);
}

#[test]
fn multi_select_cursor_stops_at_both_ends() {
    let mut list = MultiSelect::new(vec![
        SelectOption::new("one".to_string(), 1u32),
        SelectOption::new("two".to_string(), 2u32),
        SelectOption::new("three".to_string(), 3u32),
    ]);
    list.previous();
    assert_eq!(list.cursor(), 0);
    list.next();
    assert_eq!(list.cursor(), 1);
    assert_eq!(*list.focused_value(), 2);
    list.next();
    assert_eq!(list.cursor(), 2);
    list.next();
    list.next();
    assert_eq!(list.cursor(), 2);
    assert_eq!(*list.focused_value(), 3);
    list.previous();
    assert_eq!(list.cursor(), 1);
}

#[test]
fn multi_select_of_one_option() {
    let mut list = MultiSelect::new(vec![SelectOption::new("only".to_string(), 'x')]);
    list.next();
    assert_eq!(list.cursor(), 0);
    list.previous();
    assert_eq!(list.cursor(), 0);
    list.toggle();
    assert_eq!(list.selected_values(), vec![&'x']);
}

#[test]
fn multi_select_without_options_keeps_the_cursor_at_zero() {
    let mut list: MultiSelect<u8> = MultiSelect::new(vec![]);
    list.previous();
    assert_eq!(list.cursor(), 0);
    assert!(list.selected_values().is_empty());
}

#[test]
fn multi_select_lists_selected_values_in_list_order() {
    let mut list = MultiSelect::new(vec![
        SelectOption::new("one".to_string(), 1u32),
        SelectOption::new("two".to_string(), 2u32),
        SelectOption::new("three".to_string(), 3u32),
    ]);
    list.next();
    list.next();
    list.toggle();
    list.previous();
    list.previous();
    list.toggle();
    assert_eq!(list.selected_values(), vec![&1, &3]);
    list.toggle();
    assert_eq!(list.selected_values(), vec![&3]);
    list.toggle();
    list.toggle();
    assert_eq!(list.selected_values(), vec![&3]);
}

#[test]
fn a_new_session() {
    let app = App::new(&releases());
    assert_eq!(app.focused_pane(), Pane::Releases);
    assert_eq!(app.scroll(), 0);
    assert_eq!(app.left_column_width(), LEFT_COLUMN_WIDTH);
    assert_eq!(app.left_column_width(), 40);
    assert_eq!(app.should_exit, None);
    assert_eq!(app.exit_intent(), None);
    assert_eq!(app.multiselect().cursor(), 0);
    assert!(app.get_selected_releases().is_empty());
    assert_eq!(*app.show_release_notes_of_focused_release(), release("a", "1.1.0"));
    let labels: Vec<&str> = app.multiselect().options().iter().map(|o| o.label.as_str()).collect();
    assert_eq!(labels, vec!["a@1.1.0", "a@1.2.0", "b@2.1.0"]);
    let values: Vec<&Release> = app.multiselect().options().iter().map(|o| &o.value).collect();
    assert_eq!(values, releases().iter().collect::<Vec<_>>());
}

#[test]
fn toggling_twice_returns_to_unselected() {
    let mut app = App::new(&releases());
    assert!(!app.handle_key(press(' ')));
    assert_eq!(flags(&app), vec![true, false, false]);
    assert_eq!(selected(&app), vec!["a@1.1.0"]);
    assert!(!app.handle_key(press(' ')));
    assert_eq!(flags(&app), vec![false, false, false]);
    assert!(selected(&app).is_empty());
}

#[test]
fn cursor_stays_inside_the_list_and_asks_for_notes() {
    let mut app = App::new(&releases());
    assert!(app.handle_key(press('k')));
    assert_eq!(app.multiselect().cursor(), 0);
    assert!(app.handle_key(press('j')));
    assert!(app.handle_key(press('j')));
    assert_eq!(app.multiselect().cursor(), 2);
    assert_eq!(*app.show_release_notes_of_focused_release(), release("b", "2.1.0"));
    assert!(app.handle_key(press('j')));
    assert_eq!(app.multiselect().cursor(), 2);
    assert!(app.handle_key(press('k')));
    assert_eq!(app.multiselect().cursor(), 1);
    assert_eq!(*app.show_release_notes_of_focused_release(), release("a", "1.2.0"));
}

#[test]
fn selection_comes_out_in_list_order() {
    let mut app = App::new(&releases());
    app.handle_key(press('j'));
    app.handle_key(press('j'));
    app.handle_key(press(' '));
    app.handle_key(press('k'));
    app.handle_key(press('k'));
    app.handle_key(press(' '));
    assert_eq!(selected(&app), vec!["a@1.1.0", "b@2.1.0"]);
    assert_eq!(output_line(&app.get_selected_releases()), "a@1.1.0 b@2.1.0");
    app.handle_key(enter());
    assert_eq!(app.should_exit, Some(ExitAction::PrintSelected));
    assert_eq!(app.exit_intent(), Some(true));
}

#[test]
fn output_line_joins_with_blanks() {
    let all = releases();
    assert_eq!(output_line(&vec![]), "");
    assert_eq!(output_line(&vec![&all[1]]), "a@1.2.0");
    assert_eq!(output_line(&all.iter().collect()), "a@1.1.0 a@1.2.0 b@2.1.0");
}

#[test]
fn panes_and_scrolling() {
    let mut app = App::new(&releases());
    // The list pane does not scroll, the notes pane does not move the cursor.
    assert!(!app.handle_key(press('h')));
    assert_eq!(app.focused_pane(), Pane::Releases);
    assert!(!app.handle_key(press('l')));
    assert_eq!(app.focused_pane(), Pane::ReleaseNotes);
    assert!(!app.handle_key(press('k')));
    assert_eq!(app.scroll(), 0);
    assert!(!app.handle_key(press('j')));
    assert!(!app.handle_key(press('j')));
    assert_eq!(app.scroll(), 2 * SCROLL_STEP_SIZE);
    assert_eq!(app.scroll(), 10);
    assert!(!app.handle_key(press('k')));
    assert_eq!(app.scroll(), 5);
    assert_eq!(app.multiselect().cursor(), 0);
    // Keys of the other pane are not known here.
    for key in [press(' '), press('l'), press('+'), press('-'), enter(), press('x')] {
        assert!(!app.handle_key(key));
    }
    assert_eq!(app.focused_pane(), Pane::ReleaseNotes);
    assert_eq!(app.should_exit, None);
    assert_eq!(app.left_column_width(), 40);
    assert!(selected(&app).is_empty());
    assert!(!app.handle_key(press('h')));
    assert_eq!(app.focused_pane(), Pane::Releases);
    assert_eq!(app.scroll(), 5);
}

#[test]
fn scroll_and_width_stop_at_their_limits() {
    let mut app = App::new(&releases());
    for _ in 0..45 {
        app.shrink_left_column();
    }
    assert_eq!(app.left_column_width(), 0);
    app.handle_key(press('+'));
    app.handle_key(press('+'));
    app.handle_key(press('-'));
    assert_eq!(app.left_column_width(), 1);
    for _ in 0..70000 {
        app.expand_left_column();
    }
    assert_eq!(app.left_column_width(), u16::MAX);
    app.scroll_up();
    assert_eq!(app.scroll(), 0);
    app.scroll_down();
    app.scroll_down();
    app.scroll_up();
    app.scroll_up();
    app.scroll_up();
    assert_eq!(app.scroll(), 0);
    for _ in 0..13107 {
        app.scroll_down();
    }
    assert_eq!(app.scroll(), 65535);
    app.scroll_down();
    assert_eq!(app.scroll(), 65535);
    app.focus_pane(Pane::ReleaseNotes);
    assert_eq!(app.focused_pane(), Pane::ReleaseNotes);
}

#[test]
fn interrupt_aborts_from_either_pane() {
    let mut app = App::new(&releases());
    assert!(!app.handle_key(interrupt()));
    assert_eq!(app.should_exit, Some(ExitAction::Abort));
    assert_eq!(app.exit_intent(), Some(false));

    let mut app = App::new(&releases());
    app.handle_key(press('l'));
    app.handle_key(interrupt());
    assert_eq!(app.should_exit, Some(ExitAction::Abort));

    // Without control the same key is none that either pane knows.
    let mut app = App::new(&releases());
    app.handle_key(press('c'));
    assert_eq!(app.should_exit, None);
    // Control does not change what the other keys mean.
    let held = KeyEvent { code: KeyCode::Char('j'), control: true, kind: KeyEventKind::Press };
    assert!(app.handle_key(held));
    assert_eq!(app.multiselect().cursor(), 1);
}

#[test]
fn only_presses_count() {
    let mut app = App::new(&releases());
    for kind in [KeyEventKind::Release, KeyEventKind::Repeat] {
        for code in [KeyCode::Char('j'), KeyCode::Char(' '), KeyCode::Char('l'), KeyCode::Enter, KeyCode::Other] {
            for control in [false, true] {
                assert!(!app.handle_key(KeyEvent { code, control, kind }));
            }
        }
        assert!(!app.handle_key(KeyEvent { code: KeyCode::Char('c'), control: true, kind }));
    }
    assert_eq!(app.multiselect().cursor(), 0);
    assert_eq!(app.focused_pane(), Pane::Releases);
    assert_eq!(app.should_exit, None);
    assert!(selected(&app).is_empty());
    let other = KeyEvent { code: KeyCode::Other, control: false, kind: KeyEventKind::Press };
    assert!(!app.handle_key(other));
    assert!(!app.handle_key(press('q')));
    assert_eq!(app.should_exit, None);
}

#[test]
fn key_hints_per_pane() {
    assert_eq!(
        get_keys_hints(&Pane::Releases),
        "down: j | up: k | focus release notes: l | toggle: ␣ | confirm: ⏎ | abort: ctrl+c | +: grow | -: shrink"
    );
    assert_eq!(get_keys_hints(&Pane::ReleaseNotes), "down: j | up: k | focus releases: h | abort: ctrl+c");
}

#[test]
fn status_texts() {
    assert_eq!(status_text(&AsyncTaskStatus::Idle), "--- No release notes ---");
    assert_eq!(status_text(&AsyncTaskStatus::Loading), "--- Loading release notes... ---");
    assert_eq!(status_text(&AsyncTaskStatus::Loaded("# 1.1.0".to_string())), "# 1.1.0");
    assert_eq!(status_text(&AsyncTaskStatus::Error("boom".to_string())), "--- Error: boom ---");
}
