//! Selection behavior of the theme switcher overlay.

use ptycore::switcher::{Action, Key, Page, ThemeSwitcher};

fn names(list: &[&str]) -> Vec<String> {
    list.iter().map(|s| s.to_string()).collect()
}

#[test]
fn new_switcher_is_closed() {
    let s = ThemeSwitcher::new();
    assert!(!s.is_open());
    assert_eq!(s.current(), None);
}

#[test]
fn open_with_empty_list_stays_closed() {
    let mut s = ThemeSwitcher::new();
    s.open_with(Vec::new());
    assert!(!s.is_open());
}

#[test]
fn open_with_clamps_a_stale_selection() {
    let mut s = ThemeSwitcher::new();
    s.open_with(names(&["a", "b", "c"]));
    s.handle_key(Key::Down);
    s.handle_key(Key::Down);
    assert_eq!(s.current(), Some("c"));
    s.open_with(names(&["x", "y"]));
    assert!(s.is_open());
    assert_eq!(s.current(), Some("y"));
}

#[test]
fn toggle_debounces_and_flips() {
    let mut s = ThemeSwitcher::new();
    s.toggle(1000, names(&["a", "b"]));
    assert!(s.is_open());
    // too soon: ignored
    s.toggle(1100, names(&["a", "b"]));
    assert!(s.is_open());
    // past the window: closes
    s.toggle(1200, names(&["a", "b"]));
    assert!(!s.is_open());
    s.toggle(1400, names(&["a", "b"]));
    assert!(s.is_open());
}

#[test]
fn keys_do_nothing_while_closed() {
    let mut s = ThemeSwitcher::new();
    assert!(matches!(s.handle_key(Key::Down), Action::Nothing));
    assert!(matches!(s.handle_key_page(Page::Down), Action::Nothing));
}

#[test]
fn arrows_move_and_stop_at_the_ends() {
    let mut s = ThemeSwitcher::new();
    s.open_with(names(&["a", "b", "c"]));
    assert_eq!(s.current(), Some("a"));
    assert!(matches!(s.handle_key(Key::Up), Action::Moved));
    assert_eq!(s.current(), Some("a"));
    s.handle_key(Key::Down);
    s.handle_key(Key::Down);
    s.handle_key(Key::Down);
    assert_eq!(s.current(), Some("c"));
}

#[test]
fn escape_closes_enter_applies() {
    let mut s = ThemeSwitcher::new();
    s.open_with(names(&["a", "b"]));
    s.handle_key(Key::Down);
    match s.handle_key(Key::Enter) {
        Action::Apply(name) => assert_eq!(name, "b"),
        other => panic!("expected an apply action, got {:?}", other),
    }
    assert!(!s.is_open());

    s.open_with(names(&["a", "b"]));
    assert!(matches!(s.handle_key(Key::Escape), Action::Close));
    assert!(!s.is_open());
}

#[test]
fn paging_jumps_one_window_less_a_row() {
    let mut s = ThemeSwitcher::new();
    let many: Vec<String> = (0..30).map(|i| format!("theme{i}")).collect();
    s.open_with(many);
    assert!(matches!(s.handle_key_page(Page::Down), Action::Moved));
    assert_eq!(s.current(), Some("theme11"));
    s.handle_key_page(Page::Down);
    assert_eq!(s.current(), Some("theme22"));
    s.handle_key_page(Page::Down);
    assert_eq!(s.current(), Some("theme29"));
    s.handle_key_page(Page::Up);
    assert_eq!(s.current(), Some("theme18"));
}

#[test]
fn window_follows_the_selection() {
    let mut s = ThemeSwitcher::new();
    let many: Vec<String> = (0..30).map(|i| format!("theme{i}")).collect();
    s.open_with(many);
    assert_eq!(s.visible_top_index(12), 0);
    s.handle_key_page(Page::Down);
    s.handle_key_page(Page::Down);
    // selection 22 must be inside the 12-row window
    let top = s.visible_top_index(12);
    assert!(top <= 22 && 22 < top + 12);
    s.handle_key_page(Page::Down);
    let top = s.visible_top_index(12);
    assert!(top <= 29 && 29 < top + 12);
    assert!(top <= 18);
}
