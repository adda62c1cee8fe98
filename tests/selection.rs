use kana::{App, HiraganaListState, Side};

fn card(a: &str, b: &str) -> (String, String) {
    (a.to_string(), b.to_string())
}

fn three() -> Vec<(String, String)> {
    vec![card("a", "あ"), card("i", "い"), card("u", "う")]
}

fn pane(s: &HiraganaListState) -> Vec<(String, String)> {
    s.selected().iter().map(|&k| s.items()[k].clone()).collect()
}

#[test]
fn walkthrough_select_and_remove() {
    let mut s = HiraganaListState::new(three());
    assert_eq!(s.choose_cursor(), None);
    s.down();
    assert_eq!(s.choose_cursor(), Some(0));
    s.select();
    assert_eq!(s.selected(), &vec![0]);
    s.down();
    assert_eq!(s.choose_cursor(), Some(1));
    s.select();
    assert_eq!(s.selected(), &vec![0, 1]);
    s.right();
    assert_eq!(s.side(), Side::Right);
    assert_eq!(pane(&s), vec![card("a", "あ"), card("i", "い")]);
    s.down();
    assert_eq!(s.selected_cursor(), Some(1));
    s.remove();
    assert_eq!(s.selected(), &vec![0]);
    assert_eq!(pane(&s), vec![card("a", "あ")]);
}

#[test]
fn empty_deck_navigation_keeps_cursors_unset() {
    let mut s = HiraganaListState::new(Vec::new());
    s.down();
    s.up();
    assert_eq!(s.choose_cursor(), None);
    s.right();
    assert_eq!(s.side(), Side::Left);
    s.down();
    s.up();
    s.left();
    s.down();
    s.select();
    s.remove();
    assert_eq!(s.choose_cursor(), None);
    assert_eq!(s.selected_cursor(), None);
    assert!(s.selected().is_empty());
}

#[test]
fn down_full_turn_returns_to_start() {
    let mut s = HiraganaListState::new(three());
    s.down();
    s.down();
    assert_eq!(s.choose_cursor(), Some(1));
    for _ in 0..3 {
        s.down();
    }
    assert_eq!(s.choose_cursor(), Some(1));
    for _ in 0..3 {
        s.up();
    }
    assert_eq!(s.choose_cursor(), Some(1));
}

#[test]
fn cursor_wraps_both_ways() {
    let mut s = HiraganaListState::new(three());
    s.up();
    assert_eq!(s.choose_cursor(), Some(0));
    s.up();
    assert_eq!(s.choose_cursor(), Some(2));
    s.down();
    assert_eq!(s.choose_cursor(), Some(0));
}

#[test]
fn selected_pane_wraps() {
    let mut s = HiraganaListState::new(three());
    s.down();
    s.select();
    s.down();
    s.down();
    s.select();
    s.right();
    assert_eq!(s.selected_cursor(), Some(0));
    s.up();
    assert_eq!(s.selected_cursor(), Some(1));
    s.down();
    assert_eq!(s.selected_cursor(), Some(0));
}

#[test]
fn select_twice_keeps_one_entry() {
    let mut s = HiraganaListState::new(three());
    s.down();
    s.down();
    s.select();
    s.select();
    assert_eq!(s.selected(), &vec![1]);
    assert_eq!(pane(&s), vec![card("i", "い")]);
}

#[test]
fn selection_stays_ascending() {
    let mut s = HiraganaListState::new(three());
    s.up();
    s.up();
    s.select();
    s.down();
    s.select();
    s.down();
    s.select();
    assert_eq!(s.selected(), &vec![0, 1, 2]);
    assert_eq!(s.backing_index(2), Some(2));
    assert_eq!(s.backing_index(3), None);
}

#[test]
fn remove_takes_the_row_under_the_cursor() {
    let mut s = HiraganaListState::new(three());
    for _ in 0..3 {
        s.down();
        s.select();
    }
    assert_eq!(s.selected(), &vec![0, 1, 2]);
    s.right();
    s.down();
    assert_eq!(s.selected_cursor(), Some(1));
    s.remove();
    assert_eq!(s.selected(), &vec![0, 2]);
    assert_eq!(s.selected_cursor(), Some(1));
    s.remove();
    assert_eq!(s.selected(), &vec![0]);
    assert_eq!(s.selected_cursor(), Some(0));
    s.remove();
    assert!(s.selected().is_empty());
    assert_eq!(s.selected_cursor(), None);
    s.remove();
    assert!(s.selected().is_empty());
}

#[test]
fn select_and_remove_need_the_right_pane() {
    let mut s = HiraganaListState::new(three());
    s.down();
    s.select();
    s.right();
    s.select();
    assert_eq!(s.selected(), &vec![0]);
    s.left();
    s.remove();
    assert_eq!(s.selected(), &vec![0]);
}

#[test]
fn right_needs_a_selection() {
    let mut s = HiraganaListState::new(three());
    s.down();
    s.right();
    assert_eq!(s.side(), Side::Left);
    assert_eq!(s.choose_cursor(), Some(0));
}

#[test]
fn focus_switch_restores_cursors() {
    let mut s = HiraganaListState::new(three());
    s.down();
    s.down();
    s.select();
    s.right();
    assert_eq!(s.choose_cursor(), None);
    assert_eq!(s.selected_cursor(), Some(0));
    s.left();
    assert_eq!(s.side(), Side::Left);
    assert_eq!(s.choose_cursor(), Some(1));
    assert_eq!(s.selected_cursor(), None);
}

#[test]
fn selected_cursor_is_clamped_after_shrinking() {
    let mut s = HiraganaListState::new(three());
    s.down();
    s.select();
    s.down();
    s.select();
    s.right();
    s.down();
    s.left();
    s.right();
    assert_eq!(s.selected_cursor(), Some(1));
    s.remove();
    s.remove();
    assert_eq!(s.selected_cursor(), None);
    s.left();
    s.select();
    s.right();
    assert_eq!(s.selected(), &vec![1]);
    assert_eq!(s.selected_cursor(), Some(0));
}

#[test]
fn tabs_move_between_two() {
    let mut app = App::new(three());
    assert_eq!(app.tabs, vec!["Choose", "Practice"]);
    assert_eq!(app.tab_index, 0);
    app.prev_tab();
    assert_eq!(app.tab_index, 0);
    app.next_tab();
    assert_eq!(app.tab_index, 1);
    app.next_tab();
    assert_eq!(app.tab_index, 1);
    app.prev_tab();
    assert_eq!(app.tab_index, 0);
    assert_eq!(app.item_state.items().len(), 3);
}
