use kana::{ui, App, Screen, Side, MIN_HEIGHT, MIN_WIDTH};

fn deck() -> Vec<(String, String)> {
    vec![
        ("a".to_string(), "あ".to_string()),
        ("i".to_string(), "い".to_string()),
        ("u".to_string(), "う".to_string()),
    ]
}

#[test]
fn too_small_terminal() {
    let app = App::new(deck());
    assert!(matches!(ui(&app, 49, 40), Screen::TooSmall));
    assert!(matches!(ui(&app, 80, 14), Screen::TooSmall));
    assert!(matches!(ui(&app, MIN_WIDTH, MIN_HEIGHT), Screen::Practice(_)));
}

#[test]
fn frame_follows_the_list() {
    let mut app = App::new(deck());
    app.item_state.down();
    app.item_state.down();
    app.item_state.select();
    app.item_state.down();
    app.item_state.select();
    app.item_state.right();
    app.next_tab();
    match ui(&app, 80, 24) {
        Screen::Practice(p) => {
            assert_eq!(p.tab_index, 1);
            assert_eq!(p.side, Side::Right);
            assert_eq!(p.choose_highlight, None);
            assert_eq!(p.selected_rows, vec![1, 2]);
            assert_eq!(p.selected_highlight, Some(0));
        }
        Screen::TooSmall => panic!("expected the practice screen"),
    }
}
