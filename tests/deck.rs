use kana::{Hiragana, LoadError};

fn card(a: &str, b: &str) -> (String, String) {
    (a.to_string(), b.to_string())
}

#[test]
fn reads_one_card_per_line() {
    let deck = Hiragana::new("a あ\ni い\nu う").unwrap();
    assert_eq!(deck, vec![card("a", "あ"), card("i", "い"), card("u", "う")]);
}

#[test]
fn final_line_feed_adds_no_line() {
    let deck = Hiragana::new("ka か\nki き\n").unwrap();
    assert_eq!(deck, vec![card("ka", "か"), card("ki", "き")]);
}

#[test]
fn carriage_returns_and_extra_spaces() {
    let deck = Hiragana::new("  shi \t し  \r\nchi\u{3000}ち\r\n").unwrap();
    assert_eq!(deck, vec![card("shi", "し"), card("chi", "ち")]);
}

#[test]
fn words_after_the_second_are_ignored() {
    let deck = Hiragana::new("tsu つ extra words").unwrap();
    assert_eq!(deck, vec![card("tsu", "つ")]);
}

#[test]
fn empty_text_is_an_empty_deck() {
    assert_eq!(Hiragana::new("").unwrap(), Vec::<(String, String)>::new());
}

#[test]
fn single_word_line_fails() {
    assert_eq!(Hiragana::new("a"), Err(LoadError { line: 1 }));
}

#[test]
fn first_bad_line_is_reported() {
    assert_eq!(Hiragana::new("a あ\ni\nu"), Err(LoadError { line: 2 }));
    assert_eq!(Hiragana::new("a あ\ni い\nu\n"), Err(LoadError { line: 3 }));
}

#[test]
fn blank_line_fails() {
    assert_eq!(Hiragana::new("a あ\n\ni い"), Err(LoadError { line: 2 }));
    assert_eq!(Hiragana::new("a あ\n   \n"), Err(LoadError { line: 2 }));
}
