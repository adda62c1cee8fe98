//! Kana flashcards: a deck read from text, and the two-pane selection list
//! that a terminal front end drives with the keyboard.

pub mod hiragana;
pub mod selection;
pub mod ui;

pub use hiragana::{Hiragana, HiraganaCategories, LoadError};
pub use selection::{App, HiraganaListState, ListView, Side};
pub use ui::{ui, Panes, Screen, MIN_HEIGHT, MIN_WIDTH};
