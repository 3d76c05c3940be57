use torrent::tui::{is_whitespace, num_length, App, KeyPress, Outcome, SearchInput, Tab};

fn input(text: &str, cursor: usize) -> SearchInput {
    let mut input = SearchInput::new();
    for c in text.chars() {
        input.enter_char(c);
    }
    input.reset_cursor();
    for _ in 0..cursor {
        input.move_cursor_right();
    }
    input
}

fn text(input: &SearchInput) -> String {
    input.value().iter().collect()
}

#[test]
fn the_number_of_digits() {
    assert_eq!(num_length(0), 1);
    assert_eq!(num_length(9), 1);
    assert_eq!(num_length(10), 2);
    assert_eq!(num_length(99), 2);
    assert_eq!(num_length(100), 3);
    assert_eq!(num_length(10001), 5);
    assert_eq!(num_length(usize::MAX), usize::MAX.to_string().len());
}

#[test]
fn tabs_stop_at_both_ends() {
    assert_eq!(Tab::default(), Tab::Torrents);
    assert_eq!(Tab::Torrents.next(), Tab::Settings);
    assert_eq!(Tab::Settings.next(), Tab::Search);
    assert_eq!(Tab::Search.next(), Tab::Search);
    assert_eq!(Tab::Search.previous(), Tab::Settings);
    assert_eq!(Tab::Settings.previous(), Tab::Torrents);
    assert_eq!(Tab::Torrents.previous(), Tab::Torrents);
}

#[test]
fn tabs_have_titles() {
    assert_eq!(Tab::Torrents.title(), "Torrents [1]");
    assert_eq!(Tab::Settings.title(), "Settings [2]");
    assert_eq!(Tab::Search.title(), "Search DHT [3]");
}

#[test]
fn the_cursor_stays_in_the_text() {
    let mut search = input("abc", 0);
    search.move_cursor_left();
    assert_eq!(search.cursor_index(), 0);
    search.move_cursor_right();
    search.move_cursor_right();
    search.move_cursor_right();
    search.move_cursor_right();
    assert_eq!(search.cursor_index(), 3);
    search.move_cursor_left();
    assert_eq!(search.cursor_index(), 2);
    assert_eq!(search.clamp_cursor(7), 3);
    assert_eq!(search.clamp_cursor(1), 1);
    search.reset_cursor();
    assert_eq!(search.cursor_index(), 0);
}

#[test]
fn characters_go_in_at_the_cursor() {
    let mut search = input("ac", 1);
    search.enter_char('b');
    assert_eq!(text(&search), "abc");
    assert_eq!(search.cursor_index(), 2);
    search.enter_char('\u{e9}');
    assert_eq!(text(&search), "ab\u{e9}c");
    assert_eq!(search.cursor_index(), 3);
}

#[test]
fn backspace_takes_the_character_before_the_cursor() {
    let mut search = input("abc", 2);
    search.delete_char();
    assert_eq!(text(&search), "ac");
    assert_eq!(search.cursor_index(), 1);
    search.delete_char();
    assert_eq!(text(&search), "c");
    assert_eq!(search.cursor_index(), 0);
    search.delete_char();
    assert_eq!(text(&search), "c");
    assert_eq!(search.cursor_index(), 0);
}

#[test]
fn a_word_is_taken_out_before_the_cursor() {
    let mut search = input("hello world", 11);
    search.delete_word();
    assert_eq!(text(&search), "hello ");
    assert_eq!(search.cursor_index(), 5);

    let mut search = input("one two three", 7);
    search.delete_word();
    assert_eq!(text(&search), "one three");
    assert_eq!(search.cursor_index(), 3);

    let mut search = input("word", 4);
    search.delete_word();
    assert_eq!(text(&search), "");
    assert_eq!(search.cursor_index(), 0);

    let mut search = input("word", 0);
    search.delete_word();
    assert_eq!(text(&search), "word");
    assert_eq!(search.cursor_index(), 0);

    let mut search = input("ab  ", 4);
    search.delete_word();
    assert_eq!(text(&search), "  ");
    assert_eq!(search.cursor_index(), 1);

    let mut search = input("   ", 2);
    search.delete_word();
    assert_eq!(text(&search), "  ");
    assert_eq!(search.cursor_index(), 1);
}

#[test]
fn white_space_is_told_apart() {
    for c in [' ', '\t', '\n', '\r', '\u{a0}', '\u{2003}', '\u{3000}'] {
        assert!(is_whitespace(c));
    }
    for c in ['a', '0', '-', '\u{0}', '\u{200b}'] {
        assert!(!is_whitespace(c));
    }
    for u in 0u32..0x3100 {
        if let Some(c) = char::from_u32(u) {
            assert_eq!(is_whitespace(c), c.is_whitespace());
        }
    }
}

#[test]
fn keys_move_between_the_tabs() {
    let mut app = App::new();
    assert_eq!(app.selected_tab(), Tab::Torrents);
    assert!(!app.editing());
    assert_eq!(app.on_key(KeyPress::Right, false), Outcome::Continue);
    assert_eq!(app.selected_tab(), Tab::Settings);
    app.on_key(KeyPress::Char('l'), false);
    assert_eq!(app.selected_tab(), Tab::Search);
    app.on_key(KeyPress::Char('l'), false);
    assert_eq!(app.selected_tab(), Tab::Search);
    app.on_key(KeyPress::Left, false);
    app.on_key(KeyPress::Char('h'), false);
    assert_eq!(app.selected_tab(), Tab::Torrents);
    app.on_key(KeyPress::Char('3'), false);
    assert_eq!(app.selected_tab(), Tab::Search);
    app.on_key(KeyPress::Char('2'), false);
    assert_eq!(app.selected_tab(), Tab::Settings);
    app.on_key(KeyPress::Char('1'), false);
    assert_eq!(app.selected_tab(), Tab::Torrents);
    for key in [KeyPress::Up, KeyPress::Down, KeyPress::Char('k'), KeyPress::Char('j'), KeyPress::Enter, KeyPress::Other] {
        let before = app.clone();
        assert_eq!(app.on_key(key, false), Outcome::Continue);
        assert_eq!(app, before);
    }
    app.next_tab();
    assert_eq!(app.selected_tab(), Tab::Settings);
    app.previous_tab();
    assert_eq!(app.selected_tab(), Tab::Torrents);
    assert_eq!(app.on_key(KeyPress::Char('q'), false), Outcome::Quit);
}

#[test]
fn the_search_bar_is_edited_on_the_search_tab_only() {
    let mut app = App::new();
    app.on_key(KeyPress::Char('/'), false);
    assert!(!app.editing());
    app.on_key(KeyPress::Char('3'), false);
    app.on_key(KeyPress::Char('/'), false);
    assert!(app.editing());
    for c in "big buck".chars() {
        assert_eq!(app.on_key(KeyPress::Char(c), false), Outcome::Continue);
    }
    assert_eq!(app.on_key(KeyPress::Char('q'), false), Outcome::Continue);
    assert_eq!(text(app.search()), "big buckq");
    app.on_key(KeyPress::Backspace, false);
    assert_eq!(text(app.search()), "big buck");
    app.on_key(KeyPress::Left, false);
    app.on_key(KeyPress::Char('-'), false);
    assert_eq!(text(app.search()), "big buc-k");
    app.on_key(KeyPress::Right, false);
    app.on_key(KeyPress::Char('w'), true);
    assert_eq!(text(app.search()), "big ");
    app.on_key(KeyPress::Char('w'), false);
    assert_eq!(text(app.search()), "big w");
    app.on_key(KeyPress::Enter, false);
    assert!(app.editing());
    app.on_key(KeyPress::Esc, false);
    assert!(!app.editing());
    assert_eq!(app.selected_tab(), Tab::Search);
    app.on_key(KeyPress::Esc, false);
    assert!(!app.editing());
}

#[test]
fn each_tab_offers_its_keys() {
    let mut app = App::default();
    assert_eq!(
        app.get_keybinds(),
        vec!["Move Up [\u{2191}] ", "Move Down [\u{2193}] ", "Add [a]", "Filter [f]", "Columns [c]", "Quit [q]"]
    );
    app.on_key(KeyPress::Char('2'), false);
    assert_eq!(app.get_keybinds(), vec!["Edit [enter]", "Quit [q]"]);
    app.on_key(KeyPress::Char('3'), false);
    assert_eq!(app.get_keybinds(), vec!["Search [/]", "Add [a]", "Quit [q]"]);
    app.on_key(KeyPress::Char('/'), false);
    assert_eq!(app.get_keybinds(), vec!["Exit Search [esc]", "Add [a]", "Quit [q]"]);
}
