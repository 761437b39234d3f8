use dire_engine::ui::app::{App, Outcome};
use dire_engine::ui::event::{InputEvent, Key};
use dire_engine::ui::input::InputMode;
use dire_engine::ui::ui::{
    list_messages, list_tick_counter, list_triple_size, message_line, prompt_cursor,
    render_help_text, render_prompt, update_cursor,
};

#[test]
fn keys_open_edit_and_close_the_input_line() {
    let mut app = App::default();
    assert_eq!(app.input_mode, InputMode::Normal);
    assert!(matches!(app.on_key(Key::Char('x')), Outcome::Continue));
    assert!(matches!(app.on_key(Key::Enter), Outcome::Continue));
    assert_eq!(app.input, "");
    assert!(matches!(app.on_key(Key::Char('t')), Outcome::Continue));
    assert_eq!(app.input_mode, InputMode::TBOX);
    for c in "a.ntq".chars() {
        assert!(matches!(app.on_key(Key::Char(c)), Outcome::Continue));
    }
    assert!(matches!(app.on_key(Key::Backspace), Outcome::Continue));
    assert!(matches!(app.on_key(Key::Other), Outcome::Continue));
    assert_eq!(app.input, "a.nt");
    match app.on_key(Key::Enter) {
        Outcome::LoadTbox(name) => assert_eq!(name, "a.nt"),
        _ => panic!("the file of the terminology box was to be loaded"),
    }
    assert_eq!(app.input, "");
    assert_eq!(app.input_mode, InputMode::TBOX);
    assert!(matches!(app.on_key(Key::Backspace), Outcome::Continue));
    assert_eq!(app.input, "");
    assert!(matches!(app.on_key(Key::Esc), Outcome::Continue));
    assert_eq!(app.input_mode, InputMode::Normal);
    assert!(matches!(app.on_key(Key::Char('a')), Outcome::Continue));
    assert!(matches!(app.on_key(Key::Char('b')), Outcome::Continue));
    match app.on_key(Key::Enter) {
        Outcome::LoadAbox(name) => assert_eq!(name, "b"),
        _ => panic!("the file of the assertion box was to be loaded"),
    }
    assert!(matches!(app.on_key(Key::Char('q')), Outcome::Continue));
    assert_eq!(app.input, "q");
    assert!(matches!(app.on_key(Key::Esc), Outcome::Continue));
    assert!(matches!(app.on_key(Key::Char('q')), Outcome::Quit));
    assert_eq!(InputEvent::Input(Key::Esc), InputEvent::Input(Key::Esc));
}

#[test]
fn ticks_gather_the_deltas() {
    let mut app = App::default();
    app.on_tick(&vec![((1, 2, 3), 0, 1)], &vec![]);
    app.on_tick(&vec![((4, 5, 6), 1, -1)], &vec![((7, 8, 9), 1, 1)]);
    assert_eq!(app.tbox_messages, vec![((1, 2, 3), 0, 1), ((4, 5, 6), 1, -1)]);
    assert_eq!(app.abox_messages, vec![((7, 8, 9), 1, 1)]);
    assert_eq!(list_messages(&app.tbox_messages), vec!["1 2 3", "4 5 6"]);
    assert_eq!(list_triple_size(&app.tbox_messages), "2");
    assert_eq!(list_tick_counter(120), "120");
    assert_eq!(message_line(&((46, 0, 4294967295), 3, 1)), "46 0 4294967295");
}

#[test]
fn the_cursor_follows_the_text() {
    assert_eq!(update_cursor(InputMode::Normal, 2, 3, 5), None);
    assert_eq!(update_cursor(InputMode::TBOX, 2, 3, 5), Some((8, 4)));
    assert_eq!(update_cursor(InputMode::ABOX, 0, 0, 0), Some((1, 1)));
    assert_eq!(update_cursor(InputMode::ABOX, 65534, 0, 0), Some((65535, 1)));
    assert_eq!(update_cursor(InputMode::ABOX, 65535, 0, 0), None);
    assert_eq!(update_cursor(InputMode::ABOX, 0, 65535, 0), None);
    assert_eq!(update_cursor(InputMode::ABOX, 10, 0, 65525), None);
    assert_eq!(update_cursor(InputMode::ABOX, 10, 0, 65524), Some((65535, 1)));
    assert_eq!(update_cursor(InputMode::ABOX, 10, 0, usize::MAX), None);
    // wide characters take two columns
    assert_eq!(prompt_cursor(InputMode::TBOX, "abc", 1, 1), Some((5, 2)));
    assert_eq!(prompt_cursor(InputMode::TBOX, "Ｈｉ", 1, 1), Some((6, 2)));
    assert_eq!(prompt_cursor(InputMode::Normal, "abc", 1, 1), None);
}

#[test]
fn the_help_line_depends_on_the_mode() {
    let (spans, blinks) = render_help_text(InputMode::Normal);
    let text: String = spans.iter().map(|s| s.0).collect();
    assert_eq!(text, "Press q to exit, t to insert in the tbox.a to insert in the abox.");
    assert!(blinks);
    assert_eq!(spans.iter().filter(|s| s.1).map(|s| s.0).collect::<Vec<_>>(), vec!["q", "t", "a"]);
    for mode in [InputMode::TBOX, InputMode::ABOX] {
        let (spans, blinks) = render_help_text(mode);
        let text: String = spans.iter().map(|s| s.0).collect();
        assert_eq!(text, "Press Esc to stop editing, Enter to load an .ntenc file");
        assert!(!blinks);
        assert!(render_prompt(mode));
    }
    assert!(!render_prompt(InputMode::Normal));
}
