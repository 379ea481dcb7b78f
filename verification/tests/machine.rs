use tally::state::{AppState, Key};
use tally::store::{CounterStore, Direction, Sign};

fn chars_of(s: &str) -> Vec<char> {
    s.chars().collect()
}

fn press(app: &mut AppState, key: Key) -> bool {
    app.handle_key(key, true)
}

fn type_str(app: &mut AppState, s: &str) {
    for c in s.chars() {
        press(app, Key::Char(c));
    }
}

#[test]
fn create_counter_scenario() {
    let mut app = AppState::make_temporary();
    press(&mut app, Key::Char('n'));
    type_str(&mut app, "Pushups");
    press(&mut app, Key::Enter);
    assert_eq!(app.store.counters.len(), 1);
    assert_eq!(app.store.counters[0].name, chars_of("Pushups"));
    assert_eq!(app.store.counters[0].count, 0);
    assert!(matches!(app.mode, tally::mode::InputMode::Normal));
}

#[test]
fn increment_and_decrement_scenario() {
    let mut app = AppState::make_temporary();
    press(&mut app, Key::Char('n'));
    type_str(&mut app, "Pushups");
    press(&mut app, Key::Enter);
    press(&mut app, Key::Down);
    assert_eq!(app.store.selection, Some(0));
    press(&mut app, Key::Char('l'));
    press(&mut app, Key::Char('l'));
    press(&mut app, Key::Char('l'));
    assert_eq!(app.store.counters[0].count, 3);
    press(&mut app, Key::Char(';'));
    assert_eq!(app.store.counters[0].count, 2);
}

#[test]
fn add_and_subtract_scenario() {
    let mut app = AppState::make_temporary();
    press(&mut app, Key::Char('n'));
    type_str(&mut app, "Pushups");
    press(&mut app, Key::Enter);
    press(&mut app, Key::Down);
    press(&mut app, Key::Char('l'));
    press(&mut app, Key::Char('l'));
    assert_eq!(app.store.counters[0].count, 2);
    press(&mut app, Key::Char('a'));
    type_str(&mut app, "10");
    press(&mut app, Key::Enter);
    assert_eq!(app.store.counters[0].count, 12);
    assert!(matches!(app.mode, tally::mode::InputMode::Normal));
    press(&mut app, Key::Char('s'));
    type_str(&mut app, "5");
    press(&mut app, Key::Enter);
    assert_eq!(app.store.counters[0].count, 7);
}

#[test]
fn delete_revalidates_selection_scenario() {
    let mut app = AppState::make_temporary();
    press(&mut app, Key::Char('n'));
    type_str(&mut app, "First");
    press(&mut app, Key::Enter);
    press(&mut app, Key::Char('n'));
    type_str(&mut app, "Second");
    press(&mut app, Key::Enter);
    press(&mut app, Key::Down);
    assert_eq!(app.store.selection, Some(0));
    press(&mut app, Key::Char('d'));
    assert_eq!(app.store.counters.len(), 1);
    assert_eq!(app.store.counters[0].name, chars_of("Second"));
    assert_eq!(app.store.selection, Some(0));
}

#[test]
fn quit_sets_exit_flag() {
    let mut app = AppState::make_temporary();
    assert!(!app.should_exit);
    press(&mut app, Key::Char('q'));
    assert!(app.should_exit);
}

#[test]
fn non_press_events_are_ignored() {
    let mut app = AppState::make_temporary();
    let persist = app.handle_key(Key::Char('n'), false);
    assert!(!persist);
    assert!(matches!(app.mode, tally::mode::InputMode::Normal));
}

#[test]
fn append_keeps_call_order() {
    let mut store = CounterStore::new();
    let names = ["a", "b", "c", "d"];
    for (k, n) in names.iter().enumerate() {
        let idx = store.append(chars_of(n));
        assert_eq!(idx, k);
    }
    assert_eq!(store.counters.len(), 4);
    for (k, n) in names.iter().enumerate() {
        assert_eq!(store.counters[k].name, chars_of(n));
        assert_eq!(store.counters[k].count, 0);
    }
}

#[test]
fn remove_at_last_index_clears_selection() {
    let mut store = CounterStore::new();
    store.append(chars_of("a"));
    store.append(chars_of("b"));
    store.move_selection(Direction::Previous);
    assert_eq!(store.selection, Some(1));
    store.remove_selected();
    assert_eq!(store.counters.len(), 1);
    assert_eq!(store.selection, None);
}

#[test]
fn remove_in_the_middle_keeps_selection_index() {
    let mut store = CounterStore::new();
    store.append(chars_of("a"));
    store.append(chars_of("b"));
    store.append(chars_of("c"));
    store.move_selection(Direction::Next);
    store.move_selection(Direction::Next);
    assert_eq!(store.selection, Some(1));
    store.remove_selected();
    assert_eq!(store.counters.len(), 2);
    assert_eq!(store.selection, Some(1));
    assert_eq!(store.counters[1].name, chars_of("c"));
}

#[test]
fn remove_only_counter_clears_selection() {
    let mut store = CounterStore::new();
    store.append(chars_of("only"));
    store.move_selection(Direction::Next);
    assert_eq!(store.selection, Some(0));
    store.remove_selected();
    assert_eq!(store.counters.len(), 0);
    assert_eq!(store.selection, None);
}

#[test]
fn adjust_out_of_range_is_a_noop() {
    let mut store = CounterStore::new();
    store.append(chars_of("a"));
    store.adjust(5, 7);
    assert_eq!(store.counters.len(), 1);
    assert_eq!(store.counters[0].count, 0);
    assert_eq!(store.selection, None);
}

#[test]
fn adjust_with_no_selection_is_a_noop() {
    let mut store = CounterStore::new();
    store.append(chars_of("a"));
    store.adjust_selected(3);
    assert_eq!(store.counters[0].count, 0);
    store.adjust_selected_signed(Sign::Negative, 9);
    assert_eq!(store.counters[0].count, 0);
}

#[test]
fn adjust_saturates_at_the_ends() {
    let mut store = CounterStore::new();
    store.append(chars_of("big"));
    store.move_selection(Direction::Next);
    store.adjust_selected(i64::MAX);
    assert_eq!(store.counters[0].count, i64::MAX);
    store.adjust_selected(1);
    assert_eq!(store.counters[0].count, i64::MAX);
    store.adjust_selected(i64::MIN);
    assert_eq!(store.counters[0].count, -1);
    store.adjust_selected(i64::MIN);
    store.adjust_selected(i64::MIN);
    assert_eq!(store.counters[0].count, i64::MIN);
}

#[test]
fn selection_moves_clamp_at_the_ends() {
    let mut store = CounterStore::new();
    store.append(chars_of("a"));
    store.append(chars_of("b"));
    store.move_selection(Direction::Next);
    assert_eq!(store.selection, Some(0));
    store.move_selection(Direction::Next);
    assert_eq!(store.selection, Some(1));
    store.move_selection(Direction::Next);
    assert_eq!(store.selection, Some(1));
    store.move_selection(Direction::Previous);
    assert_eq!(store.selection, Some(0));
    store.move_selection(Direction::Previous);
    assert_eq!(store.selection, Some(0));
    store.clear_selection();
    assert_eq!(store.selection, None);
    store.move_selection(Direction::Previous);
    assert_eq!(store.selection, Some(1));
}

#[test]
fn moving_selection_on_an_empty_list_selects_nothing() {
    let mut store = CounterStore::new();
    store.move_selection(Direction::Next);
    assert_eq!(store.selection, None);
    store.move_selection(Direction::Previous);
    assert_eq!(store.selection, None);
}

#[test]
fn escape_discards_the_typed_name() {
    let mut app = AppState::make_temporary();
    press(&mut app, Key::Char('n'));
    type_str(&mut app, "abandoned");
    press(&mut app, Key::Esc);
    assert!(matches!(app.mode, tally::mode::InputMode::Normal));
    assert_eq!(app.store.counters.len(), 0);
    press(&mut app, Key::Char('n'));
    press(&mut app, Key::Enter);
    assert_eq!(app.store.counters.len(), 1);
    assert_eq!(app.store.counters[0].name, chars_of(""));
}

#[test]
fn adjusting_rejects_non_digits_and_empty_commit_is_a_noop() {
    let mut app = AppState::make_temporary();
    press(&mut app, Key::Char('n'));
    type_str(&mut app, "c");
    press(&mut app, Key::Enter);
    press(&mut app, Key::Down);
    press(&mut app, Key::Char('a'));
    type_str(&mut app, "x!y");
    press(&mut app, Key::Enter);
    assert_eq!(app.store.counters[0].count, 0);
    press(&mut app, Key::Char('a'));
    press(&mut app, Key::Enter);
    assert_eq!(app.store.counters[0].count, 0);
    assert!(matches!(app.mode, tally::mode::InputMode::Normal));
}

#[test]
fn sign_switch_keeps_the_typed_amount() {
    let mut app = AppState::make_temporary();
    press(&mut app, Key::Char('n'));
    type_str(&mut app, "c");
    press(&mut app, Key::Enter);
    press(&mut app, Key::Down);
    press(&mut app, Key::Char('a'));
    type_str(&mut app, "42");
    press(&mut app, Key::Char('s'));
    press(&mut app, Key::Enter);
    assert_eq!(app.store.counters[0].count, -42);
}

#[test]
fn selection_can_move_while_adjusting() {
    let mut app = AppState::make_temporary();
    press(&mut app, Key::Char('n'));
    type_str(&mut app, "a");
    press(&mut app, Key::Enter);
    press(&mut app, Key::Char('n'));
    type_str(&mut app, "b");
    press(&mut app, Key::Enter);
    press(&mut app, Key::Char('a'));
    type_str(&mut app, "7");
    press(&mut app, Key::Down);
    press(&mut app, Key::Down);
    press(&mut app, Key::Enter);
    assert_eq!(app.store.counters[0].count, 0);
    assert_eq!(app.store.counters[1].count, 7);
}

#[test]
fn mutating_keys_request_persistence_only_with_a_target() {
    let mut eph = AppState::make_temporary();
    eph.handle_key(Key::Char('n'), true);
    let persist = eph.handle_key(Key::Enter, true);
    assert!(!persist);

    let mut saved = AppState::make_saved(Vec::new());
    saved.handle_key(Key::Char('n'), true);
    let persist = saved.handle_key(Key::Enter, true);
    assert!(persist);
    let persist = saved.handle_key(Key::Down, true);
    assert!(!persist);
    let persist = saved.handle_key(Key::Char('l'), true);
    assert!(persist);
    let persist = saved.handle_key(Key::Char('d'), true);
    assert!(persist);
}
