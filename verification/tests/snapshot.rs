use tally::codec::{decode_snapshot, encode_snapshot};
use tally::num::i64_dec_chars;
use tally::render::{footer_text, input_title, line_text};
use tally::state::{AppState, Key};
use tally::store::{Counter, CounterStore, Direction};

fn chars_of(s: &str) -> Vec<char> {
    s.chars().collect()
}

fn string_of(v: &[char]) -> String {
    v.iter().collect()
}

fn counter(name: &str, count: i64) -> Counter {
    Counter { name: chars_of(name), count }
}

#[test]
fn empty_snapshot_is_an_empty_array() {
    let counters: Vec<Counter> = Vec::new();
    let text = encode_snapshot(&counters);
    assert_eq!(string_of(&text), "[]");
    let back = decode_snapshot(&text).unwrap();
    assert_eq!(back.len(), 0);
}

#[test]
fn snapshot_text_is_the_pretty_json_form() {
    let counters = vec![counter("A", 1)];
    let text = encode_snapshot(&counters);
    assert_eq!(
        string_of(&text),
        "[\n  {\n    \"name\": \"A\",\n    \"count\": 1\n  }\n]"
    );
}

#[test]
fn round_trip_keeps_names_and_counts() {
    let counters = vec![
        counter("Pushups", 3),
        counter("", -17),
        counter("with \"quotes\" and \\slash\\", i64::MAX),
        counter("line\nbreak\ttab\rreturn", i64::MIN),
        counter("unicode ↓↑←→ name", 0),
    ];
    let text = encode_snapshot(&counters);
    let back = decode_snapshot(&text).unwrap();
    assert_eq!(back.len(), counters.len());
    for (a, b) in counters.iter().zip(back.iter()) {
        assert_eq!(a.name, b.name);
        assert_eq!(a.count, b.count);
    }
}

#[test]
fn decode_rejects_malformed_text() {
    assert!(decode_snapshot(&chars_of("")).is_none());
    assert!(decode_snapshot(&chars_of("[")).is_none());
    assert!(decode_snapshot(&chars_of("[\n]")).is_none());
    assert!(decode_snapshot(&chars_of("nonsense")).is_none());
    assert!(decode_snapshot(&chars_of("[\n  {\n    \"name\": \"A\",\n    \"count\": \n  }\n]"))
        .is_none());
    assert!(decode_snapshot(&chars_of(
        "[\n  {\n    \"name\": \"A\",\n    \"count\": 1\n  }\n] "
    ))
    .is_none());
}

#[test]
fn decode_rejects_counts_outside_the_i64_range() {
    let too_big = "[\n  {\n    \"name\": \"A\",\n    \"count\": 9223372036854775808\n  }\n]";
    assert!(decode_snapshot(&chars_of(too_big)).is_none());
    let min_fits = "[\n  {\n    \"name\": \"A\",\n    \"count\": -9223372036854775808\n  }\n]";
    let back = decode_snapshot(&chars_of(min_fits)).unwrap();
    assert_eq!(back[0].count, i64::MIN);
    let too_small = "[\n  {\n    \"name\": \"A\",\n    \"count\": -9223372036854775809\n  }\n]";
    assert!(decode_snapshot(&chars_of(too_small)).is_none());
}

#[test]
fn snapshot_holds_the_same_values_as_serde_json() {
    let counters = vec![counter("Pushups", 3), counter("Sit \"ups\"", -2)];
    let text = string_of(&encode_snapshot(&counters));

    let mut items: Vec<serde_json::Value> = Vec::new();
    for c in &counters {
        let mut obj = serde_json::Map::new();
        obj.insert(
            "name".to_string(),
            serde_json::Value::String(string_of(&c.name)),
        );
        obj.insert(
            "count".to_string(),
            serde_json::Value::Number(serde_json::Number::from(c.count)),
        );
        items.push(serde_json::Value::Object(obj));
    }
    let expected = serde_json::Value::Array(items);
    let parsed: serde_json::Value = serde_json::from_str(&text).unwrap();
    assert_eq!(parsed, expected);
}

#[test]
fn snapshot_is_readable_by_serde_json() {
    let counters = vec![counter("A counter", 42), counter("another", -1)];
    let text = string_of(&encode_snapshot(&counters));
    let parsed: serde_json::Value = serde_json::from_str(&text).unwrap();
    let arr = parsed.as_array().unwrap();
    assert_eq!(arr.len(), 2);
    assert_eq!(arr[0]["name"], serde_json::Value::String("A counter".to_string()));
    assert_eq!(arr[0]["count"], serde_json::Value::Number(serde_json::Number::from(42)));
    assert_eq!(arr[1]["count"], serde_json::Value::Number(serde_json::Number::from(-1)));
}

#[test]
fn decimal_text_of_counts() {
    assert_eq!(string_of(&i64_dec_chars(0)), "0");
    assert_eq!(string_of(&i64_dec_chars(7)), "7");
    assert_eq!(string_of(&i64_dec_chars(-1)), "-1");
    assert_eq!(string_of(&i64_dec_chars(1234567890)), "1234567890");
    assert_eq!(string_of(&i64_dec_chars(i64::MAX)), "9223372036854775807");
    assert_eq!(string_of(&i64_dec_chars(i64::MIN)), "-9223372036854775808");
}

#[test]
fn list_line_shows_count_and_name() {
    assert_eq!(string_of(&line_text(&counter("Pushups", 3))), "3: Pushups");
    assert_eq!(string_of(&line_text(&counter("down", -2))), "-2: down");
}

#[test]
fn footer_and_title_follow_the_mode() {
    let mut app = AppState::make_temporary();
    assert_eq!(footer_text(&app), "Use n to make a new counter, and q to exit.");
    assert_eq!(input_title(&app), "");

    app.handle_key(Key::Char('n'), true);
    assert_eq!(
        footer_text(&app),
        "Type a new counter name. Use enter to add and esc to return."
    );
    assert_eq!(input_title(&app), "New Counter");
    app.handle_key(Key::Enter, true);
    assert!(footer_text(&app).contains("a/s to add/subtract"));

    app.handle_key(Key::Char('a'), true);
    assert_eq!(input_title(&app), "Adding");
    app.handle_key(Key::Esc, true);
    app.handle_key(Key::Char('s'), true);
    assert_eq!(input_title(&app), "Subtracting");
}

#[test]
fn typing_a_huge_amount_saturates_the_counter() {
    let mut app = AppState::make_temporary();
    app.handle_key(Key::Char('n'), true);
    app.handle_key(Key::Enter, true);
    app.handle_key(Key::Down, true);
    app.handle_key(Key::Char('a'), true);
    for _ in 0..30 {
        app.handle_key(Key::Char('9'), true);
    }
    app.handle_key(Key::Enter, true);
    assert_eq!(app.store.counters[0].count, i64::MAX);
    app.handle_key(Key::Char('s'), true);
    for _ in 0..30 {
        app.handle_key(Key::Char('9'), true);
    }
    app.handle_key(Key::Enter, true);
    assert_eq!(app.store.counters[0].count, i64::MIN);
}

#[test]
fn store_contents_survive_a_save_and_load() {
    let mut store = CounterStore::new();
    store.append(chars_of("water"));
    store.append(chars_of("coffee"));
    store.move_selection(Direction::Next);
    store.adjust_selected(5);
    let text = encode_snapshot(&store.counters);
    let back = decode_snapshot(&text).unwrap();
    let restored = CounterStore::from_counters(back);
    assert_eq!(restored.counters.len(), 2);
    assert_eq!(restored.counters[0].name, chars_of("water"));
    assert_eq!(restored.counters[0].count, 5);
    assert_eq!(restored.counters[1].name, chars_of("coffee"));
    assert_eq!(restored.counters[1].count, 0);
    assert_eq!(restored.selection, None);
}
