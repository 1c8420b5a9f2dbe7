use tinypngx::clock::{month_text, LocalTime};
use tinypngx::keys::keys;
use tinypngx::state::{ApiMetadata, ApiState};
use tinypngx::table::KeyTable;

fn time(year: i32, month: u32, text: &str) -> LocalTime {
    LocalTime { year, month, rfc3339: text.to_string() }
}

fn names(list: &[&str]) -> Vec<String> {
    list.iter().map(|s| s.to_string()).collect()
}

fn credit(state: &ApiState, key: &str) -> Option<u32> {
    state.key_statuses.get(key).copied()
}

fn state_with(entries: &[(&str, u32)], month: &str) -> ApiState {
    let mut key_statuses = KeyTable::new();
    for (key, credits) in entries {
        key_statuses.insert(key.to_string(), *credits);
    }
    ApiState {
        key_statuses,
        metadata: ApiMetadata {
            last_updated: "before".to_string(),
            current_month: month.to_string(),
        },
    }
}

#[test]
fn month_is_written_with_two_digits() {
    assert_eq!(month_text(2024, 3), "2024-03");
    assert_eq!(month_text(2024, 12), "2024-12");
    assert_eq!(month_text(-5, 1), "-5-01");
    assert_eq!(month_text(12024, 10), "12024-10");
}

#[test]
fn new_state_has_no_keys_and_the_current_month() {
    let state = ApiState::new();
    assert_eq!(state.key_statuses.len(), 0);
    assert!(state.metadata.last_updated.starts_with(&state.metadata.current_month));
    assert_eq!(state.metadata.current_month.len(), 7);
    let at = ApiState::new_at(time(2025, 7, "2025-07-09T00:00:00+00:00"));
    assert_eq!(at.metadata.current_month, "2025-07");
    assert_eq!(at.metadata.last_updated, "2025-07-09T00:00:00+00:00");
}

#[test]
fn loading_without_a_stored_state_starts_afresh() {
    let state = ApiState::load(None);
    assert_eq!(state.key_statuses.len(), 0);
    assert_eq!(state.metadata.current_month, ApiState::new().metadata.current_month);
    let at = ApiState::load_at(None, time(2025, 1, "t"));
    assert_eq!(at.metadata.current_month, "2025-01");
    assert_eq!(at.metadata.last_updated, "t");
}

#[test]
fn another_month_restores_all_credits() {
    let state = state_with(&[("a", 0), ("b", 123), ("c", 700)], "2025-01");
    let loaded = ApiState::load_at(Some(state), time(2025, 2, "t"));
    assert_eq!(credit(&loaded, "a"), Some(500));
    assert_eq!(credit(&loaded, "b"), Some(500));
    assert_eq!(credit(&loaded, "c"), Some(500));
    assert_eq!(loaded.metadata.current_month, "2025-02");
    assert_eq!(loaded.metadata.last_updated, "before");
    assert_eq!(loaded.active_keys_count(), 3);
    assert_eq!(loaded.total_remaining_credits(), 1500);
}

#[test]
fn every_change_of_month_is_noticed() {
    let state = state_with(&[("a", 1)], "2025-01");
    let mut loaded = ApiState::load_at(Some(state), time(2025, 1, "t"));
    for (year, month) in [(2025, 11), (2026, 11), (2026, 1), (2025, 1)] {
        loaded.update_key_credit("a", 1);
        loaded = ApiState::load_at(Some(loaded), time(year, month, "t"));
        assert_eq!(credit(&loaded, "a"), Some(500));
    }
}

#[test]
fn the_same_month_keeps_the_credits() {
    let state = state_with(&[("a", 0), ("b", 123)], "2025-02");
    let loaded = ApiState::load_at(Some(state), time(2025, 2, "t"));
    assert_eq!(credit(&loaded, "a"), Some(0));
    assert_eq!(credit(&loaded, "b"), Some(123));
    let again = ApiState::load_at(Some(loaded), time(2025, 2, "u"));
    assert_eq!(credit(&again, "b"), Some(123));
    assert_eq!(again.metadata.last_updated, "before");
}

#[test]
fn a_stored_state_of_now_is_loaded_as_it_is() {
    let month = ApiState::new().metadata.current_month;
    let loaded = ApiState::load(Some(state_with(&[("a", 7)], &month)));
    assert_eq!(credit(&loaded, "a"), Some(7));
    let rolled = ApiState::load(Some(state_with(&[("a", 7)], "1999-01")));
    assert_eq!(credit(&rolled, "a"), Some(500));
}

#[test]
fn stamping_notes_the_time_only() {
    let mut state = state_with(&[("a", 7)], "2025-02");
    state.stamp_at(time(2030, 1, "later"));
    assert_eq!(state.metadata.last_updated, "later");
    assert_eq!(state.metadata.current_month, "2025-02");
    assert_eq!(credit(&state, "a"), Some(7));
    state.stamp();
    let text = state.metadata.last_updated.clone();
    assert!(text.starts_with(&format!("{}-", ApiState::new().metadata.current_month)));
    let shape: Vec<char> =
        text.chars().take(19).map(|c| if c.is_ascii_digit() { '0' } else { c }).collect();
    assert_eq!(shape.into_iter().collect::<String>(), "0000-00-00T00:00:00");
    assert!(text.len() > 19);
    assert_eq!(state.metadata.current_month, "2025-02");
}

#[test]
fn copies_hold_the_same() {
    let mut state = state_with(&[("a", 7)], "2025-02");
    state.stamp_at(time(2030, 1, "later"));
    let metadata = state.metadata.clone();
    assert_eq!((metadata.last_updated.as_str(), metadata.current_month.as_str()), ("later", "2025-02"));
    let copy = state.clone();
    state.update_key_credit("a", 1);
    assert_eq!(credit(&copy, "a"), Some(7));
    assert_eq!(copy.metadata.last_updated, "later");
}

#[test]
fn updated_keys_are_exactly_the_listed_ones() {
    let mut state = state_with(&[("old", 3), ("gone", 9)], "2025-02");
    state.update_keys(&names(&["new", "old", "new"]));
    assert_eq!(state.key_statuses.len(), 2);
    assert_eq!(credit(&state, "old"), Some(3));
    assert_eq!(credit(&state, "new"), Some(500));
    assert_eq!(credit(&state, "gone"), None);
    state.update_key_credit("new", 12);
    state.update_keys(&names(&["new", "old", "new"]));
    assert_eq!(credit(&state, "new"), Some(12));
    state.update_keys(&[]);
    assert_eq!(state.key_statuses.len(), 0);
}

#[test]
fn credits_are_counted_and_added_up() {
    let mut state = state_with(&[("a", 0), ("b", 123), ("c", 1)], "2025-02");
    assert_eq!(state.active_keys_count(), 2);
    assert_eq!(state.total_remaining_credits(), 124);
    assert_eq!(state.checked_total_remaining_credits(), Some(124));
    state.update_key_credit("a", u32::MAX);
    assert_eq!(state.checked_total_remaining_credits(), None);
    assert_eq!(state.active_keys_count(), 3);
    assert_eq!(state_with(&[], "m").checked_total_remaining_credits(), Some(0));
}

#[test]
fn credit_of_an_unlisted_key_is_not_noted() {
    let mut state = state_with(&[("a", 5)], "2025-02");
    state.update_key_credit("b", 9);
    assert_eq!(credit(&state, "b"), None);
    state.update_key_credit("a", 9);
    assert_eq!(credit(&state, "a"), Some(9));
}

#[test]
fn invalid_key_has_no_credits() {
    let mut state = state_with(&[("a", 5), ("b", 6)], "2025-02");
    state.mark_key_invalid("a");
    state.mark_key_invalid("c");
    assert_eq!(credit(&state, "a"), Some(0));
    assert_eq!(credit(&state, "b"), Some(6));
    assert_eq!(credit(&state, "c"), Some(0));
    assert_eq!(state.active_keys_count(), 1);
    let copy = state.clone();
    assert_eq!(copy.key_statuses.len(), 3);
    assert_eq!(credit(&copy, "b"), Some(6));
}

#[test]
fn table_keeps_each_key_once() {
    let mut table: KeyTable<u32> = KeyTable::new();
    table.insert("a".to_string(), 1);
    table.insert("b".to_string(), 2);
    table.insert("a".to_string(), 3);
    assert_eq!(table.len(), 2);
    assert_eq!(table.key_at(0).as_str(), "a");
    assert_eq!(*table.value_at(0), 3);
    assert!(table.contains_key("b"));
    assert!(!table.contains_key("c"));
    table.fill(9);
    assert_eq!(table.get("a"), Some(&9));
    assert_eq!(table.get("b"), Some(&9));
    table.retain(&names(&["b"]));
    assert_eq!(table.len(), 1);
    assert_eq!(table.duplicate().get("b"), Some(&9));
}

#[test]
fn keys_are_read_line_by_line() {
    let text = "# comment\r\n\r\n  first key \r\n\tsecond\n   # another\nthird#x\n\n\u{3000}last\r";
    assert_eq!(keys(text), names(&["first key", "second", "third#x", "last"]));
    let standard: Vec<String> = text
        .lines()
        .map(|l| l.trim())
        .filter(|l| !l.is_empty() && !l.starts_with('#'))
        .map(String::from)
        .collect();
    assert_eq!(keys(text), standard);
}

#[test]
fn no_keys_in_an_empty_file() {
    assert!(keys("").is_empty());
    assert!(keys("\n \n#\n").is_empty());
    assert_eq!(keys("k"), names(&["k"]));
}

#[test]
fn keys_are_read_back() {
    let list = names(&["abc", "d e", "密钥"]);
    assert_eq!(keys(&list.join("\n")), list);
    let mut both = keys("a\nb");
    both.extend(keys("#\nc"));
    assert_eq!(keys("a\nb\n#\nc"), both);
}
