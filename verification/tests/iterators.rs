use transaction_log::{BetterTransactionLog, ListIterator};

fn forward(mut cursor: ListIterator<'_>) -> Vec<String> {
    let mut seen = Vec::new();
    while let Some(element) = cursor.next() {
        seen.push(element);
    }
    seen
}

fn backward(mut cursor: ListIterator<'_>) -> Vec<String> {
    let mut seen = Vec::new();
    while let Some(element) = cursor.next_back() {
        seen.push(element);
    }
    seen
}

fn log_of(values: &[&str]) -> BetterTransactionLog {
    let mut log = BetterTransactionLog::new_empty();
    for value in values {
        log.append(value.to_string());
    }
    log
}

#[test]
fn test_forward_iterator() {
    let mut log = BetterTransactionLog::new_empty();

    log.append("hello,".to_string());
    log.append("I".to_string());
    log.append("am".to_string());
    log.append("33".to_string());
    log.append("years".to_string());
    log.append("old".to_string());
    assert_eq!(log.length(), 6);

    let mut seen = Vec::new();
    let mut iter = log.into_iter();
    while let Some(i) = iter.next() {
        println!("{} ", i);
        seen.push(i);
    }
    assert_eq!(seen, vec!["hello,", "I", "am", "33", "years", "old"]);
}

#[test]
fn test_backward_iterator() {
    let mut log = BetterTransactionLog::new_empty();

    log.append("Hola".to_string());
    log.append("Amigo".to_string());
    log.append("Adi√≥s".to_string());

    let mut seen = Vec::new();
    let mut iter = log.back_iter();

    while let Some(element) = iter.next_back() {
        println!("{} ", element);
        seen.push(element);
    }
    assert_eq!(seen, vec!["Adi√≥s", "Amigo", "Hola"]);
}

#[test]
fn backward_walk_of_three_greetings() {
    let log = log_of(&["Hola", "Amigo", "Adios"]);
    assert_eq!(backward(log.back_iter()), vec!["Adios", "Amigo", "Hola"]);
}

#[test]
fn borrowing_walk_yields_entries_in_order_every_time() {
    let values = ["hello,", "I", "am", "33", "years", "old"];
    let log = log_of(&values);
    assert_eq!(log.length(), 6);
    assert_eq!(forward(log.iter()), values);
    assert_eq!(forward(log.iter()), values);
    assert_eq!(log.length(), 6);
}

#[test]
fn borrowing_walk_leaves_log_usable() {
    let mut log = log_of(&["a", "b"]);
    assert_eq!(forward(log.iter()), vec!["a", "b"]);
    log.append("c".to_string());
    assert_eq!(forward(log.iter()), vec!["a", "b", "c"]);
    assert_eq!(log.pop(), Some("a".to_string()));
    assert_eq!(forward(log.iter()), vec!["b", "c"]);
}

#[test]
fn two_borrowing_cursors_walk_independently() {
    let log = log_of(&["a", "b", "c"]);
    let mut first = log.iter();
    let mut second = log.iter();
    assert_eq!(first.next(), Some("a".to_string()));
    assert_eq!(first.next(), Some("b".to_string()));
    assert_eq!(second.next(), Some("a".to_string()));
    assert_eq!(first.next(), Some("c".to_string()));
    assert_eq!(second.next(), Some("b".to_string()));
}

#[test]
fn consuming_walk_from_head_yields_entries_in_order() {
    let log = log_of(&["x", "y", "z"]);
    assert_eq!(forward(log.into_iter()), vec!["x", "y", "z"]);
}

#[test]
fn backward_walk_reverses_any_number_of_entries() {
    for n in 0..20usize {
        let values: Vec<String> = (0..n).map(|i| format!("entry {}", i)).collect();
        let mut log = BetterTransactionLog::new_empty();
        for value in &values {
            log.append(value.clone());
        }
        let mut expected = values.clone();
        expected.reverse();
        assert_eq!(backward(log.back_iter()), expected);
    }
}

#[test]
fn forward_walk_yields_any_number_of_entries() {
    for n in 0..20usize {
        let values: Vec<String> = (0..n).map(|i| format!("entry {}", i)).collect();
        let mut log = BetterTransactionLog::new_empty();
        for value in &values {
            log.append(value.clone());
        }
        assert_eq!(log.length(), n as u64);
        assert_eq!(forward(log.iter()), values);
        assert_eq!(forward(log.iter()), values);
    }
}

#[test]
fn walks_over_empty_log_yield_nothing() {
    let log = BetterTransactionLog::new_empty();
    assert_eq!(log.iter().next(), None);
    assert_eq!(log.iter().next_back(), None);
    assert!(forward(log.iter()).is_empty());
    assert!(backward(log.back_iter()).is_empty());
    assert!(forward(BetterTransactionLog::new_empty().into_iter()).is_empty());
}

#[test]
fn exhausted_cursor_stays_exhausted_in_both_directions() {
    let log = log_of(&["a", "b"]);
    let mut cursor = log.iter();
    assert_eq!(cursor.next(), Some("a".to_string()));
    assert_eq!(cursor.next(), Some("b".to_string()));
    assert_eq!(cursor.next(), None);
    assert_eq!(cursor.next(), None);
    assert_eq!(cursor.next_back(), None);
    assert_eq!(cursor.next(), None);

    let mut cursor = log_of(&["a", "b"]).back_iter();
    assert_eq!(cursor.next_back(), Some("b".to_string()));
    assert_eq!(cursor.next_back(), Some("a".to_string()));
    assert_eq!(cursor.next_back(), None);
    assert_eq!(cursor.next_back(), None);
    assert_eq!(cursor.next(), None);
}

#[test]
fn both_directions_move_one_position() {
    let log = log_of(&["a", "b", "c", "d", "e"]);
    let mut cursor = log.iter();
    assert_eq!(cursor.next(), Some("a".to_string()));
    assert_eq!(cursor.next(), Some("b".to_string()));
    assert_eq!(cursor.next(), Some("c".to_string()));
    // The cursor stands at "d"; a step backward hands it out and moves to "c",
    // not to the tail.
    assert_eq!(cursor.next_back(), Some("d".to_string()));
    assert_eq!(cursor.next_back(), Some("c".to_string()));
    assert_eq!(cursor.next(), Some("b".to_string()));
    assert_eq!(cursor.next(), Some("c".to_string()));
}

#[test]
fn forward_step_from_tail_exhausts_cursor() {
    let mut cursor = log_of(&["a", "b", "c"]).back_iter();
    assert_eq!(cursor.next(), Some("c".to_string()));
    assert_eq!(cursor.next(), None);
    assert_eq!(cursor.next_back(), None);
}

#[test]
fn backward_step_from_head_exhausts_cursor() {
    let log = log_of(&["a", "b", "c"]);
    let mut cursor = log.iter();
    assert_eq!(cursor.next_back(), Some("a".to_string()));
    assert_eq!(cursor.next_back(), None);
    assert_eq!(cursor.next(), None);
}

#[test]
fn walk_sees_entries_in_reused_slots_in_list_order() {
    let mut log = log_of(&["a", "b", "c"]);
    assert_eq!(log.pop(), Some("a".to_string()));
    assert_eq!(log.pop(), Some("b".to_string()));
    log.append("d".to_string());
    log.append("e".to_string());
    log.append("f".to_string());
    assert_eq!(forward(log.iter()), vec!["c", "d", "e", "f"]);
    assert_eq!(backward(log.back_iter()), vec!["f", "e", "d", "c"]);
}

#[test]
fn payloads_are_handed_out_unchanged() {
    let values = ["", " ", "Adi\u{f3}s", "line\nbreak", "\u{1F980}"];
    let log = log_of(&values);
    assert_eq!(forward(log.iter()), values);
    let mut reversed = values.to_vec();
    reversed.reverse();
    assert_eq!(backward(log.back_iter()), reversed);
}
