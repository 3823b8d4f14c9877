use std::collections::VecDeque;
use transaction_log::BetterTransactionLog;

fn contents(log: &BetterTransactionLog) -> Vec<String> {
    let mut cursor = log.iter();
    let mut seen = Vec::new();
    while let Some(element) = cursor.next() {
        seen.push(element);
    }
    seen
}

#[test]
fn new_log_is_empty() {
    let mut log = BetterTransactionLog::new_empty();
    assert_eq!(log.length(), 0);
    assert!(contents(&log).is_empty());
    assert_eq!(log.pop(), None);
    assert_eq!(log.length(), 0);
}

#[test]
fn append_counts_entries() {
    let mut log = BetterTransactionLog::new_empty();
    for n in 0..50u64 {
        assert_eq!(log.length(), n);
        log.append(n.to_string());
    }
    assert_eq!(log.length(), 50);
}

#[test]
fn pops_return_entries_in_order_of_appending() {
    let values = ["hello,", "I", "am", "33", "years", "old"];
    let mut log = BetterTransactionLog::new_empty();
    for value in values {
        log.append(value.to_string());
    }
    for (popped, value) in values.iter().enumerate() {
        assert_eq!(log.length(), (values.len() - popped) as u64);
        assert_eq!(log.pop(), Some(value.to_string()));
    }
    assert_eq!(log.length(), 0);
    assert_eq!(log.pop(), None);
    assert_eq!(log.pop(), None);
    assert_eq!(log.length(), 0);
}

#[test]
fn pop_removes_only_the_oldest_entry() {
    let mut log = BetterTransactionLog::new_empty();
    log.append("a".to_string());
    log.append("b".to_string());
    log.append("c".to_string());
    assert_eq!(log.pop(), Some("a".to_string()));
    assert_eq!(log.length(), 2);
    assert_eq!(contents(&log), vec!["b", "c"]);
}

#[test]
fn single_entry_log_is_empty_after_pop() {
    let mut log = BetterTransactionLog::new_empty();
    log.append("only".to_string());
    assert_eq!(log.length(), 1);
    assert_eq!(log.pop(), Some("only".to_string()));
    assert_eq!(log.length(), 0);
    // Neither end still links to the removed node.
    assert_eq!(log.iter().next(), None);
    assert_eq!(log.pop(), None);
    log.append("next".to_string());
    assert_eq!(contents(&log), vec!["next"]);
    let mut from_tail = log.back_iter();
    assert_eq!(from_tail.next_back(), Some("next".to_string()));
    assert_eq!(from_tail.next_back(), None);
}

#[test]
fn tail_is_empty_after_last_pop() {
    let mut log = BetterTransactionLog::new_empty();
    log.append("only".to_string());
    assert_eq!(log.pop(), Some("only".to_string()));
    assert_eq!(log.back_iter().next_back(), None);
}

#[test]
fn round_trip_leaves_log_reusable() {
    let mut log = BetterTransactionLog::new_empty();
    for round in 0..4 {
        let values: Vec<String> = (0..7).map(|i| format!("{}-{}", round, i)).collect();
        for value in &values {
            log.append(value.clone());
        }
        assert_eq!(log.length(), 7);
        let mut popped = Vec::new();
        for _ in 0..values.len() {
            popped.push(log.pop().unwrap());
        }
        assert_eq!(popped, values);
        assert_eq!(log.length(), 0);
        assert_eq!(log.pop(), None);
    }
    log.append("again".to_string());
    assert_eq!(contents(&log), vec!["again"]);
}

#[test]
fn interleaved_appends_and_pops_behave_as_a_queue() {
    let mut log = BetterTransactionLog::new_empty();
    let mut queue: VecDeque<String> = VecDeque::new();
    let mut state: u32 = 12345;
    for step in 0..2000u32 {
        state = state.wrapping_mul(1664525).wrapping_add(1013904223);
        if (state >> 16) % 3 != 0 {
            let value = format!("v{}", step);
            log.append(value.clone());
            queue.push_back(value);
        } else {
            assert_eq!(log.pop(), queue.pop_front());
        }
        assert_eq!(log.length(), queue.len() as u64);
        if step % 97 == 0 {
            assert_eq!(contents(&log), Vec::from(queue.clone()));
        }
    }
    while let Some(expected) = queue.pop_front() {
        assert_eq!(log.pop(), Some(expected));
    }
    assert_eq!(log.pop(), None);
    assert_eq!(log.length(), 0);
}

#[test]
fn pop_hands_out_the_payload_unchanged() {
    let mut log = BetterTransactionLog::new_empty();
    log.append(String::new());
    log.append("Adi\u{f3}s, \u{1F980}".to_string());
    assert_eq!(log.pop(), Some(String::new()));
    assert_eq!(log.pop(), Some("Adi\u{f3}s, \u{1F980}".to_string()));
}
