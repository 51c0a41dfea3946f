use generic_ringbuffers::cursor::{backoff_ms, ShardCursor, MAX_BACKOFF_MS};
use generic_ringbuffers::text::decimal_text;

#[test]
fn backoff_doubles_up_to_the_limit() {
    let pauses: Vec<u64> = (0..8).map(backoff_ms).collect();
    assert_eq!(pauses, vec![1, 2, 4, 8, 16, 20, 20, 20]);
    assert_eq!(backoff_ms(i32::MAX), 20);
    assert_eq!(MAX_BACKOFF_MS, 20);
}

#[test]
fn round_visits_each_shard_once() {
    let mut cursor = ShardCursor::starting_at(3);
    let mut seen: Vec<usize> = Vec::new();
    for step in 0..5 {
        seen.push(cursor.current());
        assert_eq!(cursor.advance(5), step == 4);
    }
    assert_eq!(seen, vec![3, 4, 0, 1, 2]);
    assert_eq!(cursor.current(), 3);
}

#[test]
fn pauses_grow_with_the_rounds() {
    let mut cursor = ShardCursor::starting_at(0);
    let pauses: Vec<u64> = (0..6).map(|_| cursor.back_off()).collect();
    assert_eq!(pauses, vec![1, 2, 4, 8, 16, 20]);
}

#[test]
fn thread_starts_one_shard_on_each_time() {
    let mut thread_index: Option<usize> = Some(8);
    assert_eq!(ShardCursor::begin(10, &mut thread_index).current(), 9);
    assert_eq!(ShardCursor::begin(10, &mut thread_index).current(), 0);
    assert_eq!(thread_index, Some(0));
}

#[test]
fn new_thread_starts_anywhere() {
    let mut seen: Vec<usize> = vec![0; 4];
    for _ in 0..400 {
        let mut thread_index: Option<usize> = None;
        let start = ShardCursor::begin(4, &mut thread_index).current();
        assert!(start < 4);
        assert_eq!(thread_index, Some(start));
        seen[start] += 1;
    }
    assert!(seen.iter().all(|hits| *hits > 0));
    let mut thread_index: Option<usize> = None;
    assert_eq!(ShardCursor::begin(1, &mut thread_index).current(), 0);
}

#[test]
fn numerals_have_no_leading_zeros() {
    assert_eq!(decimal_text(0), "0");
    assert_eq!(decimal_text(9), "9");
    assert_eq!(decimal_text(10), "10");
    assert_eq!(decimal_text(1234567890), "1234567890");
    assert_eq!(decimal_text(usize::MAX), format!("{}", usize::MAX));
}
