use mjreplay::batch::{is_log_file, replay_batch, should_replay, BatchError, Notification};
use mjreplay::event::Event;
use mjreplay::position::RoundPosition;
use mjreplay::replay::{ReplayError, Step};

fn round(r: usize, k: usize, h: usize) -> Vec<Event> {
    vec![
        Event::RoundNew(RoundPosition::new(r, k, h)),
        Event::DiscardTile,
        Event::Meld,
        Event::DealTile,
        Event::Win,
        Event::RoundEnd,
    ]
}

#[test]
fn skip_position_passes_over_earlier_round() {
    let logs = vec![round(0, 0, 0), round(0, 1, 0)];
    let (ns, r) = replay_batch(&logs, RoundPosition::new(0, 1, 0));
    assert_eq!(r, Ok(()));
    assert!(ns.iter().all(|n| n.log == 1));
    assert_eq!(ns.len(), 6);
    assert_eq!(ns[0], Notification { log: 1, index: 0, step: Step::RoundNew });
    assert_eq!(ns[5], Notification { log: 1, index: 5, step: Step::RoundEnd });
}

#[test]
fn no_skip_replays_every_round_in_order() {
    let logs = vec![round(0, 0, 0), round(0, 1, 0)];
    let (ns, r) = replay_batch(&logs, RoundPosition::new(0, 0, 0));
    assert_eq!(r, Ok(()));
    assert_eq!(ns.len(), 12);
    assert!(ns[..6].iter().all(|n| n.log == 0));
    assert!(ns[6..].iter().all(|n| n.log == 1));
}

#[test]
fn same_batch_twice_gives_same_notifications() {
    let logs = vec![round(1, 2, 0), round(0, 3, 1), round(2, 0, 0)];
    let skip = RoundPosition::new(1, 0, 0);
    let first = replay_batch(&logs, skip);
    let second = replay_batch(&logs, skip);
    assert_eq!(first, second);
    assert_eq!(first.0.len(), 12);
}

#[test]
fn fault_stops_the_batch() {
    let logs = vec![round(0, 0, 0), vec![Event::Dora], round(0, 2, 0)];
    let (ns, r) = replay_batch(&logs, RoundPosition::new(0, 0, 0));
    assert_eq!(r, Err(BatchError { log: 1, error: ReplayError::NotRoundNew }));
    assert_eq!(ns.len(), 6);
}

#[test]
fn should_replay_compares_lexicographically() {
    let skip = RoundPosition::new(1, 2, 3);
    assert!(!should_replay(&round(0, 9, 9), &skip));
    assert!(!should_replay(&round(1, 1, 9), &skip));
    assert!(!should_replay(&round(1, 2, 2), &skip));
    assert!(should_replay(&round(1, 2, 3), &skip));
    assert!(should_replay(&round(1, 3, 0), &skip));
    assert!(should_replay(&round(2, 0, 0), &skip));
    assert!(should_replay(&vec![], &skip));
    assert!(should_replay(&vec![Event::Dora], &skip));
}

#[test]
fn log_files_are_json() {
    assert!(is_log_file("round1.json"));
    assert!(is_log_file("a.json"));
    assert!(!is_log_file(".json"));
    assert!(!is_log_file("round1.jsonl"));
    assert!(!is_log_file("round1.txt"));
    assert!(!is_log_file("json"));
}
