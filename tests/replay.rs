use mjreplay::event::Event;
use mjreplay::position::RoundPosition;
use mjreplay::replay::{Consumed, Replay, ReplayError, Step};

fn start() -> Event {
    Event::RoundNew(RoundPosition::new(0, 0, 0))
}

fn run(events: Vec<Event>) -> (Vec<Consumed>, Result<(), ReplayError>) {
    let mut replay = Replay::new();
    let r = replay.run(events);
    (replay.applied.clone(), r)
}

fn steps(applied: &[Consumed]) -> Vec<(usize, Step)> {
    applied.iter().map(|c| (c.index, c.step)).collect()
}

#[test]
fn call_that_ends_round_jumps_to_round_end() {
    let events = vec![
        start(),
        Event::DiscardTile,
        Event::Meld,
        Event::DealTile,
        Event::DiscardTile,
        Event::Win,
        Event::RoundEnd,
    ];
    let mut replay = Replay::new();
    assert_eq!(replay.run(events), Ok(()));
    let applied = replay.applied.clone();
    assert_eq!(
        steps(&applied),
        vec![
            (0, Step::RoundNew),
            (1, Step::Turn),
            (2, Step::Call),
            (3, Step::Deal),
            (4, Step::Turn),
            (5, Step::Call),
            (6, Step::RoundEnd),
        ]
    );
    assert!(!applied.iter().skip(6).any(|c| c.step == Step::Deal));
    assert_eq!(replay.cursor, 7);
    assert!(replay.is_round_end);
}

#[test]
fn turn_that_ends_round_skips_dora_check() {
    let events = vec![start(), Event::Win, Event::RoundEnd];
    let mut replay = Replay::new();
    assert_eq!(replay.run(events), Ok(()));
    assert_eq!(steps(&replay.applied), vec![(0, Step::RoundNew), (1, Step::Turn), (2, Step::RoundEnd)]);
    assert!(replay.is_round_end);
    assert_eq!(replay.cursor, 3);
}

#[test]
fn dora_after_winning_turn_is_taken_as_closing_record() {
    // No dora check follows a turn that closed the round: a dora record there
    // is not a kan dora. It is applied as the round's closing record, and the
    // real closing record after it is never applied. The replay does not
    // reject such a log; this test records that it is accepted.
    let events = vec![start(), Event::Win, Event::Dora, Event::RoundEnd];
    let mut replay = Replay::new();
    assert_eq!(replay.run(events), Ok(()));
    assert_eq!(steps(&replay.applied), vec![(0, Step::RoundNew), (1, Step::Turn), (2, Step::RoundEnd)]);
    assert_eq!(replay.cursor, 3);
    assert!(!replay.applied.iter().any(|c| c.step == Step::TurnDora || c.step == Step::CallDora));
}

#[test]
fn deal_that_ends_round_goes_to_round_end() {
    let events = vec![start(), Event::DiscardTile, Event::Meld, Event::Draw, Event::RoundEnd];
    let (applied, r) = run(events);
    assert_eq!(r, Ok(()));
    assert_eq!(
        steps(&applied),
        vec![(0, Step::RoundNew), (1, Step::Turn), (2, Step::Call), (3, Step::Deal), (4, Step::RoundEnd)]
    );
}

#[test]
fn kan_dora_after_turn_and_after_call() {
    let events = vec![
        start(),
        Event::Meld,
        Event::Dora,
        Event::Meld,
        Event::Dora,
        Event::DealTile,
        Event::Win,
        Event::RoundEnd,
    ];
    let (applied, r) = run(events);
    assert_eq!(r, Ok(()));
    assert_eq!(
        steps(&applied),
        vec![
            (0, Step::RoundNew),
            (1, Step::Turn),
            (2, Step::TurnDora),
            (3, Step::Call),
            (4, Step::CallDora),
            (5, Step::Deal),
            (6, Step::Turn),
            (7, Step::RoundEnd),
        ]
    );
}

#[test]
fn dora_out_of_place_is_read_by_the_phase() {
    // A dora record right after a deal is not a kan dora: the turn reads it.
    let events = vec![
        start(),
        Event::DiscardTile,
        Event::DiscardTile,
        Event::DealTile,
        Event::Dora,
        Event::Draw,
        Event::RoundEnd,
    ];
    let (applied, r) = run(events);
    assert_eq!(r, Ok(()));
    assert_eq!(applied[4].step, Step::Turn);
    assert_eq!(applied[5].step, Step::Call);
    assert_eq!(applied[6].step, Step::RoundEnd);
}

#[test]
fn valid_round_visits_every_index_once_in_order() {
    let events = vec![
        start(),
        Event::DiscardTile,
        Event::Meld,
        Event::Dora,
        Event::DealTile,
        Event::DiscardTile,
        Event::Kita,
        Event::DealTile,
        Event::Draw,
        Event::RoundEnd,
    ];
    let n = events.len();
    let mut replay = Replay::new();
    assert_eq!(replay.run(events), Ok(()));
    assert!(replay.is_round_end);
    assert_eq!(replay.cursor, n);
    let applied = replay.applied.clone();
    assert_eq!(applied.len(), n);
    for (i, c) in applied.iter().enumerate() {
        assert_eq!(c.index, i);
    }
    assert_eq!(applied.iter().filter(|c| c.step == Step::RoundNew).count(), 1);
    assert_eq!(applied.iter().filter(|c| c.step == Step::RoundEnd).count(), 1);
}

#[test]
fn first_record_must_open_round() {
    let (applied, r) = run(vec![Event::DiscardTile, Event::RoundEnd]);
    assert_eq!(r, Err(ReplayError::NotRoundNew));
    assert!(applied.is_empty());
}

#[test]
fn empty_log_is_exhausted() {
    let (applied, r) = run(vec![]);
    assert_eq!(r, Err(ReplayError::Exhausted));
    assert!(applied.is_empty());
}

#[test]
fn log_cut_short_is_exhausted_after_what_was_read() {
    let (applied, r) = run(vec![start(), Event::DiscardTile, Event::Meld]);
    assert_eq!(r, Err(ReplayError::Exhausted));
    assert_eq!(steps(&applied), vec![(0, Step::RoundNew), (1, Step::Turn), (2, Step::Call)]);
}

#[test]
fn round_end_missing_after_win_is_exhausted() {
    let (applied, r) = run(vec![start(), Event::Win]);
    assert_eq!(r, Err(ReplayError::Exhausted));
    assert_eq!(applied.len(), 2);
}

#[test]
fn replay_state_resets_between_rounds() {
    let mut replay = Replay::new();
    assert_eq!(replay.run(vec![start(), Event::Win, Event::RoundEnd]), Ok(()));
    assert_eq!(replay.run(vec![start(), Event::DiscardTile, Event::Win, Event::RoundEnd]), Ok(()));
    assert_eq!(replay.cursor, 4);
    assert_eq!(replay.applied.len(), 4);
    assert_eq!(replay.applied[0].index, 0);
}

#[test]
fn handle_event_reports_round_end() {
    let mut replay = Replay::new();
    replay.events = vec![start(), Event::Draw, Event::RoundEnd];
    assert!(!replay.handle_event(Step::RoundNew));
    assert!(replay.handle_event(Step::Turn));
    assert!(replay.is_round_end);
    assert_eq!(replay.cursor, 2);
    assert!(replay.handle_event(Step::RoundEnd));
    assert!(replay.is_round_end);
    assert_eq!(replay.cursor, 3);
}

#[test]
fn closing_record_sets_round_end() {
    let mut replay = Replay::new();
    replay.events = vec![start(), Event::RoundEnd];
    assert!(!replay.handle_event(Step::RoundNew));
    assert!(replay.handle_event(Step::RoundEnd));
}

#[test]
fn failed_round_leaves_flag_clear() {
    let mut replay = Replay::new();
    assert_eq!(replay.run(vec![start(), Event::DiscardTile]), Err(ReplayError::Exhausted));
    assert!(!replay.is_round_end);
}

#[test]
fn event_queries() {
    assert!(Event::Win.ends_round());
    assert!(Event::Draw.ends_round());
    assert!(!Event::RoundEnd.ends_round());
    assert!(!Event::DiscardTile.ends_round());
    assert!(Event::Dora.is_dora());
    assert!(!Event::Meld.is_dora());
    assert_eq!(start().round_position(), Some(RoundPosition::new(0, 0, 0)));
    assert_eq!(Event::Dora.round_position(), None);
}
