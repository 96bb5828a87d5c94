use vstd::prelude::*;

use crate::event::{ends_round, is_dora, Event};
use crate::replay::{replay_trace, run_from, transition, Phase, Step};

verus! {

/// The step under which the first event is read when the machine is in `phase`
/// and `e` is the event under the cursor.
pub open spec fn first_step(phase: Phase, e: Event) -> Step {
    match phase {
        Phase::Start => Step::RoundNew,
        Phase::Turn => Step::Turn,
        Phase::PostTurnDora => if is_dora(e) {
            Step::TurnDora
        } else {
            Step::Call
        },
        Phase::Call => Step::Call,
        Phase::PostCallDora => if is_dora(e) {
            Step::CallDora
        } else {
            Step::Deal
        },
        Phase::Deal => Step::Deal,
        _ => Step::RoundEnd,
    }
}

/// The round grammar: the step that follows `prev`, read from `prev_event`,
/// when `next_event` is the next record.
pub open spec fn next_step(prev: Step, prev_event: Event, next_event: Event) -> Step {
    match prev {
        Step::RoundNew => Step::Turn,
        Step::Turn => if ends_round(prev_event) {
            Step::RoundEnd
        } else if is_dora(next_event) {
            Step::TurnDora
        } else {
            Step::Call
        },
        Step::TurnDora => Step::Call,
        Step::Call => if ends_round(prev_event) {
            Step::RoundEnd
        } else if is_dora(next_event) {
            Step::CallDora
        } else {
            Step::Deal
        },
        Step::CallDora => Step::Deal,
        _ => if ends_round(prev_event) {
            Step::RoundEnd
        } else {
            Step::Turn
        },
    }
}

/// A round whose replay succeeds and whose closing record is the last one of
/// the log.
pub open spec fn is_valid_round(events: Seq<Event>) -> bool {
    let t = replay_trace(events);
    &&& t.1 is None
    &&& t.0.len() > 0
    &&& t.0.last().0 == events.len() - 1
}

proof fn lemma_first_step_follows(events: Seq<Event>, cursor: int, phase: Phase)
    requires
        0 <= cursor,
        cursor + 1 < events.len(),
        !(phase is End),
    ensures
        match transition(events, cursor, phase) {
            Ok((Some(step), next)) => first_step(next, events[cursor + 1]) == next_step(
                step,
                events[cursor],
                events[cursor + 1],
            ),
            _ => true,
        },
{
    match phase {
        Phase::Start => {},
        Phase::Turn => {},
        Phase::PostTurnDora => {},
        Phase::Call => {},
        Phase::PostCallDora => {},
        Phase::Deal => {},
        Phase::End => {},
        Phase::Finished => {},
    }
}

proof fn lemma_run_shape(events: Seq<Event>, cursor: int, phase: Phase)
    requires
        0 <= cursor <= events.len(),
    ensures
        ({
            let t = run_from(events, cursor, phase).0;
            let fault = run_from(events, cursor, phase).1;
            &&& t.len() <= events.len() - cursor
            &&& forall|i: int| 0 <= i < t.len() ==> #[trigger] t[i].0 == cursor + i
            &&& t.len() > 0 ==> t[0].1 == first_step(phase, events[cursor])
            &&& forall|i: int|
                0 <= i < t.len() && (i > 0 || !(phase is Start)) ==> #[trigger] t[i].1
                    != Step::RoundNew
            &&& forall|i: int| 0 <= i < t.len() - 1 ==> #[trigger] t[i].1 != Step::RoundEnd
            &&& forall|i: int|
                0 <= i < t.len() - 1 ==> #[trigger] t[i + 1].1 == next_step(
                    t[i].1,
                    events[cursor + i],
                    events[cursor + i + 1],
                )
            &&& fault is None && !(phase is Finished) ==> t.len() > 0 && t.last().1
                == Step::RoundEnd
        }),
    decreases crate::replay::measure(events, cursor, phase),
{
    if phase is Finished {
        return;
    }
    match transition(events, cursor, phase) {
        Err(_) => {},
        Ok((Some(step), next)) => {
            lemma_run_shape(events, cursor + 1, next);
            let rest = run_from(events, cursor + 1, next).0;
            let t = run_from(events, cursor, phase).0;
            assert(t == seq![(cursor, step)] + rest);
            if next is Finished {
                assert(rest.len() == 0);
            }
            assert forall|i: int| 0 <= i < t.len() - 1 implies #[trigger] t[i + 1].1 == next_step(
                t[i].1,
                events[cursor + i],
                events[cursor + i + 1],
            ) by {
                if i > 0 {
                    let j = i - 1;
                    assert(t[i] == rest[j]);
                    assert(t[i + 1] == rest[j + 1]);
                    assert(rest[j + 1].1 == next_step(
                        rest[j].1,
                        events[cursor + 1 + j],
                        events[cursor + 1 + j + 1],
                    ));
                    assert(cursor + 1 + j == cursor + i);
                } else {
                    assert(t[1] == rest[0]);
                    assert(t[0].1 == step);
                    assert(rest[0].1 == first_step(next, events[cursor + 1]));
                    lemma_first_step_follows(events, cursor, phase);
                }
            }
            assert forall|i: int| 0 <= i < t.len() implies #[trigger] t[i].0 == cursor + i by {
                if i > 0 {
                    assert(t[i] == rest[i - 1]);
                }
            }
            assert forall|i: int|
                0 <= i < t.len() && (i > 0 || !(phase is Start)) implies #[trigger] t[i].1
                != Step::RoundNew by {
                if i > 0 {
                    assert(t[i] == rest[i - 1]);
                }
            }
            assert forall|i: int| 0 <= i < t.len() - 1 implies #[trigger] t[i].1
                != Step::RoundEnd by {
                if i > 0 {
                    assert(t[i] == rest[i - 1]);
                }
            }
        },
        Ok((None, next)) => {
            lemma_run_shape(events, cursor, next);
        },
    }
}

/// Each event of a valid round is applied exactly once: the replay applies as
/// many events as the log holds, the i-th of them being the one at index i.
pub proof fn lemma_exactly_once(events: Seq<Event>)
    requires
        is_valid_round(events),
    ensures
        replay_trace(events).0.len() == events.len(),
        forall|i: int|
            0 <= i < events.len() ==> #[trigger] replay_trace(events).0[i].0 == i,
{
    lemma_run_shape(events, 0, Phase::Start);
}

/// Any replay, complete or cut short by a fault, applies events at ascending
/// indices from the first record on, one index after another; a complete one
/// reads one new-round record first, one closing record last, and neither in
/// between.
pub proof fn lemma_round_bounds(events: Seq<Event>)
    ensures
        ({
            let t = replay_trace(events).0;
            &&& t.len() <= events.len()
            &&& forall|i: int| 0 <= i < t.len() ==> #[trigger] t[i].0 == i
            &&& replay_trace(events).1 is None ==> {
                &&& t.len() >= 2
                &&& t[0].1 == Step::RoundNew
                &&& t.last().1 == Step::RoundEnd
                &&& forall|i: int|
                    0 < i < t.len() - 1 ==> #[trigger] t[i].1 != Step::RoundNew && t[i].1
                        != Step::RoundEnd
            }
        }),
{
    lemma_run_shape(events, 0, Phase::Start);
    let t = replay_trace(events).0;
    if replay_trace(events).1 is None {
        if t.len() == 1 {
            assert(t[0].1 == Step::RoundNew);
        }
    }
}

/// The replay follows the round grammar from one applied event to the next,
/// and a dora record is read as a kan dora exactly when it comes right after a
/// turn or call operation that did not close the round.
pub proof fn lemma_phase_order(events: Seq<Event>)
    ensures
        ({
            let t = replay_trace(events).0;
            &&& forall|i: int|
                0 <= i < t.len() - 1 ==> #[trigger] t[i + 1].1 == next_step(
                    t[i].1,
                    events[i],
                    events[i + 1],
                )
            &&& forall|i: int|
                0 <= i < t.len() ==> ((#[trigger] t[i].1 == Step::TurnDora || t[i].1
                    == Step::CallDora) <==> (i > 0 && is_dora(events[i]) && (t[i - 1].1
                    == Step::Turn || t[i - 1].1 == Step::Call) && !ends_round(events[i - 1])))
        }),
{
    lemma_run_shape(events, 0, Phase::Start);
    let t = replay_trace(events).0;
    assert forall|i: int| 0 <= i < t.len() implies ((#[trigger] t[i].1 == Step::TurnDora
        || t[i].1 == Step::CallDora) <==> (i > 0 && is_dora(events[i]) && (t[i - 1].1
        == Step::Turn || t[i - 1].1 == Step::Call) && !ends_round(events[i - 1]))) by {
        if i > 0 {
            assert(t[(i - 1) + 1].1 == next_step(t[i - 1].1, events[i - 1], events[i - 1 + 1]));
        }
    }
}

/// Once a turn, call or deal record closes the round, the next event applied
/// is the closing record and nothing follows it.
pub proof fn lemma_early_termination(events: Seq<Event>)
    ensures
        ({
            let t = replay_trace(events).0;
            forall|i: int|
                0 <= i < t.len() && (t[i].1 == Step::Turn || t[i].1 == Step::Call || t[i].1
                    == Step::Deal) && ends_round(#[trigger] events[i]) ==> (i + 1 < t.len()
                    ==> t[i + 1].1 == Step::RoundEnd && i + 2 == t.len())
        }),
{
    lemma_run_shape(events, 0, Phase::Start);
    let t = replay_trace(events).0;
    assert forall|i: int|
        0 <= i < t.len() && (t[i].1 == Step::Turn || t[i].1 == Step::Call || t[i].1
            == Step::Deal) && ends_round(#[trigger] events[i]) && i + 1 < t.len() implies t[i
        + 1].1 == Step::RoundEnd && i + 2 == t.len() by {
        assert(t[i + 1].1 == next_step(t[i].1, events[i], events[i + 1]));
        if i + 2 < t.len() {
            assert(t[(i + 1)].1 != Step::RoundEnd);
        }
    }
}

} // verus!
