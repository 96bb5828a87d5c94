use vstd::prelude::*;

use crate::event::{ends_round, is_dora, Event};

verus! {

/// What an applied event was read as.
#[derive(Clone, Copy, Debug, PartialEq, Eq, Structural)]
pub enum Step {
    RoundNew,
    Turn,
    TurnDora,
    Call,
    CallDora,
    Deal,
    RoundEnd,
}

/// The states of the round replay machine.
#[derive(Clone, Copy, Debug, PartialEq, Eq, Structural)]
pub enum Phase {
    Start,
    Turn,
    PostTurnDora,
    Call,
    PostCallDora,
    Deal,
    End,
    Finished,
}

#[derive(Clone, Copy, Debug, PartialEq, Eq, Structural)]
pub enum ReplayError {
    /// The first record of a round is not a new-round record.
    NotRoundNew,
    /// A phase needed a record past the end of the log.
    Exhausted,
}

/// One event handed to the controller: its place in the log and how it was read.
#[derive(Clone, Copy, Debug, PartialEq, Eq, Structural)]
pub struct Consumed {
    pub index: usize,
    pub step: Step,
}

pub open spec fn consumed_view(c: Consumed) -> (int, Step) {
    (c.index as int, c.step)
}

pub open spec fn consumed_seq_view(s: Seq<Consumed>) -> Seq<(int, Step)> {
    s.map_values(|c: Consumed| consumed_view(c))
}

/// One move of the machine from `phase` with the cursor at `cursor`: the step
/// under which the event at the cursor is consumed (if one is), and the next phase.
pub open spec fn transition(events: Seq<Event>, cursor: int, phase: Phase) -> Result<
    (Option<Step>, Phase),
    ReplayError,
> {
    let present = 0 <= cursor < events.len();
    match phase {
        Phase::Start => if !present {
            Err(ReplayError::Exhausted)
        } else if events[cursor] is RoundNew {
            Ok((Some(Step::RoundNew), Phase::Turn))
        } else {
            Err(ReplayError::NotRoundNew)
        },
        Phase::Turn => if !present {
            Err(ReplayError::Exhausted)
        } else if ends_round(events[cursor]) {
            Ok((Some(Step::Turn), Phase::End))
        } else {
            Ok((Some(Step::Turn), Phase::PostTurnDora))
        },
        Phase::PostTurnDora => if present && is_dora(events[cursor]) {
            Ok((Some(Step::TurnDora), Phase::Call))
        } else {
            Ok((None, Phase::Call))
        },
        Phase::Call => if !present {
            Err(ReplayError::Exhausted)
        } else if ends_round(events[cursor]) {
            Ok((Some(Step::Call), Phase::End))
        } else {
            Ok((Some(Step::Call), Phase::PostCallDora))
        },
        Phase::PostCallDora => if present && is_dora(events[cursor]) {
            Ok((Some(Step::CallDora), Phase::Deal))
        } else {
            Ok((None, Phase::Deal))
        },
        Phase::Deal => if !present {
            Err(ReplayError::Exhausted)
        } else if ends_round(events[cursor]) {
            Ok((Some(Step::Deal), Phase::End))
        } else {
            Ok((Some(Step::Deal), Phase::Turn))
        },
        Phase::End => if !present {
            Err(ReplayError::Exhausted)
        } else {
            Ok((Some(Step::RoundEnd), Phase::Finished))
        },
        Phase::Finished => Ok((None, Phase::Finished)),
    }
}

pub open spec fn is_dora_check(phase: Phase) -> bool {
    phase is PostTurnDora || phase is PostCallDora
}

pub open spec fn measure(events: Seq<Event>, cursor: int, phase: Phase) -> int {
    (events.len() - cursor) * 2 + if is_dora_check(phase) {
        1int
    } else {
        0int
    }
}

/// Everything consumed from `cursor` in `phase` on: each event with its index and
/// step, in order, and the error that stopped the round early, if any.
pub open spec fn run_from(events: Seq<Event>, cursor: int, phase: Phase) -> (
    Seq<(int, Step)>,
    Option<ReplayError>,
)
    decreases measure(events, cursor, phase),
{
    if cursor < 0 || cursor > events.len() || phase is Finished {
        (Seq::empty(), None)
    } else {
        match transition(events, cursor, phase) {
            Err(e) => (Seq::empty(), Some(e)),
            Ok((Some(step), next)) => {
                let rest = run_from(events, cursor + 1, next);
                (seq![(cursor, step)] + rest.0, rest.1)
            },
            Ok((None, next)) => run_from(events, cursor, next),
        }
    }
}

/// The replay of a whole round from its first record.
pub open spec fn replay_trace(events: Seq<Event>) -> (Seq<(int, Step)>, Option<ReplayError>) {
    run_from(events, 0, Phase::Start)
}

/// The round replay machine: reads one round's log in the mandated phase order
/// and records every event it hands to the controller, in order.
pub struct Replay {
    pub events: Vec<Event>,
    pub cursor: usize,
    pub is_round_end: bool,
    pub applied: Vec<Consumed>,
}

impl Replay {
    /// `applied` holds exactly the events before the cursor, in order.
    pub open spec fn inv(&self) -> bool {
        &&& self.cursor <= self.events@.len()
        &&& self.applied@.len() == self.cursor
        &&& forall|i: int| 0 <= i < self.applied@.len() ==> #[trigger] self.applied@[i].index == i
    }

    /// The part of the round's replay that is already done.
    pub open spec fn done(&self) -> Seq<(int, Step)> {
        consumed_seq_view(self.applied@)
    }

    pub fn new() -> (r: Replay)
        ensures
            r.inv(),
            r.events@.len() == 0,
            r.applied@.len() == 0,
            !r.is_round_end,
    {
        Replay { events: Vec::new(), cursor: 0, is_round_end: false, applied: Vec::new() }
    }

    /// The event under the cursor.
    pub fn get_event(&self) -> (r: &Event)
        requires
            self.cursor < self.events@.len(),
        ensures
            *r == self.events@[self.cursor as int],
    {
        &self.events[self.cursor]
    }

    /// Applies the event under the cursor as `step`, moves the cursor on by one,
    /// and reports whether the round has ended: once a win, a draw or the
    /// closing record has been applied, the flag stays set for the round.
    pub fn handle_event(&mut self, step: Step) -> (r: bool)
        requires
            old(self).inv(),
            old(self).cursor < old(self).events@.len(),
        ensures
            final(self).inv(),
            final(self).events == old(self).events,
            final(self).cursor == old(self).cursor + 1,
            final(self).done() == old(self).done().push((old(self).cursor as int, step)),
            final(self).is_round_end == (old(self).is_round_end || closes_round(
                step,
                old(self).events@[old(self).cursor as int],
            )),
            r == final(self).is_round_end,
    {
        let ended = self.is_round_end || self.events[self.cursor].ends_round() || match step {
            Step::RoundEnd => true,
            _ => false,
        };
        let n = self.events.len();
        self.applied.push(Consumed { index: self.cursor, step });
        self.cursor = self.cursor + 1;
        self.is_round_end = ended;
        proof {
            assert(self.done() =~= old(self).done().push((old(self).cursor as int, step)));
        }
        ended
    }

    /// Reads the new-round record that opens every round.
    pub fn do_round_new(&mut self) -> (r: Result<(), ReplayError>)
        requires
            old(self).inv(),
        ensures
            takes_transition(*old(self), *final(self), Phase::Start),
            r == transition_result(transition(old(self).events@, old(self).cursor as int, Phase::Start)),
    {
        if self.cursor >= self.events.len() {
            return Err(ReplayError::Exhausted);
        }
        match self.get_event() {
            Event::RoundNew(_) => {
                self.handle_event(Step::RoundNew);
                Ok(())
            },
            _ => Err(ReplayError::NotRoundNew),
        }
    }

    /// Reads the acting seat's discard, self-draw win or concealed meld.
    pub fn do_turn_operation(&mut self) -> (r: Result<(), ReplayError>)
        requires
            old(self).inv(),
        ensures
            takes_transition(*old(self), *final(self), Phase::Turn),
            r == transition_result(transition(old(self).events@, old(self).cursor as int, Phase::Turn)),
    {
        if self.cursor >= self.events.len() {
            return Err(ReplayError::Exhausted);
        }
        self.handle_event(Step::Turn);
        Ok(())
    }

    /// Reads the other seats' answer to the turn: a call, a ron, or a pass.
    pub fn do_call_operation(&mut self) -> (r: Result<(), ReplayError>)
        requires
            old(self).inv(),
        ensures
            takes_transition(*old(self), *final(self), Phase::Call),
            r == transition_result(transition(old(self).events@, old(self).cursor as int, Phase::Call)),
    {
        if self.cursor >= self.events.len() {
            return Err(ReplayError::Exhausted);
        }
        self.handle_event(Step::Call);
        Ok(())
    }

    /// Reads the draw of the next seat to act.
    pub fn do_deal_tile(&mut self) -> (r: Result<(), ReplayError>)
        requires
            old(self).inv(),
        ensures
            takes_transition(*old(self), *final(self), Phase::Deal),
            r == transition_result(transition(old(self).events@, old(self).cursor as int, Phase::Deal)),
    {
        if self.cursor >= self.events.len() {
            return Err(ReplayError::Exhausted);
        }
        self.handle_event(Step::Deal);
        Ok(())
    }

    /// Reads the record that closes the round.
    pub fn do_round_end(&mut self) -> (r: Result<(), ReplayError>)
        requires
            old(self).inv(),
        ensures
            takes_transition(*old(self), *final(self), Phase::End),
            r == transition_result(transition(old(self).events@, old(self).cursor as int, Phase::End)),
            r is Ok ==> final(self).is_round_end && final(self).cursor == old(self).cursor + 1,
    {
        if self.cursor >= self.events.len() {
            return Err(ReplayError::Exhausted);
        }
        self.handle_event(Step::RoundEnd);
        Ok(())
    }

    /// Consumes the event under the cursor if it reveals a kan dora; leaves it
    /// in place otherwise.
    pub fn check_kan_dora(&mut self, phase: Phase)
        requires
            old(self).inv(),
            is_dora_check(phase),
        ensures
            takes_transition(*old(self), *final(self), phase),
    {
        if self.cursor < self.events.len() && self.get_event().is_dora() {
            let step = match phase {
                Phase::PostTurnDora => Step::TurnDora,
                _ => Step::CallDora,
            };
            self.handle_event(step);
        }
    }

    /// Replays one round from its first record. On success the whole round,
    /// up to its closing record, has been applied; on failure, what came before
    /// the fault has been.
    pub fn run(&mut self, events: Vec<Event>) -> (r: Result<(), ReplayError>)
        ensures
            final(self).inv(),
            final(self).events@ == events@,
            final(self).done() == replay_trace(events@).0,
            final(self).cursor == replay_trace(events@).0.len(),
            r == replay_result(replay_trace(events@).1),
            r is Ok ==> final(self).is_round_end,
    {
        self.events = events;
        self.cursor = 0;
        self.is_round_end = false;
        self.applied = Vec::new();
        let ghost whole = replay_trace(self.events@);
        proof {
            assert(self.done() =~= Seq::empty());
            assert(whole.0 =~= self.done() + whole.0);
        }
        let ghost before = *self;
        let res = self.do_round_new();
        proof { lemma_advance(before, *self, Phase::Start, whole) }
        if let Err(e) = res {
            return Err(e);
        }
        loop
            invariant_except_break
                self.on_track(Phase::Turn, whole),
                !self.is_round_end,
            invariant
                self.events@ == events@,
                whole == replay_trace(events@),
            ensures
                self.on_track(Phase::End, whole),
                self.events@ == events@,
            decreases self.events@.len() - self.cursor,
        {
            let ghost before = *self;
            let res = self.do_turn_operation();
            proof { lemma_advance(before, *self, Phase::Turn, whole) }
            if let Err(e) = res {
                return Err(e);
            }
            if self.is_round_end {
                break;
            }
            let ghost before = *self;
            self.check_kan_dora(Phase::PostTurnDora);
            proof { lemma_advance(before, *self, Phase::PostTurnDora, whole) }
            let ghost before = *self;
            let res = self.do_call_operation();
            proof { lemma_advance(before, *self, Phase::Call, whole) }
            if let Err(e) = res {
                return Err(e);
            }
            if self.is_round_end {
                break;
            }
            let ghost before = *self;
            self.check_kan_dora(Phase::PostCallDora);
            proof { lemma_advance(before, *self, Phase::PostCallDora, whole) }
            let ghost before = *self;
            let res = self.do_deal_tile();
            proof { lemma_advance(before, *self, Phase::Deal, whole) }
            if let Err(e) = res {
                return Err(e);
            }
            if self.is_round_end {
                break;
            }
        }
        let ghost before = *self;
        let res = self.do_round_end();
        proof { lemma_advance(before, *self, Phase::End, whole) }
        res
    }

    /// Whether the rest of the round's replay from `phase`, appended to what is
    /// done, gives `whole`.
    pub open spec fn on_track(
        &self,
        phase: Phase,
        whole: (Seq<(int, Step)>, Option<ReplayError>),
    ) -> bool {
        let rest = run_from(self.events@, self.cursor as int, phase);
        &&& self.inv()
        &&& whole.0 == self.done() + rest.0
        &&& whole.1 == rest.1
    }
}

/// The result of a phase method that took transition `t`.
pub open spec fn transition_result(t: Result<(Option<Step>, Phase), ReplayError>) -> Result<
    (),
    ReplayError,
> {
    match t {
        Ok(_) => Ok(()),
        Err(e) => Err(e),
    }
}

/// The result of a round's replay that stopped with `fault`.
pub open spec fn replay_result(fault: Option<ReplayError>) -> Result<(), ReplayError> {
    match fault {
        None => Ok(()),
        Some(e) => Err(e),
    }
}

/// Whether applying `e` as `step` ends the round: a win or a draw does, and
/// so does the closing record.
pub open spec fn closes_round(step: Step, e: Event) -> bool {
    ends_round(e) || step == Step::RoundEnd
}

/// `after` is `before` moved by one transition from `phase`.
pub open spec fn takes_transition(before: Replay, after: Replay, phase: Phase) -> bool {
    &&& after.inv()
    &&& after.events == before.events
    &&& match transition(before.events@, before.cursor as int, phase) {
        Ok((Some(step), next)) => {
            &&& after.cursor == before.cursor + 1
            &&& after.done() == before.done().push((before.cursor as int, step))
            &&& after.is_round_end == (before.is_round_end || closes_round(
                step,
                before.events@[before.cursor as int],
            ))
        },
        _ => {
            &&& after.cursor == before.cursor
            &&& after.done() == before.done()
            &&& after.is_round_end == before.is_round_end
        },
    }
}

proof fn lemma_advance(
    before: Replay,
    after: Replay,
    phase: Phase,
    whole: (Seq<(int, Step)>, Option<ReplayError>),
)
    requires
        before.on_track(phase, whole),
        takes_transition(before, after, phase),
        !(phase is Finished),
    ensures
        match transition(before.events@, before.cursor as int, phase) {
            Ok((_, next)) => after.on_track(next, whole),
            Err(e) => whole.0 == after.done() && whole.1 == Some(e),
        },
{
    let ev = before.events@;
    let c = before.cursor as int;
    match transition(ev, c, phase) {
        Ok((Some(step), next)) => {
            let rest = run_from(ev, c + 1, next);
            assert(run_from(ev, c, phase).0 == seq![(c, step)] + rest.0);
            assert(before.done() + (seq![(c, step)] + rest.0) =~= before.done().push((c, step))
                + rest.0);
        },
        Ok((None, next)) => {},
        Err(e) => {
            assert(whole.0 =~= before.done());
        },
    }
}

} // verus!
