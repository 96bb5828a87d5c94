use vstd::prelude::*;

use crate::position::RoundPosition;

verus! {

/// One recorded fact of a round. The replay core reads only whether an event
/// opens a round, reveals a dora indicator, or ends the round.
#[derive(Clone, Copy, Debug, PartialEq, Eq, Structural)]
pub enum Event {
    RoundNew(RoundPosition),
    DealTile,
    DiscardTile,
    Meld,
    Kita,
    Dora,
    Win,
    Draw,
    RoundEnd,
}

/// A win or a draw closes the round: only the round-end record is left to read.
pub open spec fn ends_round(e: Event) -> bool {
    e is Win || e is Draw
}

pub open spec fn is_dora(e: Event) -> bool {
    e is Dora
}

impl Event {
    pub fn ends_round(&self) -> (r: bool)
        ensures
            r == ends_round(*self),
    {
        match self {
            Event::Win => true,
            Event::Draw => true,
            _ => false,
        }
    }

    pub fn is_dora(&self) -> (r: bool)
        ensures
            r == is_dora(*self),
    {
        match self {
            Event::Dora => true,
            _ => false,
        }
    }

    /// The position carried by a new-round record.
    pub fn round_position(&self) -> (r: Option<RoundPosition>)
        ensures
            r == (match *self {
                Event::RoundNew(p) => Some(p),
                _ => None,
            }),
    {
        match self {
            Event::RoundNew(p) => Some(*p),
            _ => None,
        }
    }
}

} // verus!
