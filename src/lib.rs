//! Replay of recorded mahjong rounds.
//!
//! A round's log is read in a fixed phase order (new round, then turn, call
//! and deal in a loop, with a kan dora check after the turn and after the
//! call, until a record closes the round). The replay machine hands each event
//! to the controller exactly once, in log order, and records under which step
//! it was read. Around it stand the reading of the run's options, the skip
//! position and the seats' agents, and the batch run over many logs.

pub mod batch;
pub mod event;
pub mod options;
pub mod position;
pub mod replay;
pub mod round_laws;
pub mod seats;
