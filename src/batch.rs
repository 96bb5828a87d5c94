use vstd::prelude::*;

use crate::event::Event;
use crate::position::{position_lt, RoundPosition};
use crate::replay::{replay_trace, Replay, ReplayError, Step};

verus! {

/// Whether a log opens before the skip position and is left out of the run.
pub open spec fn skipped(log: Seq<Event>, skip: RoundPosition) -> bool {
    log.len() > 0 && match log[0] {
        Event::RoundNew(p) => position_lt(p, skip),
        _ => false,
    }
}

/// Whether `log` is to be replayed when the run resumes from `skip`.
pub fn should_replay(log: &Vec<Event>, skip: &RoundPosition) -> (r: bool)
    ensures
        r == !skipped(log@, *skip),
{
    if log.len() == 0 {
        return true;
    }
    match log[0].round_position() {
        Some(p) => !p.is_before(skip),
        None => true,
    }
}

/// One event handed to the controller in a batch run: the log it comes from,
/// its index there, and how it was read.
#[derive(Clone, Copy, Debug, PartialEq, Eq, Structural)]
pub struct Notification {
    pub log: usize,
    pub index: usize,
    pub step: Step,
}

/// A log of the batch that could not be replayed, and why.
#[derive(Clone, Copy, Debug, PartialEq, Eq, Structural)]
pub struct BatchError {
    pub log: usize,
    pub error: ReplayError,
}

pub open spec fn notification_view(n: Notification) -> (int, int, Step) {
    (n.log as int, n.index as int, n.step)
}

/// The replay of log `j`, each event tagged with `j`.
pub open spec fn tagged(j: int, t: Seq<(int, Step)>) -> Seq<(int, int, Step)> {
    t.map_values(|x: (int, Step)| (j, x.0, x.1))
}

/// A batch run over `logs` in order, resuming from `skip`: the notifications,
/// in order, and the fault that stopped the run, if any. Logs before the skip
/// position are passed over; the first fault ends the run.
pub open spec fn batch_trace(logs: Seq<Seq<Event>>, skip: RoundPosition) -> (
    Seq<(int, int, Step)>,
    Option<BatchError>,
)
    decreases logs.len(),
{
    if logs.len() == 0 {
        (Seq::empty(), None)
    } else {
        let prev = batch_trace(logs.drop_last(), skip);
        let j = logs.len() - 1;
        if prev.1 is Some || skipped(logs.last(), skip) {
            prev
        } else {
            let t = replay_trace(logs.last());
            (
                prev.0 + tagged(j, t.0),
                match t.1 {
                    None => None,
                    Some(e) => Some(BatchError { log: j as usize, error: e }),
                },
            )
        }
    }
}

pub open spec fn logs_view(logs: Seq<Vec<Event>>) -> Seq<Seq<Event>> {
    logs.map_values(|v: Vec<Event>| v@)
}

proof fn lemma_fault_sticks(logs: Seq<Seq<Event>>, m: int, n: int, skip: RoundPosition)
    requires
        0 <= m <= n <= logs.len(),
        batch_trace(logs.take(m), skip).1 is Some,
    ensures
        batch_trace(logs.take(n), skip) == batch_trace(logs.take(m), skip),
    decreases n - m,
{
    if n > m {
        lemma_fault_sticks(logs, m, n - 1, skip);
        assert(logs.take(n).drop_last() =~= logs.take(n - 1));
    }
}

/// Replays every log of `logs` in order from `skip` on, through one replay
/// machine. Returns what was handed to the controller, in order, and the
/// fault that stopped the run, if any.
pub fn replay_batch(logs: &Vec<Vec<Event>>, skip: RoundPosition) -> (r: (
    Vec<Notification>,
    Result<(), BatchError>,
))
    ensures
        r.0@.map_values(|n: Notification| notification_view(n)) == batch_trace(
            logs_view(logs@),
            skip,
        ).0,
        r.1 == (match batch_trace(logs_view(logs@), skip).1 {
            None => Ok(()),
            Some(e) => Err(e),
        }),
{
    let mut out: Vec<Notification> = Vec::new();
    let mut replay = Replay::new();
    let mut j: usize = 0;
    while j < logs.len()
        invariant
            j <= logs@.len(),
            out@.map_values(|n: Notification| notification_view(n)) == batch_trace(
                logs_view(logs@).take(j as int),
                skip,
            ).0,
            batch_trace(logs_view(logs@).take(j as int), skip).1 is None,
        decreases logs@.len() - j,
    {
        let ghost lv = logs_view(logs@);
        assert(lv.take(j + 1).drop_last() =~= lv.take(j as int));
        assert(lv.take(j + 1).last() == logs@[j as int]@);
        if should_replay(&logs[j], &skip) {
            let log = logs[j].clone();
            assert(log@ =~= logs@[j as int]@);
            let res = replay.run(log);
            let ghost t = replay_trace(logs@[j as int]@);
            let ghost before = out@.map_values(|n: Notification| notification_view(n));
            let mut k: usize = 0;
            while k < replay.applied.len()
                invariant
                    k <= replay.applied@.len(),
                    replay.inv(),
                    replay.done() == t.0,
                    out@.map_values(|n: Notification| notification_view(n)) == before + tagged(
                        j as int,
                        t.0.take(k as int),
                    ),
                decreases replay.applied@.len() - k,
            {
                let c = replay.applied[k];
                let ghost prev = out@.map_values(|n: Notification| notification_view(n));
                out.push(Notification { log: j, index: c.index, step: c.step });
                assert(out@.map_values(|n: Notification| notification_view(n)) =~= prev.push(
                    (j as int, c.index as int, c.step),
                ));
                assert(t.0[k as int] == (c.index as int, c.step));
                assert(tagged(j as int, t.0.take(k + 1)) =~= tagged(j as int, t.0.take(k as int)).push(
                    (j as int, c.index as int, c.step),
                ));
                k = k + 1;
            }
            assert(t.0.take(k as int) =~= t.0);
            if let Err(e) = res {
                proof {
                    lemma_fault_sticks(lv, j + 1, lv.len() as int, skip);
                }
                assert(lv.take(lv.len() as int) =~= lv);
                return (out, Err(BatchError { log: j, error: e }));
            }
        }
        j = j + 1;
    }
    assert(logs_view(logs@).take(j as int) =~= logs_view(logs@));
    (out, Ok(()))
}

/// A log that opens before the skip position gives no notification at all;
/// in a run without fault, every other log is replayed to its closing record,
/// its notifications standing together in the run's output.
pub proof fn lemma_skip_filter(logs: Seq<Seq<Event>>, skip: RoundPosition)
    ensures
        ({
            let (ns, fault) = batch_trace(logs, skip);
            &&& forall|i: int| 0 <= i < ns.len() ==> 0 <= #[trigger] ns[i].0 < logs.len()
            &&& forall|j: int, i: int|
                #![trigger logs[j], ns[i]]
                0 <= j < logs.len() && skipped(logs[j], skip) && 0 <= i < ns.len() ==> ns[i].0 != j
            &&& forall|j: int|
                0 <= j < logs.len() && !skipped(#[trigger] logs[j], skip) && fault is None ==> {
                    let t = replay_trace(logs[j]);
                    &&& t.1 is None
                    &&& exists|s: int|
                        0 <= s && s + t.0.len() <= ns.len() && #[trigger] ns.subrange(s, s + t.0.len())
                            == tagged(j, t.0)
                }
        }),
    decreases logs.len(),
{
    if logs.len() == 0 {
        return;
    }
    let init = logs.drop_last();
    lemma_skip_filter(init, skip);
    let prev = batch_trace(init, skip);
    let last = logs.len() - 1;
    let (ns, fault) = batch_trace(logs, skip);
    assert forall|j: int| 0 <= j < last implies #[trigger] logs[j] == init[j] by {}
    if prev.1 is Some || skipped(logs.last(), skip) {
        assert(ns == prev.0);
        assert forall|j: int|
            0 <= j < logs.len() && !skipped(#[trigger] logs[j], skip) && fault is None implies {
                let t = replay_trace(logs[j]);
                &&& t.1 is None
                &&& exists|s: int|
                    0 <= s && s + t.0.len() <= ns.len() && #[trigger] ns.subrange(s, s + t.0.len())
                        == tagged(j, t.0)
            } by {
            assert(init[j] == logs[j]);
        }
    } else {
        let t = replay_trace(logs.last());
        let tg = tagged(last, t.0);
        assert(ns == prev.0 + tg);
        assert forall|i: int| 0 <= i < ns.len() implies 0 <= #[trigger] ns[i].0 < logs.len() by {
            if i >= prev.0.len() {
                assert(ns[i] == tg[i - prev.0.len()]);
            }
        }
        assert forall|j: int, i: int|
            #![trigger logs[j], ns[i]]
            0 <= j < logs.len() && skipped(logs[j], skip) && 0 <= i < ns.len() implies ns[i].0
                != j by {
            if i >= prev.0.len() {
                assert(ns[i] == tg[i - prev.0.len()]);
            } else {
                assert(ns[i] == prev.0[i]);
                assert(init[j] == logs[j]);
            }
        }
        assert forall|j: int|
            0 <= j < logs.len() && !skipped(#[trigger] logs[j], skip) && fault is None implies {
                let tj = replay_trace(logs[j]);
                &&& tj.1 is None
                &&& exists|s: int|
                    0 <= s && s + tj.0.len() <= ns.len() && #[trigger] ns.subrange(s, s + tj.0.len())
                        == tagged(j, tj.0)
            } by {
            if j == last {
                let s = prev.0.len() as int;
                assert(ns.subrange(s, s + t.0.len()) =~= tg);
            } else {
                assert(init[j] == logs[j]);
                let tj = replay_trace(logs[j]);
                let s = choose|s: int|
                    0 <= s && s + tj.0.len() <= prev.0.len() && #[trigger] prev.0.subrange(s, s + tj.0.len())
                        == tagged(j, tj.0);
                assert(ns.subrange(s, s + tj.0.len()) =~= prev.0.subrange(s, s + tj.0.len()));
            }
        }
    }
}

/// Replaying the same logs from the same position gives the same notifications
/// in the same order, and the same outcome.
pub proof fn lemma_deterministic(
    logs: Seq<Seq<Event>>,
    again: Seq<Seq<Event>>,
    skip: RoundPosition,
    skip_again: RoundPosition,
)
    requires
        logs == again,
        skip == skip_again,
    ensures
        batch_trace(logs, skip) == batch_trace(again, skip_again),
{
}

/// Whether a directory entry named `name` is an event log: its extension is
/// `json`, after a non-empty stem.
pub open spec fn is_log_name(name: Seq<char>) -> bool {
    name.len() > 5 && name.subrange(name.len() - 5, name.len() as int) == ".json"@
}

pub fn is_log_file(name: &str) -> (r: bool)
    ensures
        r == is_log_name(name@),
{
    let chars = crate::position::chars_of(name);
    let suffix = crate::position::chars_of(".json");
    proof {
        reveal_strlit(".json");
    }
    let n = chars.len();
    if n <= 5 {
        return false;
    }
    let mut i: usize = 0;
    while i < 5
        invariant
            i <= 5,
            n == chars@.len(),
            chars@ == name@,
            n > 5,
            suffix@ == ".json"@,
            suffix@.len() == 5,
            forall|k: int| 0 <= k < i ==> chars@[n - 5 + k] == #[trigger] suffix@[k],
        decreases 5 - i,
    {
        if chars[n - 5 + i] != suffix[i] {
            assert(chars@.subrange(n - 5, n as int)[i as int] != ".json"@[i as int]);
            assert(chars@.subrange(n - 5, n as int) != ".json"@);
            return false;
        }
        i = i + 1;
    }
    assert(chars@.subrange(n - 5, n as int) =~= ".json"@);
    true
}

proof fn lemma_batch_prefix(logs: Seq<Seq<Event>>, m: int, skip: RoundPosition)
    requires
        0 <= m <= logs.len(),
    ensures
        batch_trace(logs.take(m), skip).0.len() <= batch_trace(logs, skip).0.len(),
        batch_trace(logs.take(m), skip).0 == batch_trace(logs, skip).0.take(
            batch_trace(logs.take(m), skip).0.len() as int,
        ),
    decreases logs.len() - m,
{
    if m == logs.len() {
        assert(logs.take(m) =~= logs);
        assert(batch_trace(logs, skip).0.take(batch_trace(logs, skip).0.len() as int)
            =~= batch_trace(logs, skip).0);
    } else {
        lemma_batch_prefix(logs, m + 1, skip);
        let a = batch_trace(logs.take(m), skip).0;
        let b = batch_trace(logs.take(m + 1), skip).0;
        let c = batch_trace(logs, skip).0;
        assert(logs.take(m + 1).drop_last() =~= logs.take(m));
        assert(b.take(a.len() as int) =~= a);
        assert(c.take(a.len() as int) =~= b.take(a.len() as int));
    }
}

/// A log that the run reaches before any fault, and that does not open
/// before the skip position, is replayed to its closing record, its
/// notifications standing together in the run's output, whatever later logs
/// hold.
pub proof fn lemma_replayed_before_fault(logs: Seq<Seq<Event>>, skip: RoundPosition, j: int)
    requires
        0 <= j < logs.len(),
        !skipped(logs[j], skip),
        batch_trace(logs.take(j + 1), skip).1 is None,
    ensures
        ({
            let ns = batch_trace(logs, skip).0;
            let t = replay_trace(logs[j]);
            &&& t.1 is None
            &&& exists|s: int|
                0 <= s && s + t.0.len() <= ns.len() && #[trigger] ns.subrange(s, s + t.0.len())
                    == tagged(j, t.0)
        }),
{
    let pre = logs.take(j + 1);
    lemma_skip_filter(pre, skip);
    assert(pre[j] == logs[j]);
    lemma_batch_prefix(logs, j + 1, skip);
    let ns = batch_trace(logs, skip).0;
    let ps = batch_trace(pre, skip).0;
    let t = replay_trace(logs[j]);
    let s = choose|s: int|
        0 <= s && s + t.0.len() <= ps.len() && #[trigger] ps.subrange(s, s + t.0.len()) == tagged(
            j,
            t.0,
        );
    assert(ns.subrange(s, s + t.0.len()) =~= ps.subrange(s, s + t.0.len()));
}

} // verus!
