//! The replay/record subsystem.
//!
//! Record mode persists each new snapshot unless it equals the last
//! persisted one. Replay mode maps wall-clock time deterministically onto
//! the recorded history, so every process instance converges on the same
//! snapshot at the same moment; when playback wraps to the start of the
//! history, the infringement store is emptied, because update times jump
//! backwards at that instant.

use vstd::prelude::*;

use crate::config::POLL_INTERVAL_SECS;
use crate::drones::{DronesDocument, SnapshotStore, snapshot_eq, spec_doc_like, spec_doc_matches};
use crate::errors::CoreError;
use crate::infringements::{Infringement, InfringementStore};

verus! {

/// Whether the process substitutes recorded data for live calls.
#[derive(Clone, Copy, Debug, PartialEq, Eq, Structural)]
pub enum ReplayStatus {
    Off,
    Recording,
    Replaying,
}

/// Decide the replay mode from the startup flags; requesting both modes
/// at once is a configuration error.
pub fn get_replay_status(replay: bool, record: bool) -> (r: Result<ReplayStatus, CoreError>)
    ensures
        replay && record ==> r == Err::<ReplayStatus, CoreError>(CoreError::Config),
        replay && !record ==> r == Ok::<ReplayStatus, CoreError>(ReplayStatus::Replaying),
        !replay && record ==> r == Ok::<ReplayStatus, CoreError>(ReplayStatus::Recording),
        !replay && !record ==> r == Ok::<ReplayStatus, CoreError>(ReplayStatus::Off),
{
    if replay && record {
        Err(CoreError::Config)
    } else if replay {
        Ok(ReplayStatus::Replaying)
    } else if record {
        Ok(ReplayStatus::Recording)
    } else {
        Ok(ReplayStatus::Off)
    }
}

/// Position in the recorded history that wall-clock time maps to: the
/// number of whole poll intervals since the epoch, wrapped around the
/// history's length.
pub open spec fn spec_replay_index(now_secs: u64, history_len: int) -> int
    recommends
        history_len >= 1,
{
    (now_secs as int / POLL_INTERVAL_SECS as int) % history_len
}

/// The history position for wall-clock time `now_secs`.
pub fn replay_index(now_secs: u64, history_len: usize) -> (r: usize)
    requires
        history_len >= 1,
    ensures
        r as int == spec_replay_index(now_secs, history_len as int),
        r < history_len,
{
    ((now_secs / POLL_INTERVAL_SECS) % (history_len as u64)) as usize
}

/// Playback is a pure function of wall-clock time and history length, and
/// advancing time by exactly one poll interval advances the history
/// position by exactly one, wrapping around the history's length.
pub proof fn lemma_replay_index_advances(now_secs: u64, history_len: int)
    requires
        history_len >= 1,
        now_secs + POLL_INTERVAL_SECS <= u64::MAX,
    ensures
        spec_replay_index((now_secs + POLL_INTERVAL_SECS) as u64, history_len) == (
        spec_replay_index(now_secs, history_len) + 1) % history_len,
{
    let t = now_secs as int;
    let iv = POLL_INTERVAL_SECS as int;
    let n = history_len;
    vstd::arithmetic::div_mod::lemma_div_plus_one(t, iv);
    assert((t + iv) / iv == t / iv + 1);
    let q = t / iv;
    vstd::arithmetic::div_mod::lemma_add_mod_noop(q, 1, n);
    if n >= 2 {
        vstd::arithmetic::div_mod::lemma_small_mod(1nat, n as nat);
    }
    if n == 1 {
        vstd::arithmetic::div_mod::lemma_mod_division_less_than_divisor(q + 1, n);
        vstd::arithmetic::div_mod::lemma_mod_division_less_than_divisor(q % n + 1, n);
        vstd::arithmetic::div_mod::lemma_mod_division_less_than_divisor(q, n);
    }
}

/// One replay tick: map the current time onto the history, empty the
/// infringement store on a wraparound to the start, and publish the
/// replayed snapshot. An empty history is a fetch failure.
pub fn replay_drones(
    history: &Vec<DronesDocument>,
    now_secs: u64,
    infringements: &mut InfringementStore,
    snapshots: &mut SnapshotStore,
) -> (r: Result<DronesDocument, CoreError>)
    requires
        old(infringements).wf(),
    ensures
        final(infringements).wf(),
        final(infringements).cap() == old(infringements).cap(),
        history@.len() == 0 ==> r == Err::<DronesDocument, CoreError>(CoreError::Fetch)
            && final(infringements)@ == old(infringements)@ && final(snapshots)@ == old(
            snapshots,
        )@,
        history@.len() > 0 ==> ({
            let idx = spec_replay_index(now_secs, history@.len() as int);
            &&& r is Ok
            &&& spec_doc_matches(r->Ok_0, history@[idx])
            &&& (idx == 0 ==> final(infringements)@ == Seq::<Infringement>::empty())
            &&& (idx != 0 ==> final(infringements)@ == old(infringements)@)
            &&& final(snapshots)@ is Some
            &&& spec_doc_matches(final(snapshots)@->Some_0, history@[idx])
        }),
{
    let n = history.len();
    if n == 0 {
        return Err(CoreError::Fetch);
    }
    let idx = replay_index(now_secs, n);
    if idx == 0 {
        infringements.invalidate_all();
    }
    let doc = history[idx].duplicate();
    snapshots.set(doc.duplicate());
    Ok(doc)
}

/// What the snapshot history persisted by record mode holds after one more
/// snapshot is offered: nothing new if it equals the last persisted one,
/// otherwise the snapshot is appended.
pub open spec fn spec_persist(h: Seq<DronesDocument>, d: DronesDocument) -> Seq<DronesDocument> {
    if h.len() > 0 && spec_doc_like(h.last(), d) {
        h
    } else {
        h.push(d)
    }
}

/// The chronological list of snapshots that record mode has persisted.
pub struct RecordedHistory {
    docs: Vec<DronesDocument>,
}

impl RecordedHistory {
    /// The persisted snapshots, oldest first.
    pub closed spec fn view(&self) -> Seq<DronesDocument> {
        self.docs@
    }

    /// An empty history: nothing persisted yet.
    pub fn new() -> (r: RecordedHistory)
        ensures
            r@ == Seq::<DronesDocument>::empty(),
    {
        let r = RecordedHistory { docs: Vec::new() };
        proof {
            assert(r@ =~= Seq::<DronesDocument>::empty());
        }
        r
    }

    /// The history already on disk, as loaded by the caller.
    pub fn from_docs(docs: Vec<DronesDocument>) -> (r: RecordedHistory)
        ensures
            r@ == docs@,
    {
        RecordedHistory { docs }
    }

    /// How many snapshots are persisted.
    pub fn count(&self) -> (r: usize)
        ensures
            r == self@.len(),
    {
        self.docs.len()
    }

    /// Persist one snapshot unless it equals the last persisted one;
    /// returns whether a new file is to be written.
    pub fn persist_snapshot(&mut self, doc: DronesDocument) -> (r: bool)
        ensures
            final(self)@ == spec_persist(old(self)@, doc),
            r == !(old(self)@.len() > 0 && spec_doc_like(old(self)@.last(), doc)),
    {
        let n = self.docs.len();
        if n > 0 {
            if snapshot_eq(&self.docs[n - 1], &doc) {
                return false;
            }
        }
        self.docs.push(doc);
        true
    }
}

/// Structural snapshot equality carries over chains.
proof fn lemma_doc_like_transitive(a: DronesDocument, b: DronesDocument, c: DronesDocument)
    requires
        spec_doc_like(a, b),
        spec_doc_like(b, c),
    ensures
        spec_doc_like(a, c),
{
    assert forall|i: int|
        0 <= i < a.capture.drone@.len() implies crate::drones::spec_drone_like(
        a.capture.drone@[i],
        c.capture.drone@[i],
    ) by {
        assert(crate::drones::spec_drone_like(a.capture.drone@[i], b.capture.drone@[i]));
        assert(crate::drones::spec_drone_like(b.capture.drone@[i], c.capture.drone@[i]));
    }
}

/// Persisting an unchanged snapshot twice produces exactly one new entry:
/// the second offer changes nothing.
pub proof fn lemma_persist_idempotent(
    h: Seq<DronesDocument>,
    d1: DronesDocument,
    d2: DronesDocument,
)
    requires
        spec_doc_like(d1, d2),
    ensures
        spec_persist(spec_persist(h, d1), d2) == spec_persist(h, d1),
{
    if h.len() > 0 && spec_doc_like(h.last(), d1) {
        lemma_doc_like_transitive(h.last(), d1, d2);
    } else {
        assert(spec_persist(h, d1).last() == d1);
    }
}

} // verus!
