//! The infringement store: a capacity- and time-bounded table keyed by
//! drone serial, with merge-on-write semantics.
//!
//! A merge keeps the closest observed distance together with the position
//! it was observed at (ties prefer the newer observation), while the pilot
//! and the update time always come from the newest observation. Entries
//! vanish lazily once their latest update lies further in the past than
//! [`INFRINGEMENT_DURATION_MILLIS`]; a merge resets that clock.

use vstd::prelude::*;

use crate::config::INFRINGEMENT_DURATION_MILLIS;
use crate::drones::{Drone, DronesDocument};
use crate::ndz::{spec_drone_dist_sq, spec_violates, drone_dist_sq, isqrt_u128};
use crate::pilots::Pilot;

verus! {

/// The aggregated record of one drone's no-fly-zone violations.
pub struct Infringement {
    pub drone_serial_number: String,
    /// The newest observation's pilot resolution; absent if that lookup failed.
    pub pilot: Option<Pilot>,
    /// Squared millimeter distance of the closest observation.
    pub distance_sq: u128,
    /// Position of the closest observation, in millimeters.
    pub x: i32,
    /// Position of the closest observation, in millimeters.
    pub y: i32,
    /// Unix milliseconds of the most recent observation.
    pub updated_at: i64,
}

/// A drone paired with its squared millimeter distance to the no-fly-zone
/// center.
pub struct DroneWithDistance {
    pub drone: Drone,
    pub distance_sq: u128,
}

impl Infringement {
    /// An exact copy of this record.
    pub fn duplicate(&self) -> (r: Infringement)
        ensures
            r == *self,
    {
        Infringement {
            drone_serial_number: self.drone_serial_number.clone(),
            pilot: match &self.pilot {
                Some(p) => Some(p.duplicate()),
                None => None,
            },
            distance_sq: self.distance_sq,
            x: self.x,
            y: self.y,
            updated_at: self.updated_at,
        }
    }

    /// Distance of the closest observation in whole millimeters, rounded down.
    pub fn distance_mm(&self) -> (r: u64)
        ensures
            (r as int) * (r as int) <= self.distance_sq < (r as int + 1) * (r as int + 1),
    {
        isqrt_u128(self.distance_sq)
    }
}

/// Whether an entry is still visible at time `now`: its latest update is
/// no further in the past than the infringement duration.
pub open spec fn spec_live(e: Infringement, now: i64) -> bool {
    now - e.updated_at <= INFRINGEMENT_DURATION_MILLIS
}

/// How an existing entry and a new observation for the same serial combine:
/// the smaller distance wins and brings its position along (ties prefer the
/// new observation), while pilot and update time always follow the new one.
pub open spec fn spec_merge_inf(e: Infringement, n: Infringement) -> Infringement {
    Infringement {
        drone_serial_number: e.drone_serial_number,
        pilot: n.pilot,
        updated_at: n.updated_at,
        distance_sq: if n.distance_sq > e.distance_sq {
            e.distance_sq
        } else {
            n.distance_sq
        },
        x: if n.distance_sq > e.distance_sq {
            e.x
        } else {
            n.x
        },
        y: if n.distance_sq > e.distance_sq {
            e.y
        } else {
            n.y
        },
    }
}

/// No two entries share a serial.
pub open spec fn spec_entries_wf(s: Seq<Infringement>) -> bool {
    forall|i: int, j: int|
        0 <= i < j < s.len() ==> s[i].drone_serial_number@ != s[j].drone_serial_number@
}

/// The entries still visible at time `now`, in their stored order.
pub open spec fn spec_purge(s: Seq<Infringement>, now: i64) -> Seq<Infringement>
    decreases s.len(),
{
    if s.len() == 0 {
        Seq::empty()
    } else {
        let rest = spec_purge(s.drop_last(), now);
        if spec_live(s.last(), now) {
            rest.push(s.last())
        } else {
            rest
        }
    }
}

/// Index of the first entry with the given serial, if any.
pub open spec fn spec_find_serial(s: Seq<Infringement>, k: Seq<char>) -> Option<int>
    decreases s.len(),
{
    if s.len() == 0 {
        None
    } else if s[0].drone_serial_number@ == k {
        Some(0int)
    } else {
        match spec_find_serial(s.drop_first(), k) {
            Some(i) => Some(i + 1),
            None => None,
        }
    }
}

/// What one merge does to the whole table: expired entries vanish, then the
/// candidate either combines with its serial's entry or is appended; when
/// the table is full, the oldest-stored entry makes room.
pub open spec fn spec_merged(s: Seq<Infringement>, c: Infringement, cap: int) -> Seq<Infringement> {
    let p = spec_purge(s, c.updated_at);
    match spec_find_serial(p, c.drone_serial_number@) {
        Some(i) => p.update(i, spec_merge_inf(p[i], c)),
        None => if p.len() < cap {
            p.push(c)
        } else {
            p.drop_first().push(c)
        },
    }
}

/// `spec_find_serial` finds exactly the first match.
pub proof fn lemma_find_serial(s: Seq<Infringement>, k: Seq<char>)
    ensures
        match spec_find_serial(s, k) {
            Some(i) => 0 <= i < s.len() && s[i].drone_serial_number@ == k && (forall|j: int|
                0 <= j < i ==> s[j].drone_serial_number@ != k),
            None => forall|j: int| 0 <= j < s.len() ==> s[j].drone_serial_number@ != k,
        },
    decreases s.len(),
{
    if s.len() > 0 && s[0].drone_serial_number@ != k {
        let rest = s.drop_first();
        lemma_find_serial(rest, k);
        assert(forall|j: int| 0 <= j < rest.len() ==> #[trigger] rest[j] == s[j + 1]);
        match spec_find_serial(rest, k) {
            Some(i) => {
                assert(rest[i] == s[i + 1]);
                assert forall|j: int| 0 <= j < i + 1 implies s[j].drone_serial_number@ != k by {
                    if j > 0 {
                        assert(rest[j - 1] == s[j]);
                    }
                }
            }
            None => {
                assert forall|j: int| 0 <= j < s.len() implies s[j].drone_serial_number@ != k by {
                    if j > 0 {
                        assert(rest[j - 1] == s[j]);
                    }
                }
            }
        }
    }
}

/// A first match characterizes the result of `spec_find_serial`.
pub proof fn lemma_find_serial_at(s: Seq<Infringement>, k: Seq<char>, i: int)
    requires
        0 <= i < s.len(),
        s[i].drone_serial_number@ == k,
        forall|j: int| 0 <= j < i ==> s[j].drone_serial_number@ != k,
    ensures
        spec_find_serial(s, k) == Some(i),
{
    lemma_find_serial(s, k);
    match spec_find_serial(s, k) {
        Some(f) => {
            if f < i {
                assert(s[f].drone_serial_number@ != k);
            } else if f > i {
                assert(s[i].drone_serial_number@ != k);
            }
        }
        None => {
            assert(s[i].drone_serial_number@ != k);
        }
    }
}

/// Purging keeps entries of the original table, in no greater number, all
/// of them live; distinct serials stay distinct.
pub proof fn lemma_purge_properties(s: Seq<Infringement>, now: i64)
    ensures
        spec_purge(s, now).len() <= s.len(),
        forall|i: int|
            0 <= i < spec_purge(s, now).len() ==> exists|j: int|
                0 <= j < s.len() && #[trigger] spec_purge(s, now)[i] == #[trigger] s[j],
        forall|i: int|
            0 <= i < spec_purge(s, now).len() ==> spec_live(#[trigger] spec_purge(s, now)[i], now),
        spec_entries_wf(s) ==> spec_entries_wf(spec_purge(s, now)),
    decreases s.len(),
{
    if s.len() > 0 {
        lemma_purge_properties(s.drop_last(), now);
        let rest = spec_purge(s.drop_last(), now);
        assert(forall|j: int| 0 <= j < s.drop_last().len() ==> s.drop_last()[j] == s[j]);
        if spec_live(s.last(), now) {
            assert(forall|i: int|
                0 <= i < rest.len() ==> exists|j: int|
                    0 <= j < s.len() && #[trigger] rest[i] == #[trigger] s[j]);
            assert(spec_purge(s, now).last() == s[s.len() - 1]);
        }
        if spec_entries_wf(s) {
            assert(spec_entries_wf(s.drop_last()));
            if spec_live(s.last(), now) {
                let p = spec_purge(s, now);
                assert forall|i: int, j: int|
                    0 <= i < j < p.len() implies p[i].drone_serial_number@
                    != p[j].drone_serial_number@ by {
                    if j == p.len() - 1 {
                        let jj = choose|jj: int|
                            0 <= jj < s.drop_last().len() && rest[i] == s.drop_last()[jj];
                        assert(s[jj].drone_serial_number@ != s[s.len()
                            - 1].drone_serial_number@);
                    }
                }
            }
        }
    }
}

/// Whether an entry is still visible at time `now`.
fn live_at(e: &Infringement, now: i64) -> (r: bool)
    ensures
        r == spec_live(*e, now),
{
    (now as i128) - (e.updated_at as i128) <= INFRINGEMENT_DURATION_MILLIS as i128
}

/// Index of the first entry with the given serial, if any.
fn find_serial_index(entries: &Vec<Infringement>, serial: &String) -> (r: Option<usize>)
    ensures
        match r {
            Some(i) => spec_find_serial(entries@, serial@) == Some(i as int),
            None => spec_find_serial(entries@, serial@) is None,
        },
{
    let n = entries.len();
    let mut i: usize = 0;
    while i < n
        invariant
            i <= n,
            n == entries@.len(),
            forall|j: int| 0 <= j < i ==> entries@[j].drone_serial_number@ != serial@,
        decreases n - i,
    {
        if entries[i].drone_serial_number == *serial {
            proof {
                lemma_find_serial_at(entries@, serial@, i as int);
            }
            return Some(i);
        }
        i += 1;
    }
    proof {
        lemma_find_serial(entries@, serial@);
        if spec_find_serial(entries@, serial@) is Some {
            let f = spec_find_serial(entries@, serial@)->Some_0;
            assert(entries@[f].drone_serial_number@ != serial@);
        }
    }
    None
}

/// Combine an existing entry with a new observation for the same serial.
fn merge_entries(existing: &Infringement, candidate: Infringement) -> (r: Infringement)
    ensures
        r == spec_merge_inf(*existing, candidate),
{
    if candidate.distance_sq > existing.distance_sq {
        Infringement {
            drone_serial_number: existing.drone_serial_number.clone(),
            pilot: candidate.pilot,
            updated_at: candidate.updated_at,
            distance_sq: existing.distance_sq,
            x: existing.x,
            y: existing.y,
        }
    } else {
        Infringement {
            drone_serial_number: existing.drone_serial_number.clone(),
            pilot: candidate.pilot,
            updated_at: candidate.updated_at,
            distance_sq: candidate.distance_sq,
            x: candidate.x,
            y: candidate.y,
        }
    }
}

/// The capacity- and time-bounded table of current infringements.
pub struct InfringementStore {
    entries: Vec<Infringement>,
    capacity: usize,
}

impl InfringementStore {
    /// The stored entries, in storage order.
    pub closed spec fn view(&self) -> Seq<Infringement> {
        self.entries@
    }

    /// The fixed entry bound given at construction.
    pub closed spec fn cap(&self) -> int {
        self.capacity as int
    }

    /// Serials are unique and the entry bound holds.
    pub open spec fn wf(&self) -> bool {
        &&& spec_entries_wf(self@)
        &&& self@.len() <= self.cap()
        &&& self.cap() >= 1
    }

    /// An empty store with the given entry bound.
    pub fn new(capacity: usize) -> (r: InfringementStore)
        requires
            capacity >= 1,
        ensures
            r.wf(),
            r@ == Seq::<Infringement>::empty(),
            r.cap() == capacity,
    {
        let r = InfringementStore { entries: Vec::new(), capacity };
        proof {
            assert(r@ =~= Seq::<Infringement>::empty());
        }
        r
    }

    /// Merge one observation into the table; `candidate.updated_at` is the
    /// current time, so entries whose duration has passed vanish first.
    pub fn merge(&mut self, candidate: Infringement)
        requires
            old(self).wf(),
        ensures
            final(self).wf(),
            final(self)@ == spec_merged(old(self)@, candidate, old(self).cap()),
            final(self).cap() == old(self).cap(),
    {
        let now = candidate.updated_at;
        let ghost orig = self.entries@;
        // Drop entries whose duration has passed.
        let mut kept: Vec<Infringement> = Vec::new();
        let n = self.entries.len();
        let mut i: usize = 0;
        proof {
            assert(kept@ =~= spec_purge(orig.take(0), now));
        }
        while i < n
            invariant
                i <= n,
                n == self.entries@.len(),
                self.entries@ == orig,
                kept@ == spec_purge(orig.take(i as int), now),
            decreases n - i,
        {
            proof {
                assert(orig.take(i as int + 1).drop_last() =~= orig.take(i as int));
                assert(orig.take(i as int + 1).last() == orig[i as int]);
            }
            if live_at(&self.entries[i], now) {
                kept.push(self.entries[i].duplicate());
            }
            i += 1;
        }
        proof {
            assert(orig.take(n as int) =~= orig);
            lemma_purge_properties(orig, now);
        }
        let ghost p = spec_purge(orig, now);
        match find_serial_index(&kept, &candidate.drone_serial_number) {
            Some(idx) => {
                proof {
                    lemma_find_serial(p, candidate.drone_serial_number@);
                }
                let merged = merge_entries(&kept[idx], candidate);
                kept.set(idx, merged);
                proof {
                    let q = p.update(idx as int, spec_merge_inf(p[idx as int], candidate));
                    assert(kept@ == q);
                    assert forall|a: int, b: int| 0 <= a < b < q.len() implies q[
                        a
                    ].drone_serial_number@ != q[b].drone_serial_number@ by {
                        assert(p[a].drone_serial_number@ != p[b].drone_serial_number@);
                    }
                }
            }
            None => {
                proof {
                    lemma_find_serial(p, candidate.drone_serial_number@);
                }
                if kept.len() < self.capacity {
                    kept.push(candidate);
                    proof {
                        let q = p.push(candidate);
                        assert forall|a: int, b: int| 0 <= a < b < q.len() implies q[
                            a
                        ].drone_serial_number@ != q[b].drone_serial_number@ by {
                            if b < q.len() - 1 {
                                assert(p[a].drone_serial_number@ != p[b].drone_serial_number@);
                            }
                        }
                    }
                } else {
                    kept.remove(0);
                    proof {
                        assert(kept@ =~= p.drop_first());
                        assert(forall|j: int|
                            0 <= j < p.drop_first().len() ==> #[trigger] p.drop_first()[j] == p[j
                                + 1]);
                    }
                    kept.push(candidate);
                    proof {
                        let q = p.drop_first().push(candidate);
                        assert(kept@ == q);
                        assert forall|a: int, b: int| 0 <= a < b < q.len() implies q[
                            a
                        ].drone_serial_number@ != q[b].drone_serial_number@ by {
                            if b < q.len() - 1 {
                                assert(q[a] == p[a + 1] && q[b] == p[b + 1]);
                            } else if a < q.len() - 1 {
                                assert(q[a] == p[a + 1]);
                            }
                        }
                    }
                }
            }
        }
        self.entries = kept;
    }
}

/// What `get` returns: the serial's entry, if present and still visible.
pub open spec fn spec_get(s: Seq<Infringement>, k: Seq<char>, now: i64) -> Option<Infringement> {
    match spec_find_serial(s, k) {
        Some(i) => if spec_live(s[i], now) {
            Some(s[i])
        } else {
            None
        },
        None => None,
    }
}

/// Whether an entry passes the caller's update-time filter.
pub open spec fn spec_above_min(e: Infringement, min_updated_at: Option<i64>) -> bool {
    match min_updated_at {
        Some(m) => e.updated_at > m,
        None => true,
    }
}

/// What `list_all` returns: the visible entries passing the filter, in
/// storage order.
pub open spec fn spec_list_all(
    s: Seq<Infringement>,
    now: i64,
    min_updated_at: Option<i64>,
) -> Seq<Infringement>
    decreases s.len(),
{
    if s.len() == 0 {
        Seq::empty()
    } else {
        let rest = spec_list_all(s.drop_last(), now, min_updated_at);
        if spec_live(s.last(), now) && spec_above_min(s.last(), min_updated_at) {
            rest.push(s.last())
        } else {
            rest
        }
    }
}

/// Every listed entry is a stored entry that is visible and passes the filter.
pub proof fn lemma_list_all_membership(s: Seq<Infringement>, now: i64, min_updated_at: Option<i64>)
    ensures
        forall|i: int|
            0 <= i < spec_list_all(s, now, min_updated_at).len() ==> exists|j: int|
                0 <= j < s.len() && #[trigger] spec_list_all(s, now, min_updated_at)[i] == #[trigger] s[j]
                    && spec_live(s[j], now) && spec_above_min(s[j], min_updated_at),
    decreases s.len(),
{
    if s.len() > 0 {
        lemma_list_all_membership(s.drop_last(), now, min_updated_at);
        let rest = spec_list_all(s.drop_last(), now, min_updated_at);
        assert(forall|j: int| 0 <= j < s.drop_last().len() ==> s.drop_last()[j] == s[j]);
        assert forall|i: int|
            0 <= i < spec_list_all(s, now, min_updated_at).len() implies exists|j: int|
            0 <= j < s.len() && #[trigger] spec_list_all(s, now, min_updated_at)[i] == #[trigger] s[j]
                && spec_live(s[j], now) && spec_above_min(s[j], min_updated_at) by {
            if i < rest.len() {
                let j = choose|j: int|
                    0 <= j < s.drop_last().len() && #[trigger] rest[i] == s.drop_last()[j]
                        && spec_live(s.drop_last()[j], now) && spec_above_min(
                        s.drop_last()[j],
                        min_updated_at,
                    );
                assert(spec_list_all(s, now, min_updated_at)[i] == s[j]);
            } else {
                assert(spec_list_all(s, now, min_updated_at)[i] == s[s.len() - 1]);
            }
        }
    }
}

fn above_min(e: &Infringement, min_updated_at: Option<i64>) -> (r: bool)
    ensures
        r == spec_above_min(*e, min_updated_at),
{
    match min_updated_at {
        Some(m) => e.updated_at > m,
        None => true,
    }
}

impl InfringementStore {
    /// The entry for a serial, if one is present and still visible at `now`.
    pub fn get(&self, serial: &String, now: i64) -> (r: Option<Infringement>)
        requires
            self.wf(),
        ensures
            r == spec_get(self@, serial@, now),
    {
        match find_serial_index(&self.entries, serial) {
            Some(i) => {
                proof {
                    lemma_find_serial(self.entries@, serial@);
                }
                if live_at(&self.entries[i], now) {
                    Some(self.entries[i].duplicate())
                } else {
                    None
                }
            }
            None => None,
        }
    }

    /// Every entry still visible at `now`, in storage order; with a filter
    /// time given, only entries updated strictly after it.
    pub fn list_all(&self, now: i64, min_updated_at: Option<i64>) -> (r: Vec<Infringement>)
        ensures
            r@ == spec_list_all(self@, now, min_updated_at),
    {
        let mut out: Vec<Infringement> = Vec::new();
        let n = self.entries.len();
        let mut i: usize = 0;
        proof {
            assert(out@ =~= spec_list_all(self.entries@.take(0), now, min_updated_at));
        }
        while i < n
            invariant
                i <= n,
                n == self.entries@.len(),
                out@ == spec_list_all(self.entries@.take(i as int), now, min_updated_at),
            decreases n - i,
        {
            proof {
                assert(self.entries@.take(i as int + 1).drop_last() =~= self.entries@.take(
                    i as int,
                ));
                assert(self.entries@.take(i as int + 1).last() == self.entries@[i as int]);
            }
            if live_at(&self.entries[i], now) && above_min(&self.entries[i], min_updated_at) {
                out.push(self.entries[i].duplicate());
            }
            i += 1;
        }
        proof {
            assert(self.entries@.take(n as int) =~= self.entries@);
        }
        out
    }

    /// How many entries the table holds, visible or not.
    pub fn entry_count(&self) -> (r: usize)
        ensures
            r == self@.len(),
    {
        self.entries.len()
    }

    /// Drop every entry at once; used when replay wraps around to the start
    /// of its history, where update times jump backwards.
    pub fn invalidate_all(&mut self)
        requires
            old(self).wf(),
        ensures
            final(self).wf(),
            final(self)@ == Seq::<Infringement>::empty(),
            final(self).cap() == old(self).cap(),
    {
        self.entries.clear();
        proof {
            assert(self.entries@ =~= Seq::<Infringement>::empty());
        }
    }
}

/// The drones of a snapshot that violate the no-fly zone, each paired with
/// its exact squared distance, in feed order.
pub open spec fn spec_violating(s: Seq<Drone>) -> Seq<DroneWithDistance>
    decreases s.len(),
{
    if s.len() == 0 {
        Seq::empty()
    } else {
        let rest = spec_violating(s.drop_last());
        if spec_violates(s.last()) {
            rest.push(
                DroneWithDistance {
                    drone: s.last(),
                    distance_sq: spec_drone_dist_sq(s.last()) as u128,
                },
            )
        } else {
            rest
        }
    }
}

/// The candidate entry one violating drone yields in the tick begun at `now`.
pub open spec fn spec_candidate(v: DroneWithDistance, pilot: Option<Pilot>, now: i64) -> Infringement {
    Infringement {
        drone_serial_number: v.drone.serial_number,
        pilot,
        distance_sq: v.distance_sq,
        x: v.drone.position_x,
        y: v.drone.position_y,
        updated_at: now,
    }
}

/// The table after a whole list of candidates has been merged, one by one.
pub open spec fn spec_merge_all(s: Seq<Infringement>, cands: Seq<Infringement>, cap: int) -> Seq<
    Infringement,
>
    decreases cands.len(),
{
    if cands.len() == 0 {
        s
    } else {
        spec_merged(spec_merge_all(s, cands.drop_last(), cap), cands.last(), cap)
    }
}

/// The drones of a snapshot that are strictly inside the no-fly zone,
/// paired with their exact squared distances.
pub fn violating_drones(doc: &DronesDocument) -> (r: Vec<DroneWithDistance>)
    ensures
        r@ == spec_violating(doc.capture.drone@),
{
    let mut out: Vec<DroneWithDistance> = Vec::new();
    let n = doc.capture.drone.len();
    let mut i: usize = 0;
    proof {
        assert(out@ =~= spec_violating(doc.capture.drone@.take(0)));
    }
    while i < n
        invariant
            i <= n,
            n == doc.capture.drone@.len(),
            out@ == spec_violating(doc.capture.drone@.take(i as int)),
        decreases n - i,
    {
        proof {
            assert(doc.capture.drone@.take(i as int + 1).drop_last() =~= doc.capture.drone@.take(
                i as int,
            ));
            assert(doc.capture.drone@.take(i as int + 1).last() == doc.capture.drone@[i as int]);
        }
        let d = &doc.capture.drone[i];
        let sq = drone_dist_sq(d);
        if sq < (crate::ndz::NDZ_MIN_ALLOWED_DISTANCE as u128)
            * (crate::ndz::NDZ_MIN_ALLOWED_DISTANCE as u128) {
            out.push(DroneWithDistance { drone: d.duplicate(), distance_sq: sq });
        }
        i += 1;
    }
    proof {
        assert(doc.capture.drone@.take(n as int) =~= doc.capture.drone@);
    }
    out
}

/// Build one candidate entry per violating drone: position and distance
/// from the observation, pilot from this tick's resolution (absent where
/// the lookup failed), update time from the tick's start.
pub fn get_infringements(
    violating: &Vec<DroneWithDistance>,
    pilots: &Vec<Option<Pilot>>,
    now: i64,
) -> (r: Vec<Infringement>)
    requires
        pilots@.len() == violating@.len(),
    ensures
        r@.len() == violating@.len(),
        forall|i: int|
            0 <= i < r@.len() ==> r@[i] == spec_candidate(violating@[i], pilots@[i], now),
{
    let mut out: Vec<Infringement> = Vec::new();
    let n = violating.len();
    let mut i: usize = 0;
    while i < n
        invariant
            i <= n,
            n == violating@.len(),
            n == pilots@.len(),
            out@.len() == i,
            forall|j: int|
                0 <= j < i ==> out@[j] == spec_candidate(violating@[j], pilots@[j], now),
        decreases n - i,
    {
        let v = &violating[i];
        let pilot: Option<Pilot> = match &pilots[i] {
            Some(p) => Some(p.duplicate()),
            None => None,
        };
        out.push(
            Infringement {
                drone_serial_number: v.drone.serial_number.clone(),
                pilot,
                distance_sq: v.distance_sq,
                x: v.drone.position_x,
                y: v.drone.position_y,
                updated_at: now,
            },
        );
        i += 1;
    }
    out
}

/// Merge every candidate of one tick into the store, in order.
pub fn record_infringements(store: &mut InfringementStore, candidates: &Vec<Infringement>)
    requires
        old(store).wf(),
    ensures
        final(store).wf(),
        final(store)@ == spec_merge_all(old(store)@, candidates@, old(store).cap()),
        final(store).cap() == old(store).cap(),
{
    let n = candidates.len();
    let mut i: usize = 0;
    while i < n
        invariant
            i <= n,
            n == candidates@.len(),
            store.wf(),
            store@ == spec_merge_all(old(store)@, candidates@.take(i as int), old(store).cap()),
            store.cap() == old(store).cap(),
        decreases n - i,
    {
        proof {
            assert(candidates@.take(i as int + 1).drop_last() =~= candidates@.take(i as int));
            assert(candidates@.take(i as int + 1).last() == candidates@[i as int]);
        }
        store.merge(candidates[i].duplicate());
        i += 1;
    }
    proof {
        assert(candidates@.take(n as int) =~= candidates@);
    }
}

/// The entry one serial holds after a sequence of observations has been
/// merged in order, the first as a fresh insert.
pub open spec fn spec_fold_merges(s: Seq<Infringement>) -> Infringement
    recommends
        s.len() >= 1,
    decreases s.len(),
{
    if s.len() <= 1 {
        s[0]
    } else {
        spec_merge_inf(spec_fold_merges(s.drop_last()), s.last())
    }
}

/// The smallest distance among a sequence of observations.
pub open spec fn spec_min_dist(s: Seq<Infringement>) -> u128
    recommends
        s.len() >= 1,
    decreases s.len(),
{
    if s.len() <= 1 {
        s[0].distance_sq
    } else {
        let m = spec_min_dist(s.drop_last());
        if s.last().distance_sq < m {
            s.last().distance_sq
        } else {
            m
        }
    }
}

/// However many observations merge into one serial: the held distance is
/// the minimum of every merged distance; the held position is the one the
/// minimum was observed at, the newest such observation winning ties; and
/// pilot and update time always come from the newest observation alone.
pub proof fn lemma_merge_fold(s: Seq<Infringement>)
    requires
        s.len() >= 1,
    ensures
        spec_fold_merges(s).distance_sq == spec_min_dist(s),
        forall|i: int| 0 <= i < s.len() ==> spec_min_dist(s) <= #[trigger] s[i].distance_sq,
        exists|i: int|
            0 <= i < s.len() && #[trigger] s[i].distance_sq == spec_min_dist(s)
                && spec_fold_merges(s).x == s[i].x && spec_fold_merges(s).y == s[i].y && (forall|
                j: int,
            | i < j < s.len() ==> #[trigger] s[j].distance_sq > spec_min_dist(s)),
        spec_fold_merges(s).pilot == s.last().pilot,
        spec_fold_merges(s).updated_at == s.last().updated_at,
        spec_fold_merges(s).drone_serial_number == s[0].drone_serial_number,
    decreases s.len(),
{
    if s.len() > 1 {
        let prev = s.drop_last();
        lemma_merge_fold(prev);
        assert(forall|j: int| 0 <= j < prev.len() ==> #[trigger] prev[j] == s[j]);
        let f = spec_fold_merges(s);
        let last = s.last();
        assert forall|i: int| 0 <= i < s.len() implies spec_min_dist(s) <= #[trigger] s[
            i
        ].distance_sq by {
            if i < s.len() - 1 {
                assert(prev[i] == s[i]);
                assert(spec_min_dist(prev) <= prev[i].distance_sq);
            }
        }
        if last.distance_sq <= spec_min_dist(prev) {
            // The newest observation is (or ties) the closest: it provides
            // distance and position.
            let wit = s.len() - 1;
            assert(s[wit].distance_sq == spec_min_dist(s) && f.x == s[wit].x && f.y == s[wit].y
                && (forall|j: int| wit < j < s.len() ==> #[trigger] s[j].distance_sq > spec_min_dist(
                s,
            )));
        } else {
            // An older observation stays the closest: its position is kept.
            let wit = choose|i: int|
                0 <= i < prev.len() && #[trigger] prev[i].distance_sq == spec_min_dist(prev)
                    && spec_fold_merges(prev).x == prev[i].x && spec_fold_merges(prev).y
                    == prev[i].y && (forall|j: int|
                    i < j < prev.len() ==> #[trigger] prev[j].distance_sq > spec_min_dist(prev));
            assert(s[wit].distance_sq == spec_min_dist(s) && f.x == s[wit].x && f.y == s[wit].y);
            assert forall|j: int| wit < j < s.len() implies #[trigger] s[j].distance_sq
                > spec_min_dist(s) by {
                if j < s.len() - 1 {
                    assert(prev[j] == s[j]);
                    assert(prev[j].distance_sq > spec_min_dist(prev));
                }
            }
        }
    }
}

/// An emptied table takes the next merge as a plain first insert: the
/// candidate becomes the single entry, verbatim.
pub proof fn lemma_merge_into_empty(c: Infringement, cap: int)
    requires
        cap >= 1,
    ensures
        spec_merged(Seq::empty(), c, cap) =~= seq![c],
{
    assert(spec_purge(Seq::empty(), c.updated_at) =~= Seq::<Infringement>::empty());
}

/// An entry whose latest update lies further in the past than the
/// infringement duration is gone: `get` misses it and `list_all` omits it.
pub proof fn lemma_expired_entry_absent(
    s: Seq<Infringement>,
    i: int,
    now: i64,
    min_updated_at: Option<i64>,
)
    requires
        spec_entries_wf(s),
        0 <= i < s.len(),
        now - s[i].updated_at > INFRINGEMENT_DURATION_MILLIS,
    ensures
        spec_get(s, s[i].drone_serial_number@, now) is None,
        forall|j: int|
            0 <= j < spec_list_all(s, now, min_updated_at).len() ==> #[trigger] spec_list_all(
                s,
                now,
                min_updated_at,
            )[j].drone_serial_number@ != s[i].drone_serial_number@,
{
    let k = s[i].drone_serial_number@;
    lemma_find_serial(s, k);
    match spec_find_serial(s, k) {
        Some(f) => {
            if f < i {
                assert(s[f].drone_serial_number@ != s[i].drone_serial_number@);
            } else if f > i {
                assert(s[i].drone_serial_number@ != s[f].drone_serial_number@);
            }
            assert(f == i);
            assert(!spec_live(s[i], now));
        }
        None => {
            assert(s[i].drone_serial_number@ == k);
        }
    }
    lemma_list_all_membership(s, now, min_updated_at);
    let l = spec_list_all(s, now, min_updated_at);
    assert forall|j: int| 0 <= j < l.len() implies l[j].drone_serial_number@ != k by {
        let w = choose|w: int|
            0 <= w < s.len() && #[trigger] l[j] == s[w] && spec_live(s[w], now) && spec_above_min(
                s[w],
                min_updated_at,
            );
        if l[j].drone_serial_number@ == k {
            if w < i {
                assert(s[w].drone_serial_number@ != s[i].drone_serial_number@);
            } else if w > i {
                assert(s[i].drone_serial_number@ != s[w].drone_serial_number@);
            }
            assert(w == i);
            assert(!spec_live(s[i], now));
        }
    }
}

/// Every entry that is live at `now` survives the purge.
proof fn lemma_purge_keeps_live(s: Seq<Infringement>, now: i64)
    ensures
        forall|j: int|
            0 <= j < s.len() && spec_live(#[trigger] s[j], now) ==> exists|i: int|
                0 <= i < spec_purge(s, now).len() && #[trigger] spec_purge(s, now)[i] == s[j],
    decreases s.len(),
{
    if s.len() > 0 {
        lemma_purge_keeps_live(s.drop_last(), now);
        let rest = spec_purge(s.drop_last(), now);
        let p = spec_purge(s, now);
        assert(forall|j: int| 0 <= j < s.drop_last().len() ==> s.drop_last()[j] == s[j]);
        assert forall|j: int|
            0 <= j < s.len() && spec_live(#[trigger] s[j], now) implies exists|i: int|
            0 <= i < p.len() && #[trigger] p[i] == s[j] by {
            if j < s.len() - 1 {
                let i = choose|i: int| 0 <= i < rest.len() && #[trigger] rest[i] == s[j];
                assert(p[i] == s[j]);
            } else {
                assert(p[p.len() - 1] == s[j]);
            }
        }
    }
}

/// A merge keeps the table well formed and bounded.
pub proof fn lemma_merged_wf(s: Seq<Infringement>, c: Infringement, cap: int)
    requires
        spec_entries_wf(s),
        s.len() <= cap,
        cap >= 1,
    ensures
        spec_entries_wf(spec_merged(s, c, cap)),
        spec_merged(s, c, cap).len() <= cap,
{
    let k = c.drone_serial_number@;
    let p = spec_purge(s, c.updated_at);
    let m = spec_merged(s, c, cap);
    lemma_purge_properties(s, c.updated_at);
    lemma_find_serial(p, k);
    match spec_find_serial(p, k) {
        Some(i) => {
            assert forall|a: int, b: int| 0 <= a < b < m.len() implies m[a].drone_serial_number@
                != m[b].drone_serial_number@ by {
                assert(p[a].drone_serial_number@ != p[b].drone_serial_number@);
            }
        }
        None => {
            if p.len() < cap {
                assert forall|a: int, b: int| 0 <= a < b < m.len() implies m[
                    a
                ].drone_serial_number@ != m[b].drone_serial_number@ by {
                    if b < m.len() - 1 {
                        assert(p[a].drone_serial_number@ != p[b].drone_serial_number@);
                    }
                }
            } else {
                assert(forall|j: int|
                    0 <= j < p.drop_first().len() ==> #[trigger] p.drop_first()[j] == p[j + 1]);
                assert forall|a: int, b: int| 0 <= a < b < m.len() implies m[
                    a
                ].drone_serial_number@ != m[b].drone_serial_number@ by {
                    if b < m.len() - 1 {
                        assert(m[a] == p[a + 1] && m[b] == p[b + 1]);
                    } else if a < m.len() - 1 {
                        assert(m[a] == p[a + 1]);
                    }
                }
            }
        }
    }
}

/// What one merge leaves behind for its serial: the candidate combined
/// with the serial's live entry, or the candidate verbatim where none was
/// live; visible as long as the candidate's own clock runs.
pub proof fn lemma_merged_get(s: Seq<Infringement>, c: Infringement, cap: int, now: i64)
    requires
        spec_entries_wf(s),
        s.len() <= cap,
        cap >= 1,
        now - c.updated_at <= INFRINGEMENT_DURATION_MILLIS,
    ensures
        spec_get(spec_merged(s, c, cap), c.drone_serial_number@, now) == Some(
            match spec_get(s, c.drone_serial_number@, c.updated_at) {
                Some(e) => spec_merge_inf(e, c),
                None => c,
            },
        ),
{
    let k = c.drone_serial_number@;
    let p = spec_purge(s, c.updated_at);
    let m = spec_merged(s, c, cap);
    lemma_purge_properties(s, c.updated_at);
    lemma_purge_keeps_live(s, c.updated_at);
    lemma_find_serial(s, k);
    lemma_find_serial(p, k);
    match spec_find_serial(p, k) {
        Some(i) => {
            // The serial survived the purge, so its entry was live in `s`.
            let j = choose|j: int| 0 <= j < s.len() && #[trigger] p[i] == s[j];
            assert(spec_live(p[i], c.updated_at));
            match spec_find_serial(s, k) {
                Some(f) => {
                    if f < j {
                        assert(s[f].drone_serial_number@ != s[j].drone_serial_number@);
                    } else if f > j {
                        assert(s[j].drone_serial_number@ != s[f].drone_serial_number@);
                    }
                    assert(f == j);
                    assert(spec_get(s, k, c.updated_at) == Some(s[j]));
                }
                None => {
                    assert(s[j].drone_serial_number@ != k);
                }
            }
            assert(m == p.update(i, spec_merge_inf(p[i], c)));
            assert(m[i].drone_serial_number@ == k);
            assert(forall|jj: int| 0 <= jj < i ==> #[trigger] m[jj] == p[jj]);
            lemma_find_serial_at(m, k, i);
            assert(spec_live(m[i], now));
        }
        None => {
            // No live entry for the serial: any entry it had in `s` was
            // expired, so the candidate goes in verbatim.
            match spec_find_serial(s, k) {
                Some(f) => {
                    if spec_live(s[f], c.updated_at) {
                        let i = choose|i: int| 0 <= i < p.len() && #[trigger] p[i] == s[f];
                        assert(p[i].drone_serial_number@ != k);
                    }
                    assert(spec_get(s, k, c.updated_at) is None);
                }
                None => {}
            }
            if p.len() < cap {
                assert(m == p.push(c));
                assert(forall|jj: int| 0 <= jj < p.len() ==> #[trigger] m[jj] == p[jj]);
                lemma_find_serial_at(m, k, p.len() as int);
            } else {
                assert(p.len() >= 1);
                assert(m == p.drop_first().push(c));
                assert(forall|jj: int|
                    0 <= jj < p.drop_first().len() ==> #[trigger] p.drop_first()[jj] == p[jj
                        + 1]);
                assert(forall|jj: int| 0 <= jj < m.len() - 1 ==> #[trigger] m[jj] == p[jj + 1]);
                lemma_find_serial_at(m, k, m.len() - 1);
            }
            assert(m.last() == c);
        }
    }
}

/// A merge makes its serial present with the new observation's update time:
/// the entry's clock resets, and it stays visible for a full duration again.
pub proof fn lemma_merge_resets_clock(s: Seq<Infringement>, c: Infringement, cap: int, now: i64)
    requires
        spec_entries_wf(s),
        s.len() <= cap,
        cap >= 1,
        now - c.updated_at <= INFRINGEMENT_DURATION_MILLIS,
    ensures
        spec_get(spec_merged(s, c, cap), c.drone_serial_number@, now) is Some,
        spec_get(spec_merged(s, c, cap), c.drone_serial_number@, now)->Some_0.updated_at
            == c.updated_at,
{
    lemma_merged_get(s, c, cap, now);
}

/// However many observations merge into one serial, one after the other:
/// the store ends up holding exactly their fold — minimum distance, its
/// position, the newest pilot and update time — provided each observation
/// comes within the infringement duration of the one before, so the entry
/// never lapses in between.
pub proof fn lemma_merge_sequence(
    s: Seq<Infringement>,
    cs: Seq<Infringement>,
    cap: int,
    k: Seq<char>,
)
    requires
        spec_entries_wf(s),
        s.len() <= cap,
        cap >= 1,
        cs.len() >= 1,
        forall|i: int| 0 <= i < cs.len() ==> (#[trigger] cs[i]).drone_serial_number@ == k,
        spec_get(s, k, cs[0].updated_at) is None,
        forall|i: int|
            0 <= i < cs.len() - 1 ==> (#[trigger] cs[i]).updated_at <= cs[i + 1].updated_at
                && cs[i + 1].updated_at <= cs[i].updated_at + INFRINGEMENT_DURATION_MILLIS,
    ensures
        spec_entries_wf(spec_merge_all(s, cs, cap)),
        spec_merge_all(s, cs, cap).len() <= cap,
        spec_get(spec_merge_all(s, cs, cap), k, cs.last().updated_at) == Some(
            spec_fold_merges(cs),
        ),
    decreases cs.len(),
{
    if cs.len() == 1 {
        assert(spec_merge_all(s, cs, cap) == spec_merged(spec_merge_all(s, cs.drop_last(), cap), cs.last(), cap));
        assert(spec_merge_all(s, cs.drop_last(), cap) == s);
        lemma_merged_wf(s, cs[0], cap);
        lemma_merged_get(s, cs[0], cap, cs[0].updated_at);
    } else {
        let pre = cs.drop_last();
        assert(forall|i: int| 0 <= i < pre.len() ==> #[trigger] pre[i] == cs[i]);
        lemma_merge_sequence(s, pre, cap, k);
        let s1 = spec_merge_all(s, pre, cap);
        let c = cs.last();
        lemma_merge_fold(pre);
        // The entry left by the earlier merges is still live when the next
        // observation arrives, so `get` sees it unchanged then.
        assert(spec_fold_merges(pre).updated_at == pre.last().updated_at);
        assert(cs[cs.len() - 2].updated_at <= c.updated_at <= cs[cs.len() - 2].updated_at
            + INFRINGEMENT_DURATION_MILLIS);
        assert(spec_get(s1, k, pre.last().updated_at) == Some(spec_fold_merges(pre)));
        assert(spec_get(s1, k, c.updated_at) == Some(spec_fold_merges(pre)));
        lemma_merged_wf(s1, c, cap);
        lemma_merged_get(s1, c, cap, c.updated_at);
        assert(spec_merge_all(s, cs, cap) == spec_merged(s1, c, cap));
        assert(spec_fold_merges(cs) == spec_merge_inf(spec_fold_merges(pre), c));
    }
}

} // verus!
