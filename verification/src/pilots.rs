//! Pilots and the capacity-bounded pilot cache.
//!
//! A pilot is keyed by the drone serial that was in violation when the
//! lookup happened. Cache entries never expire by time; the cache only
//! bounds its entry count, evicting its oldest entry when full.

use vstd::prelude::*;

use crate::errors::CoreError;

verus! {

/// Contact data of a registered pilot.
pub struct Pilot {
    pub pilot_id: String,
    pub first_name: String,
    pub last_name: String,
    pub phone_number: String,
    pub created_date: String,
    pub email: String,
}

/// Field-by-field equality of two pilot records, over the string views.
pub open spec fn spec_pilot_like(a: Pilot, b: Pilot) -> bool {
    &&& a.pilot_id@ == b.pilot_id@
    &&& a.first_name@ == b.first_name@
    &&& a.last_name@ == b.last_name@
    &&& a.phone_number@ == b.phone_number@
    &&& a.created_date@ == b.created_date@
    &&& a.email@ == b.email@
}

impl Pilot {
    /// An exact copy of this pilot record.
    pub fn duplicate(&self) -> (r: Pilot)
        ensures
            r == *self,
    {
        Pilot {
            pilot_id: self.pilot_id.clone(),
            first_name: self.first_name.clone(),
            last_name: self.last_name.clone(),
            phone_number: self.phone_number.clone(),
            created_date: self.created_date.clone(),
            email: self.email.clone(),
        }
    }
}

/// Whether two pilot records carry the same contents.
pub fn pilot_eq(a: &Pilot, b: &Pilot) -> (r: bool)
    ensures
        r == spec_pilot_like(*a, *b),
{
    a.pilot_id == b.pilot_id && a.first_name == b.first_name && a.last_name == b.last_name
        && a.phone_number == b.phone_number && a.created_date == b.created_date
        && a.email == b.email
}

/// No two entries share a serial.
pub open spec fn spec_keys_wf(s: Seq<(String, Pilot)>) -> bool {
    forall|i: int, j: int| 0 <= i < j < s.len() ==> s[i].0@ != s[j].0@
}

/// Index of the first entry with the given serial, if any.
pub open spec fn spec_find_key(s: Seq<(String, Pilot)>, k: Seq<char>) -> Option<int>
    decreases s.len(),
{
    if s.len() == 0 {
        None
    } else if s[0].0@ == k {
        Some(0int)
    } else {
        match spec_find_key(s.drop_first(), k) {
            Some(i) => Some(i + 1),
            None => None,
        }
    }
}

/// `spec_find_key` finds exactly the first match.
pub proof fn lemma_find_key(s: Seq<(String, Pilot)>, k: Seq<char>)
    ensures
        match spec_find_key(s, k) {
            Some(i) => 0 <= i < s.len() && s[i].0@ == k && (forall|j: int|
                0 <= j < i ==> s[j].0@ != k),
            None => forall|j: int| 0 <= j < s.len() ==> s[j].0@ != k,
        },
    decreases s.len(),
{
    if s.len() > 0 && s[0].0@ != k {
        let rest = s.drop_first();
        lemma_find_key(rest, k);
        assert(forall|j: int| 0 <= j < rest.len() ==> #[trigger] rest[j] == s[j + 1]);
        match spec_find_key(rest, k) {
            Some(i) => {
                assert(rest[i] == s[i + 1]);
                assert forall|j: int| 0 <= j < i + 1 implies s[j].0@ != k by {
                    if j > 0 {
                        assert(rest[j - 1] == s[j]);
                    }
                }
            }
            None => {
                assert forall|j: int| 0 <= j < s.len() implies s[j].0@ != k by {
                    if j > 0 {
                        assert(rest[j - 1] == s[j]);
                    }
                }
            }
        }
    }
}

/// A first match characterizes the result of `spec_find_key`.
pub proof fn lemma_find_key_at(s: Seq<(String, Pilot)>, k: Seq<char>, i: int)
    requires
        0 <= i < s.len(),
        s[i].0@ == k,
        forall|j: int| 0 <= j < i ==> s[j].0@ != k,
    ensures
        spec_find_key(s, k) == Some(i),
{
    lemma_find_key(s, k);
    match spec_find_key(s, k) {
        Some(f) => {
            if f < i {
                assert(s[f].0@ != k);
            } else if f > i {
                assert(s[i].0@ != k);
            }
        }
        None => {
            assert(s[i].0@ != k);
        }
    }
}

/// Index of the first entry with the given serial, if any.
fn find_key_index(entries: &Vec<(String, Pilot)>, serial: &String) -> (r: Option<usize>)
    ensures
        match r {
            Some(i) => spec_find_key(entries@, serial@) == Some(i as int),
            None => spec_find_key(entries@, serial@) is None,
        },
{
    let n = entries.len();
    let mut i: usize = 0;
    while i < n
        invariant
            i <= n,
            n == entries@.len(),
            forall|j: int| 0 <= j < i ==> entries@[j].0@ != serial@,
        decreases n - i,
    {
        if entries[i].0 == *serial {
            proof {
                lemma_find_key_at(entries@, serial@, i as int);
            }
            return Some(i);
        }
        i += 1;
    }
    proof {
        lemma_find_key(entries@, serial@);
        if spec_find_key(entries@, serial@) is Some {
            let f = spec_find_key(entries@, serial@)->Some_0;
            assert(entries@[f].0@ != serial@);
        }
    }
    None
}

/// What the cache holds for a serial.
pub open spec fn spec_cache_get(s: Seq<(String, Pilot)>, k: Seq<char>) -> Option<Pilot> {
    match spec_find_key(s, k) {
        Some(i) => Some(s[i].1),
        None => None,
    }
}

/// What an insert does: overwrite the serial's entry, append a new one, or
/// make room by dropping the oldest entry when the cache is full.
pub open spec fn spec_cache_insert(
    s: Seq<(String, Pilot)>,
    key: String,
    p: Pilot,
    cap: int,
) -> Seq<(String, Pilot)> {
    match spec_find_key(s, key@) {
        Some(i) => s.update(i, (s[i].0, p)),
        None => if s.len() < cap {
            s.push((key, p))
        } else {
            s.drop_first().push((key, p))
        },
    }
}

/// The capacity-bounded pilot lookup cache. Entries never expire by time;
/// pilot identity does not go stale at process timescales.
pub struct PilotCache {
    entries: Vec<(String, Pilot)>,
    capacity: usize,
}

impl PilotCache {
    /// The cached entries, oldest first.
    pub closed spec fn view(&self) -> Seq<(String, Pilot)> {
        self.entries@
    }

    /// The fixed entry bound given at construction.
    pub closed spec fn cap(&self) -> int {
        self.capacity as int
    }

    /// Serials are unique and the entry bound holds.
    pub open spec fn wf(&self) -> bool {
        &&& spec_keys_wf(self@)
        &&& self@.len() <= self.cap()
        &&& self.cap() >= 1
    }

    /// An empty cache with the given entry bound.
    pub fn new(capacity: usize) -> (r: PilotCache)
        requires
            capacity >= 1,
        ensures
            r.wf(),
            r@ == Seq::<(String, Pilot)>::empty(),
            r.cap() == capacity,
    {
        let r = PilotCache { entries: Vec::new(), capacity };
        proof {
            assert(r@ =~= Seq::<(String, Pilot)>::empty());
        }
        r
    }

    /// The cached pilot for a serial, if one is present.
    pub fn lookup(&self, serial: &String) -> (r: Option<Pilot>)
        ensures
            r == spec_cache_get(self@, serial@),
    {
        match find_key_index(&self.entries, serial) {
            Some(i) => {
                proof {
                    lemma_find_key(self.entries@, serial@);
                }
                Some(self.entries[i].1.duplicate())
            }
            None => None,
        }
    }

    /// Store a resolution; an existing entry for the serial is overwritten.
    pub fn insert(&mut self, serial: String, pilot: Pilot)
        requires
            old(self).wf(),
        ensures
            final(self).wf(),
            final(self)@ == spec_cache_insert(old(self)@, serial, pilot, old(self).cap()),
            final(self).cap() == old(self).cap(),
    {
        let ghost orig = self.entries@;
        match find_key_index(&self.entries, &serial) {
            Some(i) => {
                proof {
                    lemma_find_key(orig, serial@);
                }
                let key = self.entries[i].0.clone();
                self.entries.set(i, (key, pilot));
                proof {
                    let q = orig.update(i as int, (orig[i as int].0, pilot));
                    assert(self.entries@ == q);
                    assert forall|a: int, b: int| 0 <= a < b < q.len() implies q[a].0@ != q[
                        b
                    ].0@ by {
                        assert(orig[a].0@ != orig[b].0@);
                    }
                }
            }
            None => {
                proof {
                    lemma_find_key(orig, serial@);
                }
                if self.entries.len() < self.capacity {
                    self.entries.push((serial, pilot));
                    proof {
                        let q = orig.push((serial, pilot));
                        assert forall|a: int, b: int| 0 <= a < b < q.len() implies q[a].0@ != q[
                            b
                        ].0@ by {
                            if b < q.len() - 1 {
                                assert(orig[a].0@ != orig[b].0@);
                            }
                        }
                    }
                } else {
                    self.entries.remove(0);
                    proof {
                        assert(self.entries@ =~= orig.drop_first());
                        assert(forall|j: int|
                            0 <= j < orig.drop_first().len() ==> #[trigger] orig.drop_first()[j]
                                == orig[j + 1]);
                    }
                    self.entries.push((serial, pilot));
                    proof {
                        let q = orig.drop_first().push((serial, pilot));
                        assert(self.entries@ == q);
                        assert forall|a: int, b: int| 0 <= a < b < q.len() implies q[a].0@ != q[
                            b
                        ].0@ by {
                            if b < q.len() - 1 {
                                assert(q[a] == orig[a + 1] && q[b] == orig[b + 1]);
                            } else if a < q.len() - 1 {
                                assert(q[a] == orig[a + 1]);
                            }
                        }
                    }
                }
            }
        }
    }

    /// How many entries the cache holds.
    pub fn entry_count(&self) -> (r: usize)
        ensures
            r == self@.len(),
    {
        self.entries.len()
    }

    /// A copy of every cached entry, oldest first; record mode merges this
    /// over the persisted pilot document.
    pub fn snapshot_entries(&self) -> (r: Vec<(String, Pilot)>)
        ensures
            r@ == self@,
    {
        let mut out: Vec<(String, Pilot)> = Vec::new();
        let n = self.entries.len();
        let mut i: usize = 0;
        while i < n
            invariant
                i <= n,
                n == self.entries@.len(),
                out@.len() == i,
                forall|j: int| 0 <= j < i ==> out@[j] == self.entries@[j],
            decreases n - i,
        {
            let key = self.entries[i].0.clone();
            out.push((key, self.entries[i].1.duplicate()));
            i += 1;
        }
        proof {
            assert(out@ =~= self.entries@);
        }
        out
    }
}

/// Resolve a pilot from the persisted pilot document; replay mode treats a
/// miss as a hard failure for the drone in question.
pub fn resolve_replay_pilot(doc: &Vec<(String, Pilot)>, serial: &String) -> (r: Result<
    Pilot,
    CoreError,
>)
    ensures
        match spec_find_key(doc@, serial@) {
            Some(i) => r == Ok::<Pilot, CoreError>(doc@[i].1),
            None => r == Err::<Pilot, CoreError>(CoreError::NotFound),
        },
{
    match find_key_index(doc, serial) {
        Some(i) => {
            proof {
                lemma_find_key(doc@, serial@);
            }
            Ok(doc[i].1.duplicate())
        }
        None => Err(CoreError::NotFound),
    }
}

/// One replay-mode pilot lookup: the cache answers if it can; otherwise the
/// persisted document does, and its answer is cached; a document miss is a
/// [`CoreError::NotFound`] failure.
pub fn get_pilot_replay(
    cache: &mut PilotCache,
    doc: &Vec<(String, Pilot)>,
    serial: &String,
) -> (r: Result<Pilot, CoreError>)
    requires
        old(cache).wf(),
    ensures
        final(cache).wf(),
        final(cache).cap() == old(cache).cap(),
        match spec_cache_get(old(cache)@, serial@) {
            Some(p) => r == Ok::<Pilot, CoreError>(p) && final(cache)@ == old(cache)@,
            None => match spec_find_key(doc@, serial@) {
                Some(i) => r == Ok::<Pilot, CoreError>(doc@[i].1) && final(cache)@
                    == spec_cache_insert(old(cache)@, *serial, doc@[i].1, old(cache).cap()),
                None => r == Err::<Pilot, CoreError>(CoreError::NotFound) && final(cache)@ == old(
                    cache,
                )@,
            },
        },
{
    match cache.lookup(serial) {
        Some(p) => Ok(p),
        None => {
            match resolve_replay_pilot(doc, serial) {
                Ok(p) => {
                    cache.insert(serial.clone(), p.duplicate());
                    Ok(p)
                }
                Err(e) => Err(e),
            }
        }
    }
}

/// View-level equality of two pilot documents.
pub open spec fn spec_pilot_doc_like(a: Seq<(String, Pilot)>, b: Seq<(String, Pilot)>) -> bool {
    &&& a.len() == b.len()
    &&& forall|i: int|
        0 <= i < a.len() ==> (#[trigger] a[i]).0@ == b[i].0@ && spec_pilot_like(a[i].1, b[i].1)
}

/// One entry written over a document: the first entry with the same serial
/// is overwritten, or the entry is appended.
pub open spec fn spec_doc_upsert(
    doc: Seq<(String, Pilot)>,
    e: (String, Pilot),
) -> Seq<(String, Pilot)> {
    match spec_find_key(doc, e.0@) {
        Some(i) => doc.update(i, (doc[i].0, e.1)),
        None => doc.push(e),
    }
}

/// A whole cache written over a document, entry by entry, in cache order;
/// the cache wins on conflicts.
pub open spec fn spec_doc_merge(
    doc: Seq<(String, Pilot)>,
    cache: Seq<(String, Pilot)>,
) -> Seq<(String, Pilot)>
    decreases cache.len(),
{
    if cache.len() == 0 {
        doc
    } else {
        spec_doc_upsert(spec_doc_merge(doc, cache.drop_last()), cache.last())
    }
}

/// Whether two pilot documents carry the same contents.
pub fn pilot_doc_eq(a: &Vec<(String, Pilot)>, b: &Vec<(String, Pilot)>) -> (r: bool)
    ensures
        r == spec_pilot_doc_like(a@, b@),
{
    let n = a.len();
    if n != b.len() {
        return false;
    }
    let mut i: usize = 0;
    while i < n
        invariant
            i <= n,
            n == a@.len(),
            n == b@.len(),
            forall|j: int|
                0 <= j < i ==> (#[trigger] a@[j]).0@ == b@[j].0@ && spec_pilot_like(
                    a@[j].1,
                    b@[j].1,
                ),
        decreases n - i,
    {
        if !(a[i].0 == b[i].0) {
            return false;
        }
        if !pilot_eq(&a[i].1, &b[i].1) {
            return false;
        }
        i += 1;
    }
    true
}

/// Merge the in-memory cache over the pilot document already on disk; the
/// cache wins on conflicts. Returns the merged document and whether its
/// contents differ from what is on disk, so an unchanged document is not
/// written again.
pub fn merge_pilot_document(
    existing: &Vec<(String, Pilot)>,
    cache: &Vec<(String, Pilot)>,
) -> (r: (Vec<(String, Pilot)>, bool))
    ensures
        r.0@ == spec_doc_merge(existing@, cache@),
        r.1 == !spec_pilot_doc_like(r.0@, existing@),
{
    let mut merged: Vec<(String, Pilot)> = Vec::new();
    let n = existing.len();
    let mut i: usize = 0;
    while i < n
        invariant
            i <= n,
            n == existing@.len(),
            merged@.len() == i,
            forall|j: int| 0 <= j < i ==> merged@[j] == existing@[j],
        decreases n - i,
    {
        let key = existing[i].0.clone();
        merged.push((key, existing[i].1.duplicate()));
        i += 1;
    }
    proof {
        assert(merged@ =~= existing@);
        assert(merged@ == spec_doc_merge(existing@, cache@.take(0)));
    }
    let m = cache.len();
    let mut j: usize = 0;
    while j < m
        invariant
            j <= m,
            m == cache@.len(),
            merged@ == spec_doc_merge(existing@, cache@.take(j as int)),
        decreases m - j,
    {
        proof {
            assert(cache@.take(j as int + 1).drop_last() =~= cache@.take(j as int));
            assert(cache@.take(j as int + 1).last() == cache@[j as int]);
        }
        match find_key_index(&merged, &cache[j].0) {
            Some(i) => {
                proof {
                    lemma_find_key(merged@, cache@[j as int].0@);
                }
                let key = merged[i].0.clone();
                merged.set(i, (key, cache[j].1.duplicate()));
            }
            None => {
                let key = cache[j].0.clone();
                merged.push((key, cache[j].1.duplicate()));
            }
        }
        j += 1;
    }
    proof {
        assert(cache@.take(m as int) =~= cache@);
    }
    let changed = !pilot_doc_eq(&merged, existing);
    (merged, changed)
}

} // verus!
