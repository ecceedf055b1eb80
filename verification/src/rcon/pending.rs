//! The requests of a connection that still wait for their response.

use vstd::prelude::*;

verus! {

/// A request that was submitted and has not been resolved yet.
#[derive(Clone, Copy, Debug, PartialEq, Eq)]
pub struct PendingRequest {
    /// The id under which the response will arrive.
    pub sequence_id: u32,
    /// When the request was submitted or, once it is written, when it was
    /// written; in milliseconds of the caller's clock.
    pub submitted_at: u64,
    /// How long after `submitted_at` the response may take, in milliseconds.
    pub timeout: u64,
    /// Whether the request has been handed to the socket. The timeout runs
    /// from that moment on.
    pub written: bool,
}

impl PendingRequest {
    /// The request was written and more than its timeout has passed since.
    pub open spec fn is_expired(self, now: u64) -> bool {
        self.written && now - self.submitted_at > self.timeout
    }

    /// Whether the request was written and more than its timeout has passed
    /// since.
    pub fn expired(&self, now: u64) -> (expired: bool)
        ensures
            expired == self.is_expired(now),
    {
        self.written && now > self.submitted_at && now - self.submitted_at > self.timeout
    }
}

/// No two entries share a sequence id.
pub open spec fn distinct_ids(entries: Seq<PendingRequest>) -> bool {
    forall|i: int, j: int|
        0 <= i < j < entries.len() ==> (#[trigger] entries[i]).sequence_id != (
        #[trigger] entries[j]).sequence_id
}

/// Some entry has the sequence id `id`.
pub open spec fn has_id(entries: Seq<PendingRequest>, id: u32) -> bool {
    exists|i: int| 0 <= i < entries.len() && (#[trigger] entries[i]).sequence_id == id
}

/// The entry with the sequence id `id`, if there is one.
pub open spec fn lookup(entries: Seq<PendingRequest>, id: u32) -> Option<PendingRequest> {
    if has_id(entries, id) {
        Some(
            entries[choose|i: int|
                0 <= i < entries.len() && (#[trigger] entries[i]).sequence_id == id],
        )
    } else {
        None
    }
}

/// The sequence ids of the entries, in order.
pub open spec fn ids_of(entries: Seq<PendingRequest>) -> Seq<u32> {
    Seq::new(entries.len(), |i: int| entries[i].sequence_id)
}

/// The entries but the one with the sequence id `id`, in order.
pub open spec fn without(entries: Seq<PendingRequest>, id: u32) -> Seq<PendingRequest>
    decreases entries.len(),
{
    if entries.len() == 0 {
        entries
    } else if entries.last().sequence_id == id {
        without(entries.drop_last(), id)
    } else {
        without(entries.drop_last(), id).push(entries.last())
    }
}

/// The entries whose timeout has passed at `now`, in order.
pub open spec fn expired_at(entries: Seq<PendingRequest>, now: u64) -> Seq<PendingRequest>
    decreases entries.len(),
{
    if entries.len() == 0 {
        entries
    } else if entries.last().is_expired(now) {
        expired_at(entries.drop_last(), now).push(entries.last())
    } else {
        expired_at(entries.drop_last(), now)
    }
}

/// The entries whose timeout has not passed at `now`, in order.
pub open spec fn live_at(entries: Seq<PendingRequest>, now: u64) -> Seq<PendingRequest>
    decreases entries.len(),
{
    if entries.len() == 0 {
        entries
    } else if entries.last().is_expired(now) {
        live_at(entries.drop_last(), now)
    } else {
        live_at(entries.drop_last(), now).push(entries.last())
    }
}

/// The entries, of which the one with the sequence id `id` counts as written
/// at `now`.
pub open spec fn written_at(entries: Seq<PendingRequest>, id: u32, now: u64) -> Seq<
    PendingRequest,
> {
    Seq::new(
        entries.len(),
        |i: int|
            if entries[i].sequence_id == id {
                PendingRequest { submitted_at: now, written: true, ..entries[i] }
            } else {
                entries[i]
            },
    )
}

/// Every entry of `part` is an entry of `whole`.
pub open spec fn drawn_from(part: Seq<PendingRequest>, whole: Seq<PendingRequest>) -> bool {
    forall|k: int| 0 <= k < part.len() ==> whole.contains(#[trigger] part[k])
}

/// Leaving one id out keeps the other entries, in order and distinct.
pub proof fn lemma_without(entries: Seq<PendingRequest>, id: u32)
    ensures
        !has_id(without(entries, id), id),
        drawn_from(without(entries, id), entries),
        distinct_ids(entries) ==> distinct_ids(without(entries, id)),
        forall|other: u32|
            other != id ==> (#[trigger] has_id(without(entries, id), other) <==> has_id(
                entries,
                other,
            )),
        forall|k: int|
            0 <= k < entries.len() && (#[trigger] entries[k]).sequence_id != id ==> without(
                entries,
                id,
            ).contains(entries[k]),
        !has_id(entries, id) ==> without(entries, id) == entries,
        without(entries, id).len() <= entries.len(),
    decreases entries.len(),
{
    let result = without(entries, id);
    if entries.len() > 0 {
        let front = entries.drop_last();
        let last = entries.last();
        let rest = without(front, id);
        lemma_without(front, id);
        assert forall|k: int| 0 <= k < result.len() implies entries.contains(
            #[trigger] result[k],
        ) by {
            if k < rest.len() {
                assert(front.contains(rest[k]));
                let j = choose|j: int| 0 <= j < front.len() && front[j] == rest[k];
                assert(entries[j] == rest[k]);
            } else {
                assert(entries[entries.len() - 1] == last);
            }
        }
        if has_id(result, id) {
            let k = choose|k: int| 0 <= k < result.len() && (#[trigger] result[k]).sequence_id == id;
            if k < rest.len() {
                assert(rest[k].sequence_id == id);
            }
        }
        if distinct_ids(entries) {
            assert(distinct_ids(front)) by {
                assert forall|i: int, j: int| 0 <= i < j < front.len() implies (
                #[trigger] front[i]).sequence_id != (#[trigger] front[j]).sequence_id by {
                    assert(entries[i] == front[i] && entries[j] == front[j]);
                }
            }
            assert forall|i: int, j: int| 0 <= i < j < result.len() implies (
            #[trigger] result[i]).sequence_id != (#[trigger] result[j]).sequence_id by {
                if j == rest.len() {
                    assert(front.contains(rest[i]));
                    let m = choose|m: int| 0 <= m < front.len() && front[m] == rest[i];
                    assert(entries[m] == rest[i]);
                    assert(entries[entries.len() - 1] == last);
                }
            }
        }
        assert forall|other: u32| other != id implies (#[trigger] has_id(result, other)
            <==> has_id(entries, other)) by {
            if has_id(result, other) {
                let k = choose|k: int|
                    0 <= k < result.len() && (#[trigger] result[k]).sequence_id == other;
                assert(entries.contains(result[k]));
                let j = choose|j: int| 0 <= j < entries.len() && entries[j] == result[k];
                assert(entries[j].sequence_id == other);
            }
            if has_id(entries, other) {
                let j = choose|j: int|
                    0 <= j < entries.len() && (#[trigger] entries[j]).sequence_id == other;
                if j < front.len() {
                    assert(front[j].sequence_id == other);
                    assert(has_id(front, other));
                    let k = choose|k: int|
                        0 <= k < rest.len() && (#[trigger] rest[k]).sequence_id == other;
                    assert(result[k].sequence_id == other);
                } else {
                    assert(result[result.len() - 1].sequence_id == other);
                }
            }
        }
        assert forall|k: int|
            0 <= k < entries.len() && (#[trigger] entries[k]).sequence_id != id implies result.contains(
            entries[k],
        ) by {
            if k < front.len() {
                assert(front[k] == entries[k]);
                assert(rest.contains(front[k]));
                let m = choose|m: int| 0 <= m < rest.len() && rest[m] == front[k];
                assert(result[m] == entries[k]);
            } else {
                assert(result[result.len() - 1] == entries[k]);
            }
        }
        if !has_id(entries, id) {
            assert(!has_id(front, id)) by {
                if has_id(front, id) {
                    let j = choose|j: int|
                        0 <= j < front.len() && (#[trigger] front[j]).sequence_id == id;
                    assert(entries[j].sequence_id == id);
                }
            }
            assert(entries[entries.len() - 1].sequence_id != id);
            assert(result =~= entries);
        }
    }
}

/// Among distinct ids, the entry found under an id is the one that has it.
pub proof fn lemma_lookup(entries: Seq<PendingRequest>, i: int)
    requires
        distinct_ids(entries),
        0 <= i < entries.len(),
    ensures
        has_id(entries, entries[i].sequence_id),
        lookup(entries, entries[i].sequence_id) == Some(entries[i]),
{
    let id = entries[i].sequence_id;
    let j = choose|j: int| 0 <= j < entries.len() && (#[trigger] entries[j]).sequence_id == id;
    if j < i {
        assert(entries[j].sequence_id != entries[i].sequence_id);
    } else if i < j {
        assert(entries[i].sequence_id != entries[j].sequence_id);
    }
}

/// Among distinct ids, leaving out the id of the entry at `i` removes that
/// entry and no other.
pub proof fn lemma_without_is_remove(entries: Seq<PendingRequest>, i: int)
    requires
        distinct_ids(entries),
        0 <= i < entries.len(),
    ensures
        without(entries, entries[i].sequence_id) == entries.remove(i),
    decreases entries.len(),
{
    let id = entries[i].sequence_id;
    let front = entries.drop_last();
    assert(distinct_ids(front)) by {
        assert forall|a: int, b: int| 0 <= a < b < front.len() implies (
        #[trigger] front[a]).sequence_id != (#[trigger] front[b]).sequence_id by {
            assert(entries[a] == front[a] && entries[b] == front[b]);
        }
    }
    if i == entries.len() - 1 {
        assert(!has_id(front, id)) by {
            if has_id(front, id) {
                let j = choose|j: int|
                    0 <= j < front.len() && (#[trigger] front[j]).sequence_id == id;
                assert(entries[j].sequence_id != entries[i].sequence_id);
            }
        }
        lemma_without(front, id);
        assert(entries.remove(i) =~= front);
    } else {
        assert(entries[i].sequence_id != entries[entries.len() - 1].sequence_id);
        assert(front[i] == entries[i]);
        lemma_without_is_remove(front, i);
        assert(entries.remove(i) =~= front.remove(i).push(entries.last()));
    }
}

/// A sweep parts the entries in those whose timeout has passed and the
/// others; each entry goes to one side, and both sides keep ids distinct.
pub proof fn lemma_sweep(entries: Seq<PendingRequest>, now: u64)
    ensures
        drawn_from(expired_at(entries, now), entries),
        drawn_from(live_at(entries, now), entries),
        expired_at(entries, now).len() + live_at(entries, now).len() == entries.len(),
        forall|k: int|
            0 <= k < expired_at(entries, now).len() ==> (#[trigger] expired_at(
                entries,
                now,
            )[k]).is_expired(now),
        forall|k: int|
            0 <= k < live_at(entries, now).len() ==> !(#[trigger] live_at(
                entries,
                now,
            )[k]).is_expired(now),
        forall|k: int|
            0 <= k < entries.len() ==> if (#[trigger] entries[k]).is_expired(now) {
                expired_at(entries, now).contains(entries[k])
            } else {
                live_at(entries, now).contains(entries[k])
            },
        distinct_ids(entries) ==> distinct_ids(expired_at(entries, now)) && distinct_ids(
            live_at(entries, now),
        ),
    decreases entries.len(),
{
    let expired = expired_at(entries, now);
    let live = live_at(entries, now);
    if entries.len() > 0 {
        let front = entries.drop_last();
        let last = entries.last();
        let front_expired = expired_at(front, now);
        let front_live = live_at(front, now);
        lemma_sweep(front, now);
        assert(entries[entries.len() - 1] == last);
        assert forall|k: int| 0 <= k < expired.len() implies entries.contains(
            #[trigger] expired[k],
        ) by {
            if k < front_expired.len() {
                assert(front.contains(front_expired[k]));
                let j = choose|j: int| 0 <= j < front.len() && front[j] == front_expired[k];
                assert(entries[j] == expired[k]);
            }
        }
        assert forall|k: int| 0 <= k < live.len() implies entries.contains(#[trigger] live[k]) by {
            if k < front_live.len() {
                assert(front.contains(front_live[k]));
                let j = choose|j: int| 0 <= j < front.len() && front[j] == front_live[k];
                assert(entries[j] == live[k]);
            }
        }
        assert forall|k: int| 0 <= k < entries.len() implies if (
        #[trigger] entries[k]).is_expired(now) {
            expired.contains(entries[k])
        } else {
            live.contains(entries[k])
        } by {
            if k < front.len() {
                assert(front[k] == entries[k]);
                if entries[k].is_expired(now) {
                    let m = choose|m: int|
                        0 <= m < front_expired.len() && front_expired[m] == front[k];
                    assert(expired[m] == entries[k]);
                } else {
                    let m = choose|m: int| 0 <= m < front_live.len() && front_live[m] == front[k];
                    assert(live[m] == entries[k]);
                }
            } else {
                if last.is_expired(now) {
                    assert(expired[expired.len() - 1] == last);
                } else {
                    assert(live[live.len() - 1] == last);
                }
            }
        }
        if distinct_ids(entries) {
            assert(distinct_ids(front)) by {
                assert forall|a: int, b: int| 0 <= a < b < front.len() implies (
                #[trigger] front[a]).sequence_id != (#[trigger] front[b]).sequence_id by {
                    assert(entries[a] == front[a] && entries[b] == front[b]);
                }
            }
            assert forall|a: int, b: int| 0 <= a < b < expired.len() implies (
            #[trigger] expired[a]).sequence_id != (#[trigger] expired[b]).sequence_id by {
                if b == front_expired.len() {
                    assert(front.contains(front_expired[a]));
                    let m = choose|m: int| 0 <= m < front.len() && front[m] == front_expired[a];
                    assert(entries[m] == expired[a]);
                }
            }
            assert forall|a: int, b: int| 0 <= a < b < live.len() implies (
            #[trigger] live[a]).sequence_id != (#[trigger] live[b]).sequence_id by {
                if b == front_live.len() {
                    assert(front.contains(front_live[a]));
                    let m = choose|m: int| 0 <= m < front.len() && front[m] == front_live[a];
                    assert(entries[m] == live[a]);
                }
            }
        }
    }
}

/// Among distinct ids, leaving one id out changes nothing for the others.
pub proof fn lemma_without_keeps(entries: Seq<PendingRequest>, id: u32, other: u32)
    requires
        distinct_ids(entries),
        other != id,
    ensures
        lookup(without(entries, id), other) == lookup(entries, other),
{
    let rest = without(entries, id);
    lemma_without(entries, id);
    if has_id(entries, other) {
        let j = choose|j: int|
            0 <= j < entries.len() && (#[trigger] entries[j]).sequence_id == other;
        assert(rest.contains(entries[j]));
        let m = choose|m: int| 0 <= m < rest.len() && rest[m] == entries[j];
        lemma_lookup(rest, m);
        lemma_lookup(entries, j);
    }
}

/// Among distinct ids, a sweep takes out the request under an id exactly
/// when its timeout has passed, and changes nothing for the others.
pub proof fn lemma_sweep_by_id(entries: Seq<PendingRequest>, now: u64, id: u32)
    requires
        distinct_ids(entries),
    ensures
        match lookup(entries, id) {
            Some(request) => if request.is_expired(now) {
                &&& ids_of(expired_at(entries, now)).contains(id)
                &&& !has_id(live_at(entries, now), id)
            } else {
                &&& !ids_of(expired_at(entries, now)).contains(id)
                &&& lookup(live_at(entries, now), id) == Some(request)
            },
            None => {
                &&& !ids_of(expired_at(entries, now)).contains(id)
                &&& !has_id(live_at(entries, now), id)
            },
        },
{
    let expired = expired_at(entries, now);
    let live = live_at(entries, now);
    lemma_sweep(entries, now);
    lemma_ids_of_distinct(expired);
    if has_id(expired, id) {
        let k = choose|k: int| 0 <= k < expired.len() && (#[trigger] expired[k]).sequence_id == id;
        assert(entries.contains(expired[k]));
        let j = choose|j: int| 0 <= j < entries.len() && entries[j] == expired[k];
        lemma_lookup(entries, j);
    }
    if has_id(live, id) {
        let k = choose|k: int| 0 <= k < live.len() && (#[trigger] live[k]).sequence_id == id;
        assert(entries.contains(live[k]));
        let j = choose|j: int| 0 <= j < entries.len() && entries[j] == live[k];
        lemma_lookup(entries, j);
        lemma_lookup(live, k);
    }
    if has_id(entries, id) {
        let j = choose|j: int| 0 <= j < entries.len() && (#[trigger] entries[j]).sequence_id == id;
        lemma_lookup(entries, j);
        if entries[j].is_expired(now) {
            assert(expired.contains(entries[j]));
            let m = choose|m: int| 0 <= m < expired.len() && expired[m] == entries[j];
            assert(expired[m].sequence_id == id);
        } else {
            assert(live.contains(entries[j]));
            let m = choose|m: int| 0 <= m < live.len() && live[m] == entries[j];
            assert(live[m].sequence_id == id);
        }
    }
}

/// The pending requests of one connection, in the order of submission. No
/// two of them share a sequence id.
#[derive(Debug)]
pub struct PendingTable {
    entries: Vec<PendingRequest>,
}

impl View for PendingTable {
    type V = Seq<PendingRequest>;

    closed spec fn view(&self) -> Seq<PendingRequest> {
        self.entries@
    }
}

impl PendingTable {
    /// No two requests of a table share a sequence id.
    #[verifier::type_invariant]
    pub open spec fn well_formed(&self) -> bool {
        distinct_ids(self@)
    }

    /// A table without entries.
    pub fn new() -> (table: PendingTable)
        ensures
            table@ == Seq::<PendingRequest>::empty(),
    {
        PendingTable { entries: Vec::new() }
    }

    /// The number of pending requests.
    pub fn len(&self) -> (len: usize)
        ensures
            len == self@.len(),
            distinct_ids(self@),
    {
        proof {
            use_type_invariant(self);
        }
        self.entries.len()
    }

    /// Whether no request is pending.
    pub fn is_empty(&self) -> (empty: bool)
        ensures
            empty == (self@.len() == 0),
    {
        self.entries.len() == 0
    }

    /// Where the entry with the sequence id `id` stands.
    fn position(&self, id: u32) -> (position: Option<usize>)
        ensures
            distinct_ids(self@),
            match position {
                Some(i) => i < self@.len() && self@[i as int].sequence_id == id && lookup(self@, id)
                    == Some(self@[i as int]),
                None => !has_id(self@, id) && lookup(self@, id) is None,
            },
    {
        proof {
            use_type_invariant(self);
        }
        let mut i: usize = 0;
        while i < self.entries.len()
            invariant
                i <= self.entries@.len(),
                distinct_ids(self.entries@),
                forall|k: int| 0 <= k < i ==> (#[trigger] self.entries@[k]).sequence_id != id,
            decreases self.entries@.len() - i,
        {
            if self.entries[i].sequence_id == id {
                proof {
                    lemma_lookup(self.entries@, i as int);
                }
                return Some(i);
            }
            i += 1;
        }
        None
    }

    /// Whether a request with the sequence id `id` is pending.
    pub fn contains(&self, id: u32) -> (found: bool)
        ensures
            found == has_id(self@, id),
    {
        self.position(id).is_some()
    }

    /// The pending request with the sequence id `id`.
    pub fn get(&self, id: u32) -> (found: Option<PendingRequest>)
        ensures
            found == lookup(self@, id),
    {
        match self.position(id) {
            Some(i) => Some(self.entries[i]),
            None => None,
        }
    }

    /// Registers `request`. A request that is still pending under the same
    /// sequence id gives way to it.
    pub fn insert(&mut self, request: PendingRequest)
        ensures
            final(self)@ == without(old(self)@, request.sequence_id).push(request),
            distinct_ids(final(self)@),
    {
        let ghost before = self@;
        match self.position(request.sequence_id) {
            Some(i) => {
                proof {
                    lemma_without_is_remove(before, i as int);
                }
                let _ = self.remove_entry(i);
            },
            None => {},
        }
        proof {
            lemma_without(before, request.sequence_id);
        }
        self.push_entry(request);
    }

    /// Takes out the entry at `i`.
    fn remove_entry(&mut self, i: usize) -> (entry: PendingRequest)
        requires
            i < old(self)@.len(),
        ensures
            entry == old(self)@[i as int],
            final(self)@ == old(self)@.remove(i as int),
            final(self)@ == without(old(self)@, entry.sequence_id),
    {
        proof {
            use_type_invariant(&*self);
            lemma_without_is_remove(self.entries@, i as int);
            lemma_without(self.entries@, self.entries@[i as int].sequence_id);
        }
        let mut entries: Vec<PendingRequest> = Vec::new();
        std::mem::swap(&mut entries, &mut self.entries);
        let entry = entries.remove(i);
        self.entries = entries;
        entry
    }

    /// Adds an entry whose id is not in the table.
    fn push_entry(&mut self, request: PendingRequest)
        requires
            !has_id(old(self)@, request.sequence_id),
        ensures
            final(self)@ == old(self)@.push(request),
            distinct_ids(final(self)@),
    {
        proof {
            use_type_invariant(&*self);
        }
        let ghost before = self.entries@;
        assert(distinct_ids(before.push(request))) by {
            let after = before.push(request);
            assert forall|a: int, b: int| 0 <= a < b < after.len() implies (
            #[trigger] after[a]).sequence_id != (#[trigger] after[b]).sequence_id by {
                assert(before[a] == after[a]);
                if b < before.len() {
                    assert(before[b] == after[b]);
                }
            }
        }
        let mut entries: Vec<PendingRequest> = Vec::new();
        std::mem::swap(&mut entries, &mut self.entries);
        entries.push(request);
        self.entries = entries;
    }

    /// Takes the request with the sequence id `id` out of the table, if it is
    /// there. Every other request stays.
    pub fn remove(&mut self, id: u32) -> (removed: Option<PendingRequest>)
        ensures
            removed == lookup(old(self)@, id),
            final(self)@ == without(old(self)@, id),
            distinct_ids(final(self)@),
    {
        proof {
            use_type_invariant(&*self);
            lemma_without(self@, id);
        }
        match self.position(id) {
            Some(i) => Some(self.remove_entry(i)),
            None => None,
        }
    }

    /// Notes that the request with the sequence id `id` was written at `now`:
    /// its timeout runs from then on. Without such a request nothing changes.
    pub fn mark_written(&mut self, id: u32, now: u64)
        ensures
            final(self)@ == written_at(old(self)@, id, now),
            distinct_ids(final(self)@),
    {
        proof {
            use_type_invariant(&*self);
        }
        let ghost before = self.entries@;
        match self.position(id) {
            Some(i) => {
                let entry = self.entries[i];
                let marked = PendingRequest {
                    sequence_id: entry.sequence_id,
                    submitted_at: now,
                    timeout: entry.timeout,
                    written: true,
                };
                let mut entries: Vec<PendingRequest> = Vec::new();
                std::mem::swap(&mut entries, &mut self.entries);
                entries.set(i, marked);
                assert(entries@ =~= written_at(before, id, now)) by {
                    assert forall|k: int| 0 <= k < before.len() implies entries@[k] == written_at(
                        before,
                        id,
                        now,
                    )[k] by {
                        if k < i {
                            assert(before[k].sequence_id != before[i as int].sequence_id);
                        } else if k > i {
                            assert(before[i as int].sequence_id != before[k].sequence_id);
                        }
                    }
                }
                proof {
                    lemma_written_at(before, id, now);
                }
                self.entries = entries;
            },
            None => {
                assert(before =~= written_at(before, id, now));
            },
        }
    }

    /// Takes out every request whose timeout has passed at `now` and gives
    /// their sequence ids, in the order of submission. The others stay.
    pub fn sweep(&mut self, now: u64) -> (expired: Vec<u32>)
        ensures
            expired@ == ids_of(expired_at(old(self)@, now)),
            final(self)@ == live_at(old(self)@, now),
            distinct_ids(final(self)@),
            expired@.no_duplicates(),
    {
        proof {
            use_type_invariant(&*self);
        }
        let ghost before = self.entries@;
        let mut entries: Vec<PendingRequest> = Vec::new();
        std::mem::swap(&mut entries, &mut self.entries);
        let mut live: Vec<PendingRequest> = Vec::new();
        let mut expired: Vec<u32> = Vec::new();
        let mut i: usize = 0;
        assert(before.take(0) =~= Seq::<PendingRequest>::empty());
        while i < entries.len()
            invariant
                i <= entries@.len(),
                entries@ == before,
                live@ == live_at(before.take(i as int), now),
                expired@ == ids_of(expired_at(before.take(i as int), now)),
            decreases entries@.len() - i,
        {
            let entry = entries[i];
            assert(before.take(i + 1).drop_last() =~= before.take(i as int));
            assert(before.take(i + 1).last() == entry);
            if entry.expired(now) {
                expired.push(entry.sequence_id);
                assert(expired@ =~= ids_of(expired_at(before.take(i + 1), now)));
            } else {
                live.push(entry);
            }
            i += 1;
        }
        assert(before.take(i as int) =~= before);
        proof {
            lemma_sweep(before, now);
            lemma_ids_of_distinct(expired_at(before, now));
        }
        self.entries = live;
        expired
    }

    /// Takes out every request and gives their sequence ids, each once, in
    /// the order of submission.
    pub fn drain(&mut self) -> (ids: Vec<u32>)
        ensures
            ids@ == ids_of(old(self)@),
            ids@.no_duplicates(),
            final(self)@ == Seq::<PendingRequest>::empty(),
    {
        proof {
            use_type_invariant(&*self);
            lemma_ids_of_distinct(self.entries@);
        }
        let mut entries: Vec<PendingRequest> = Vec::new();
        std::mem::swap(&mut entries, &mut self.entries);
        let mut ids: Vec<u32> = Vec::with_capacity(entries.len());
        let mut i: usize = 0;
        while i < entries.len()
            invariant
                i <= entries@.len(),
                ids@ == ids_of(entries@.take(i as int)),
            decreases entries@.len() - i,
        {
            ids.push(entries[i].sequence_id);
            assert(ids@ =~= ids_of(entries@.take(i + 1)));
            i += 1;
        }
        assert(entries@.take(i as int) =~= entries@);
        ids
    }
}

/// Noting a write changes no sequence id.
pub proof fn lemma_written_at(entries: Seq<PendingRequest>, id: u32, now: u64)
    ensures
        ids_of(written_at(entries, id, now)) == ids_of(entries),
        distinct_ids(entries) ==> distinct_ids(written_at(entries, id, now)),
        forall|other: u32|
            #[trigger] has_id(written_at(entries, id, now), other) <==> has_id(entries, other),
{
    let after = written_at(entries, id, now);
    assert(ids_of(after) =~= ids_of(entries));
    if distinct_ids(entries) {
        assert forall|a: int, b: int| 0 <= a < b < after.len() implies (
        #[trigger] after[a]).sequence_id != (#[trigger] after[b]).sequence_id by {
            assert(entries[a].sequence_id != entries[b].sequence_id);
        }
    }
    assert forall|other: u32| #[trigger]
        has_id(after, other) <==> has_id(entries, other) by {
        if has_id(after, other) {
            let k = choose|k: int| 0 <= k < after.len() && (#[trigger] after[k]).sequence_id == other;
            assert(entries[k].sequence_id == other);
        }
        if has_id(entries, other) {
            let k = choose|k: int|
                0 <= k < entries.len() && (#[trigger] entries[k]).sequence_id == other;
            assert(after[k].sequence_id == other);
        }
    }
}

/// The ids of entries with distinct ids hold no id twice, and an id is among
/// them exactly when some entry has it.
pub proof fn lemma_ids_of_distinct(entries: Seq<PendingRequest>)
    ensures
        distinct_ids(entries) ==> ids_of(entries).no_duplicates(),
        forall|id: u32| #[trigger] ids_of(entries).contains(id) <==> has_id(entries, id),
{
    let ids = ids_of(entries);
    if distinct_ids(entries) {
        assert forall|a: int, b: int| 0 <= a < ids.len() && 0 <= b < ids.len() && a != b implies ids[a]
            != ids[b] by {
            if a < b {
                assert(entries[a].sequence_id != entries[b].sequence_id);
            } else {
                assert(entries[b].sequence_id != entries[a].sequence_id);
            }
        }
    }
    assert forall|id: u32| #[trigger] ids.contains(id) <==> has_id(entries, id) by {
        if ids.contains(id) {
            let k = choose|k: int| 0 <= k < ids.len() && ids[k] == id;
            assert(entries[k].sequence_id == id);
        }
        if has_id(entries, id) {
            let k = choose|k: int|
                0 <= k < entries.len() && (#[trigger] entries[k]).sequence_id == id;
            assert(ids[k] == id);
        }
    }
}

} // verus!
