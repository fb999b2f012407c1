//! The event store: rows keyed by identity, with an upsert and a search.
//!
//! One identity is used throughout, for finding a row and for changing it:
//! the key of sender, position, start time and end time. An event whose key
//! is already stored replaces the descriptive fields of that row, title
//! included; an event with a new key is appended as a new row. Rows are never
//! removed, and they are kept, and reported, in the order in which their keys
//! first arrived.

use vstd::prelude::*;
use crate::event::{
    lemma_validated_len, validate_all, validated_all, EventKey, EventView, ExtractedEvent,
    MalformedEventError, MissingFieldPolicy,
};
use crate::json::{events_from_json, raw_events_of};
use crate::text::{contains, str_contains};

verus! {

/// A stored row: a surrogate id and the event.
#[derive(Clone, Debug, PartialEq, Eq)]
pub struct StoredEvent {
    pub id: u64,
    pub event: ExtractedEvent,
}

/// The mathematical value of a [`StoredEvent`].
pub struct RowView {
    pub id: nat,
    pub event: EventView,
}

impl DeepView for StoredEvent {
    type V = RowView;

    open spec fn deep_view(&self) -> RowView {
        RowView { id: self.id as nat, event: self.event@ }
    }
}

impl View for StoredEvent {
    type V = RowView;

    open spec fn view(&self) -> RowView {
        self.deep_view()
    }
}

impl StoredEvent {
    /// A copy of this row.
    pub fn duplicate(&self) -> (copy: StoredEvent)
        ensures
            copy@ == self@,
    {
        StoredEvent { id: self.id, event: self.event.duplicate() }
    }
}

/// No two rows of `rows` share an identity key.
pub open spec fn keys_distinct(rows: Seq<RowView>) -> bool {
    forall|i: int, j: int|
        0 <= i < j < rows.len() ==> (#[trigger] rows[i]).event.key() != (
        #[trigger] rows[j]).event.key()
}

/// No two rows of `rows` share an id.
pub open spec fn ids_distinct(rows: Seq<RowView>) -> bool {
    forall|i: int, j: int|
        0 <= i < j < rows.len() ==> (#[trigger] rows[i]).id != (#[trigger] rows[j]).id
}

/// The largest id among `rows`, or 0 where there is no row.
pub open spec fn max_id(rows: Seq<RowView>) -> nat
    decreases rows.len(),
{
    if rows.len() == 0 {
        0
    } else {
        let before = max_id(rows.drop_last());
        if rows.last().id > before {
            rows.last().id
        } else {
            before
        }
    }
}

/// The mathematical value of an [`EventStore`]: its rows in storage order and
/// the id that the next new row gets.
pub struct StoreView {
    pub rows: Seq<RowView>,
    pub next_id: nat,
}

/// Some row of `rows` has the key `key`.
pub open spec fn has_key(rows: Seq<RowView>, key: EventKey) -> bool {
    exists|at: int| 0 <= at < rows.len() && (#[trigger] rows[at]).event.key() == key
}

/// The position of the first row of `rows` that has the key `key`.
pub open spec fn index_of_key(rows: Seq<RowView>, key: EventKey) -> int {
    choose|at: int|
        0 <= at < rows.len() && (#[trigger] rows[at]).event.key() == key && forall|before: int|
            0 <= before < at ==> (#[trigger] rows[before]).event.key() != key
}

impl StoreView {
    /// The store without rows.
    pub open spec fn empty() -> StoreView {
        StoreView { rows: Seq::empty(), next_id: 1 }
    }

    /// No two rows share a key, no two rows share an id, and every id is
    /// below the next one to be given out.
    pub open spec fn wf(self) -> bool {
        &&& keys_distinct(self.rows)
        &&& ids_distinct(self.rows)
        &&& forall|i: int| 0 <= i < self.rows.len() ==> (#[trigger] self.rows[i]).id < self.next_id
    }

    /// The store after `event` has been put into it: the row with the key of
    /// `event` now holds `event` and keeps its id and its place; if there was
    /// none, a new row with the next id stands at the end.
    pub open spec fn upsert(self, event: EventView) -> StoreView {
        if has_key(self.rows, event.key()) {
            let at = index_of_key(self.rows, event.key());
            StoreView {
                rows: self.rows.update(at, RowView { id: self.rows[at].id, event }),
                next_id: self.next_id,
            }
        } else {
            StoreView {
                rows: self.rows.push(RowView { id: self.next_id, event }),
                next_id: self.next_id + 1,
            }
        }
    }

    /// The store after each event of `events` has been put into it, in order.
    pub open spec fn upsert_all(self, events: Seq<EventView>) -> StoreView
        decreases events.len(),
    {
        if events.len() == 0 {
            self
        } else {
            self.upsert_all(events.drop_last()).upsert(events.last())
        }
    }

    /// How many of `events`, put into the store in order, arrive with a key
    /// that the store does not hold at that moment.
    pub open spec fn inserted_by(self, events: Seq<EventView>) -> nat
        decreases events.len(),
    {
        if events.len() == 0 {
            0
        } else {
            let before = self.upsert_all(events.drop_last());
            let earlier = self.inserted_by(events.drop_last());
            if has_key(before.rows, events.last().key()) {
                earlier
            } else {
                earlier + 1
            }
        }
    }

    /// How many of `events`, put into the store in order, arrive with a key
    /// that the store holds at that moment.
    pub open spec fn updated_by(self, events: Seq<EventView>) -> nat {
        (events.len() - self.inserted_by(events)) as nat
    }

    /// The rows whose start time contains `needle`, in storage order.
    pub open spec fn search(self, needle: Seq<char>) -> Seq<RowView> {
        self.rows.filter(starts_in(needle))
    }
}

/// The test that a search applies to each row: the start time of the row
/// contains `needle`, compared character by character.
pub open spec fn starts_in(needle: Seq<char>) -> spec_fn(RowView) -> bool {
    |row: RowView| contains(row.event.time_begin, needle)
}

/// Why a set of rows cannot be taken as a store.
#[derive(Clone, Copy, Debug, PartialEq, Eq, Structural)]
pub enum StoreError {
    /// Two rows share an identity key.
    DuplicateKey,
    /// Two rows share an id.
    DuplicateId,
    /// A row has the largest id there is, so that no further row could get
    /// one.
    IdsExhausted,
}

/// What [`EventStore::from_rows`] makes of `rows`.
pub open spec fn store_of(rows: Seq<RowView>) -> Result<StoreView, StoreError> {
    if !keys_distinct(rows) {
        Err(StoreError::DuplicateKey)
    } else if !ids_distinct(rows) {
        Err(StoreError::DuplicateId)
    } else if max_id(rows) >= u64::MAX {
        Err(StoreError::IdsExhausted)
    } else {
        Ok(StoreView { rows, next_id: max_id(rows) + 1 })
    }
}

/// What one upsert did.
#[derive(Clone, Copy, Debug, PartialEq, Eq, Structural)]
pub enum UpsertOutcome {
    /// The key was new: a row was added.
    Inserted,
    /// The key was stored already: its row was changed.
    Updated,
}

/// The largest id is at least every id.
pub proof fn lemma_max_id(rows: Seq<RowView>, at: int)
    requires
        0 <= at < rows.len(),
    ensures
        rows[at].id <= max_id(rows),
    decreases rows.len(),
{
    if at < rows.len() - 1 {
        lemma_max_id(rows.drop_last(), at);
    }
}

/// A position whose row has the key, and before which no row has it, is the
/// position of the key.
pub proof fn lemma_index_of_key(rows: Seq<RowView>, key: EventKey, at: int)
    requires
        0 <= at < rows.len(),
        rows[at].event.key() == key,
        forall|before: int| 0 <= before < at ==> (#[trigger] rows[before]).event.key() != key,
    ensures
        has_key(rows, key),
        index_of_key(rows, key) == at,
{
    let chosen = index_of_key(rows, key);
    if chosen < at {
        assert(rows[chosen].event.key() != key);
    }
    if at < chosen {
        assert(rows[at].event.key() != key);
    }
}

/// In a store that holds the key, the position of the key is that of the one
/// row that has it.
pub proof fn lemma_key_position(store: StoreView, key: EventKey)
    requires
        store.wf(),
        has_key(store.rows, key),
    ensures
        0 <= index_of_key(store.rows, key) < store.rows.len(),
        store.rows[index_of_key(store.rows, key)].event.key() == key,
        forall|at: int|
            0 <= at < store.rows.len() && (#[trigger] store.rows[at]).event.key() == key ==> at
                == index_of_key(store.rows, key),
{
    let rows = store.rows;
    let witness = choose|at: int| 0 <= at < rows.len() && (#[trigger] rows[at]).event.key() == key;
    assert forall|before: int| 0 <= before < witness implies (#[trigger] rows[before]).event.key()
        != key by {
        assert(rows[before].event.key() != rows[witness].event.key());
    }
    lemma_index_of_key(rows, key, witness);
    assert forall|at: int|
        0 <= at < rows.len() && (#[trigger] rows[at]).event.key() == key implies at == witness by {
        if at < witness {
            assert(rows[at].event.key() != rows[witness].event.key());
        }
        if witness < at {
            assert(rows[witness].event.key() != rows[at].event.key());
        }
    }
}

/// An upsert keeps the store well formed.
pub proof fn lemma_upsert_keeps_wf(store: StoreView, event: EventView)
    requires
        store.wf(),
    ensures
        store.upsert(event).wf(),
{
    let after = store.upsert(event);
    if has_key(store.rows, event.key()) {
        lemma_key_position(store, event.key());
        let at = index_of_key(store.rows, event.key());
        assert forall|i: int, j: int| 0 <= i < j < after.rows.len() implies (
        #[trigger] after.rows[i]).event.key() != (#[trigger] after.rows[j]).event.key() by {
            assert(store.rows[i].event.key() != store.rows[j].event.key());
        }
        assert forall|i: int, j: int| 0 <= i < j < after.rows.len() implies (
        #[trigger] after.rows[i]).id != (#[trigger] after.rows[j]).id by {
            assert(store.rows[i].id != store.rows[j].id);
        }
        assert forall|i: int| 0 <= i < after.rows.len() implies (#[trigger] after.rows[i]).id
            < after.next_id by {
            assert(store.rows[i].id < store.next_id);
        }
    } else {
        assert forall|i: int, j: int| 0 <= i < j < after.rows.len() implies (
        #[trigger] after.rows[i]).event.key() != (#[trigger] after.rows[j]).event.key() by {
            if j < store.rows.len() {
                assert(store.rows[i].event.key() != store.rows[j].event.key());
            } else {
                assert(store.rows[i].event.key() != event.key());
            }
        }
        assert forall|i: int, j: int| 0 <= i < j < after.rows.len() implies (
        #[trigger] after.rows[i]).id != (#[trigger] after.rows[j]).id by {
            if j < store.rows.len() {
                assert(store.rows[i].id != store.rows[j].id);
            } else {
                assert(store.rows[i].id < store.next_id);
            }
        }
        assert forall|i: int| 0 <= i < after.rows.len() implies (#[trigger] after.rows[i]).id
            < after.next_id by {
            if i < store.rows.len() {
                assert(store.rows[i].id < store.next_id);
            }
        }
    }
}


/// The rows of the store, at most one per identity key.
pub struct EventStore {
    rows: Vec<StoredEvent>,
    next_id: u64,
}

impl View for EventStore {
    type V = StoreView;

    closed spec fn view(&self) -> StoreView {
        StoreView { rows: self.rows.deep_view(), next_id: self.next_id as nat }
    }
}

impl EventStore {
    #[verifier::type_invariant]
    spec fn well_formed(self) -> bool {
        self@.wf()
    }

    /// A store without rows.
    pub fn new() -> (store: EventStore)
        ensures
            store@ == StoreView::empty(),
            store@.wf(),
    {
        let store = EventStore { rows: Vec::new(), next_id: 1 };
        assert(store@.rows =~= Seq::empty());
        store
    }

    /// The rows, in storage order.
    pub fn rows(&self) -> (rows: &Vec<StoredEvent>)
        ensures
            rows.deep_view() == self@.rows,
            self@.wf(),
    {
        proof {
            use_type_invariant(self);
        }
        &self.rows
    }

    /// The id that the next new row gets.
    pub fn next_id(&self) -> (id: u64)
        ensures
            id == self@.next_id,
    {
        self.next_id
    }

    /// The position of the row that has the key of `event`.
    pub fn find_key(&self, event: &ExtractedEvent) -> (found: Option<usize>)
        ensures
            match found {
                Some(at) => has_key(self@.rows, event@.key()) && at == index_of_key(
                    self@.rows,
                    event@.key(),
                ),
                None => !has_key(self@.rows, event@.key()),
            },
    {
        let ghost rows = self@.rows;
        let ghost key = event@.key();
        let mut at: usize = 0;
        while at < self.rows.len()
            invariant
                rows == self@.rows,
                key == event@.key(),
                at <= self.rows.len(),
                forall|before: int| 0 <= before < at ==> (#[trigger] rows[before]).event.key() != key,
            decreases self.rows.len() - at,
        {
            if self.rows[at].event.same_key(event) {
                proof {
                    lemma_index_of_key(rows, key, at as int);
                }
                return Some(at);
            }
            at += 1;
        }
        None
    }

    /// Puts `event` into the store: the row with its key is replaced, or a
    /// new row is added at the end.
    pub fn upsert_event(&mut self, event: ExtractedEvent) -> (outcome: UpsertOutcome)
        requires
            old(self)@.next_id < u64::MAX,
        ensures
            final(self)@ == old(self)@.upsert(event@),
            final(self)@.wf(),
            outcome == if has_key(old(self)@.rows, event@.key()) {
                UpsertOutcome::Updated
            } else {
                UpsertOutcome::Inserted
            },
    {
        proof {
            use_type_invariant(&*self);
            lemma_upsert_keeps_wf(self@, event@);
        }
        let found = self.find_key(&event);
        let mut rows: Vec<StoredEvent> = Vec::new();
        match found {
            Some(at) => {
                std::mem::swap(&mut rows, &mut self.rows);
                let id = rows[at].id;
                rows.set(at, StoredEvent { id, event });
                assert(rows.deep_view() =~= old(self)@.upsert(event@).rows);
                self.rows = rows;
                UpsertOutcome::Updated
            },
            None => {
                let id = self.next_id;
                self.next_id = id + 1;
                std::mem::swap(&mut rows, &mut self.rows);
                rows.push(StoredEvent { id, event });
                assert(rows.deep_view() =~= old(self)@.upsert(event@).rows);
                self.rows = rows;
                UpsertOutcome::Inserted
            },
        }
    }
}

/// Whether some row before position `at` has the key of the row at `at`.
fn key_seen_before(rows: &Vec<StoredEvent>, at: usize) -> (seen: bool)
    requires
        at < rows.len(),
    ensures
        seen == exists|i: int|
            0 <= i < at && (#[trigger] rows.deep_view()[i]).event.key()
                == rows.deep_view()[at as int].event.key(),
{
    let ghost view = rows.deep_view();
    let mut i: usize = 0;
    while i < at
        invariant
            view == rows.deep_view(),
            i <= at < rows.len(),
            forall|k: int|
                0 <= k < i ==> (#[trigger] view[k]).event.key() != view[at as int].event.key(),
        decreases at - i,
    {
        if rows[i].event.same_key(&rows[at].event) {
            assert(view[i as int].event.key() == view[at as int].event.key());
            return true;
        }
        i += 1;
    }
    false
}

/// Whether some row before position `at` has the id of the row at `at`.
fn id_seen_before(rows: &Vec<StoredEvent>, at: usize) -> (seen: bool)
    requires
        at < rows.len(),
    ensures
        seen == exists|i: int|
            0 <= i < at && (#[trigger] rows.deep_view()[i]).id == rows.deep_view()[at as int].id,
{
    let ghost view = rows.deep_view();
    let mut i: usize = 0;
    while i < at
        invariant
            view == rows.deep_view(),
            i <= at < rows.len(),
            forall|k: int| 0 <= k < i ==> (#[trigger] view[k]).id != view[at as int].id,
        decreases at - i,
    {
        if rows[i].id == rows[at].id {
            assert(view[i as int].id == view[at as int].id);
            return true;
        }
        i += 1;
    }
    false
}

impl EventStore {
    /// The store that holds exactly `rows`, in their order. Rows are refused
    /// if two of them share a key or an id, or if an id is the largest there
    /// is; otherwise the next new row gets the largest id plus one.
    pub fn from_rows(rows: Vec<StoredEvent>) -> (result: Result<EventStore, StoreError>)
        ensures
            match store_of(rows.deep_view()) {
                Ok(view) => result matches Ok(store) && store@ == view && view.wf(),
                Err(error) => result == Err::<EventStore, StoreError>(error),
            },
    {
        let ghost view = rows.deep_view();
        let mut largest: u64 = 0;
        let mut same_id = false;
        let mut at: usize = 0;
        proof {
            assert(view.take(0) =~= Seq::empty());
        }
        while at < rows.len()
            invariant
                view == rows.deep_view(),
                at <= rows.len(),
                keys_distinct(view.take(at as int)),
                same_id == !ids_distinct(view.take(at as int)),
                largest == max_id(view.take(at as int)),
            decreases rows.len() - at,
        {
            let ghost seen = view.take(at as int);
            let ghost next = view.take(at + 1);
            let clash = (key_seen_before(&rows, at), id_seen_before(&rows, at));
            proof {
                assert(next.drop_last() =~= seen);
                assert(next.last() == view[at as int]);
                assert forall|i: int| 0 <= i < at implies #[trigger] next[i] == view[i] by {}
            }
            if clash.0 {
                proof {
                    let i = choose|i: int|
                        0 <= i < at && (#[trigger] view[i]).event.key() == view[at as int].event.key();
                    assert(view[i].event.key() == view[at as int].event.key());
                }
                return Err(StoreError::DuplicateKey);
            }
            proof {
                assert forall|i: int, j: int| 0 <= i < j < next.len() implies (
                #[trigger] next[i]).event.key() != (#[trigger] next[j]).event.key() by {
                    if j < at {
                        assert(seen[i].event.key() != seen[j].event.key());
                    } else {
                        assert(view[i].event.key() != view[at as int].event.key());
                    }
                }
                if clash.1 {
                    let i = choose|i: int| 0 <= i < at && (#[trigger] view[i]).id == view[at as int].id;
                    assert(next[i].id == next[at as int].id);
                } else if !same_id {
                    assert forall|i: int, j: int| 0 <= i < j < next.len() implies (
                    #[trigger] next[i]).id != (#[trigger] next[j]).id by {
                        if j < at {
                            assert(seen[i].id != seen[j].id);
                        } else {
                            assert(view[i].id != view[at as int].id);
                        }
                    }
                } else {
                    let (i, j) = choose|i: int, j: int|
                        0 <= i < j < seen.len() && (#[trigger] seen[i]).id == (#[trigger] seen[j]).id;
                    assert(next[i].id == next[j].id);
                }
            }
            if clash.1 {
                same_id = true;
            }
            if rows[at].id > largest {
                largest = rows[at].id;
            }
            at += 1;
        }
        proof {
            assert(view.take(at as int) =~= view);
        }
        if same_id {
            return Err(StoreError::DuplicateId);
        }
        if largest == u64::MAX {
            return Err(StoreError::IdsExhausted);
        }
        proof {
            assert forall|i: int| 0 <= i < view.len() implies (#[trigger] view[i]).id < largest
                + 1 by {
                lemma_max_id(view, i);
            }
        }
        Ok(EventStore { rows, next_id: largest + 1 })
    }

    /// Puts each event of `events` into the store, in order, and counts how
    /// many rows were added and how many were changed.
    pub fn upsert(&mut self, events: Vec<ExtractedEvent>) -> (counts: (usize, usize))
        requires
            old(self)@.next_id + events.len() <= u64::MAX,
        ensures
            final(self)@ == old(self)@.upsert_all(events.deep_view()),
            final(self)@.wf(),
            counts.0 == old(self)@.inserted_by(events.deep_view()),
            counts.1 == old(self)@.updated_by(events.deep_view()),
    {
        let ghost all = events.deep_view();
        let ghost start = self@;
        let mut inserted: usize = 0;
        let mut updated: usize = 0;
        proof {
            use_type_invariant(&*self);
            assert(all.take(0) =~= Seq::empty());
        }
        for event in it: events
            invariant
                it.seq().len() == all.len(),
                all.len() <= usize::MAX,
                forall|k: int| 0 <= k < all.len() ==> (#[trigger] it.seq()[k])@ == all[k],
                start.next_id + all.len() <= u64::MAX,
                self@ == start.upsert_all(all.take(it.index())),
                self@.wf(),
                self@.next_id == start.next_id + inserted,
                inserted == start.inserted_by(all.take(it.index())),
                inserted + updated == it.index(),
        {
            proof {
                let k = it.index();
                assert(all.take(k + 1).drop_last() =~= all.take(k));
                assert(all.take(k + 1).last() == all[k]);
            }
            match self.upsert_event(event) {
                UpsertOutcome::Inserted => {
                    inserted += 1;
                },
                UpsertOutcome::Updated => {
                    updated += 1;
                },
            }
        }
        proof {
            assert(all.take(all.len() as int) =~= all);
        }
        (inserted, updated)
    }

    /// The rows whose start time contains `needle`, in storage order. The
    /// comparison is exact: case matters, and no character of `needle` is a
    /// wildcard.
    pub fn search_by_time_begin(&self, needle: &str) -> (found: Vec<StoredEvent>)
        ensures
            found.deep_view() == self@.search(needle@),
    {
        let ghost rows = self@.rows;
        let ghost test = starts_in(needle@);
        let mut found: Vec<StoredEvent> = Vec::new();
        let mut at: usize = 0;
        proof {
            reveal(Seq::filter);
            assert(rows.take(0) =~= Seq::empty());
            assert(found.deep_view() =~= rows.take(0).filter(test));
        }
        while at < self.rows.len()
            invariant
                rows == self@.rows,
                test == starts_in(needle@),
                at <= self.rows.len(),
                found.deep_view() == rows.take(at as int).filter(test),
            decreases self.rows.len() - at,
        {
            let row = &self.rows[at];
            proof {
                reveal(Seq::filter);
                assert(rows.take(at + 1).drop_last() =~= rows.take(at as int));
                assert(rows.take(at + 1).last() == rows[at as int]);
            }
            let ghost before = found.deep_view();
            if str_contains(row.event.time_begin.as_str(), needle) {
                found.push(row.duplicate());
                assert(found.deep_view() =~= before.push(rows[at as int]));
            }
            at += 1;
        }
        proof {
            assert(rows.take(at as int) =~= rows);
        }
        found
    }
}

/// Puts the events that a list of JSON objects stands for into the store,
/// in order, and counts the rows added and the rows changed. The records are
/// validated first, all of them: where `policy` refuses one, the store is
/// left as it was and the first refused record is reported.
pub fn store_json_to_db(
    events: Vec<serde_json::Value>,
    store: &mut EventStore,
    policy: MissingFieldPolicy,
) -> (result: Result<(usize, usize), MalformedEventError>)
    requires
        old(store)@.next_id + events.len() <= u64::MAX,
    ensures
        final(store)@.wf(),
        match validated_all(raw_events_of(events@), policy) {
            Ok(valid) => result matches Ok(counts) && final(store)@ == old(store)@.upsert_all(
                valid,
            ) && counts.0 == old(store)@.inserted_by(valid) && counts.1
                == old(store)@.updated_by(valid),
            Err((index, missing)) => result matches Err(error) && error.index == index
                && error.missing@ == missing && final(store)@ == old(store)@,
        },
{
    let raws = events_from_json(&events);
    proof {
        lemma_validated_len(raws.deep_view(), policy);
    }
    match validate_all(&raws, policy) {
        Ok(valid) => Ok(store.upsert(valid)),
        Err(error) => {
            proof {
                use_type_invariant(&*store);
            }
            Err(error)
        },
    }
}

/// The rows of the store whose start time contains `search_string`, in
/// storage order.
pub fn search_events_by_time_begin(search_string: &str, store: &EventStore) -> (found: Vec<
    StoredEvent,
>)
    ensures
        found.deep_view() == store@.search(search_string@),
{
    store.search_by_time_begin(search_string)
}

/// Putting one event into a store is an upsert of that event, and counts as
/// an insert exactly when its key is new.
pub proof fn lemma_upsert_single(store: StoreView, event: EventView)
    ensures
        store.upsert_all(seq![event]) == store.upsert(event),
        store.inserted_by(seq![event]) == if has_key(store.rows, event.key()) {
            0nat
        } else {
            1nat
        },
        store.updated_by(seq![event]) == if has_key(store.rows, event.key()) {
            1nat
        } else {
            0nat
        },
{
    let one = seq![event];
    assert(one.drop_last() =~= Seq::empty());
    assert(one.last() == event);
    assert(store.upsert_all(one.drop_last()) == store);
    assert(store.inserted_by(one.drop_last()) == 0);
}

/// After an upsert the store holds the key of the event, in one row, and that
/// row holds the event.
pub proof fn lemma_upsert_stores(store: StoreView, event: EventView)
    requires
        store.wf(),
    ensures
        has_key(store.upsert(event).rows, event.key()),
        store.upsert(event).rows[index_of_key(store.upsert(event).rows, event.key())].event
            == event,
        has_key(store.rows, event.key()) ==> index_of_key(store.upsert(event).rows, event.key())
            == index_of_key(store.rows, event.key()),
        !has_key(store.rows, event.key()) ==> index_of_key(store.upsert(event).rows, event.key())
            == store.rows.len(),
{
    let after = store.upsert(event);
    lemma_upsert_keeps_wf(store, event);
    let at = if has_key(store.rows, event.key()) {
        lemma_key_position(store, event.key());
        index_of_key(store.rows, event.key())
    } else {
        store.rows.len() as int
    };
    assert(after.rows[at].event.key() == event.key());
    lemma_key_position(after, event.key());
}

/// However many events are put into a store, it stays well formed: no two
/// rows share an identity key or an id. The store grows by one row for each
/// event that counts as an insert, and by no other.
pub proof fn lemma_upsert_all(store: StoreView, events: Seq<EventView>)
    requires
        store.wf(),
    ensures
        store.upsert_all(events).wf(),
        store.inserted_by(events) + store.updated_by(events) == events.len(),
        store.upsert_all(events).rows.len() == store.rows.len() + store.inserted_by(events),
        store.upsert_all(events).next_id == store.next_id + store.inserted_by(events),
    decreases events.len(),
{
    if events.len() > 0 {
        lemma_upsert_all(store, events.drop_last());
        lemma_upsert_keeps_wf(store.upsert_all(events.drop_last()), events.last());
    }
}

/// Upsert is idempotent on the identity key. Put into a store that does not
/// hold its key, an event counts as one insert and no update. Put in again,
/// with the same key, it counts as no insert and one update: the store keeps
/// its rows, their ids and their order, and the row of the key holds what the
/// second call gave. A second call with the very same event changes nothing.
pub proof fn lemma_upsert_idempotent(store: StoreView, first: EventView, second: EventView)
    requires
        store.wf(),
        first.key() == second.key(),
    ensures
        !has_key(store.rows, first.key()) ==> store.inserted_by(seq![first]) == 1
            && store.updated_by(seq![first]) == 0,
        store.upsert_all(seq![first]).inserted_by(seq![second]) == 0,
        store.upsert_all(seq![first]).updated_by(seq![second]) == 1,
        ({
            let once = store.upsert_all(seq![first]);
            let twice = once.upsert_all(seq![second]);
            let at = index_of_key(once.rows, first.key());
            &&& twice.wf()
            &&& twice.next_id == once.next_id
            &&& twice.rows == once.rows.update(at, RowView { id: once.rows[at].id, event: second })
            &&& 0 <= at < once.rows.len()
            &&& once.rows[at].event == first
            &&& second == first ==> twice == once
        }),
{
    lemma_upsert_single(store, first);
    let once = store.upsert(first);
    lemma_upsert_single(once, second);
    lemma_upsert_keeps_wf(store, first);
    lemma_upsert_keeps_wf(once, second);
    lemma_upsert_stores(store, first);
    lemma_key_position(once, first.key());
    let at = index_of_key(once.rows, first.key());
    if second == first {
        assert(once.rows.update(at, RowView { id: once.rows[at].id, event: second })
            =~= once.rows);
    }
}

/// The identity key alone decides what is one record. Two events with the
/// same sender, position, start and end time are one record whatever else
/// differs between them, their titles included: after both have been put in,
/// the store has as many rows as after the first, exactly one of them has the
/// key, and it holds the second event.
pub proof fn lemma_same_key_one_row(store: StoreView, first: EventView, second: EventView)
    requires
        store.wf(),
        first.key() == second.key(),
    ensures
        ({
            let once = store.upsert(first);
            let twice = once.upsert(second);
            &&& twice.rows.len() == once.rows.len()
            &&& forall|i: int, j: int|
                0 <= i < twice.rows.len() && 0 <= j < twice.rows.len() && (
                #[trigger] twice.rows[i]).event.key() == second.key() && (
                #[trigger] twice.rows[j]).event.key() == second.key() ==> i == j
                    && twice.rows[i].event == second
        }),
{
    let once = store.upsert(first);
    let twice = once.upsert(second);
    lemma_upsert_keeps_wf(store, first);
    lemma_upsert_keeps_wf(once, second);
    lemma_upsert_stores(store, first);
    lemma_upsert_stores(once, second);
    lemma_key_position(twice, second.key());
}

/// A search returns exactly the rows whose start time contains the needle:
/// every such row of the store, and no other row.
pub proof fn lemma_search_exact(store: StoreView, needle: Seq<char>, row: RowView)
    ensures
        store.search(needle).contains(row) <==> store.rows.contains(row) && contains(
            row.event.time_begin,
            needle,
        ),
{
    let test = starts_in(needle);
    if store.search(needle).contains(row) {
        store.rows.lemma_filter_contains_rev(test, row);
        store.rows.filter_lemma(test);
    }
    if store.rows.contains(row) && contains(row.event.time_begin, needle) {
        let at = choose|at: int| 0 <= at < store.rows.len() && store.rows[at] == row;
        assert(test(store.rows[at]));
        store.rows.lemma_filter_contains(test, at);
    }
}

/// What is put in comes out unchanged. After an event has been put into a
/// store, a search for any part of its start time finds a row that holds the
/// event, every field as it was given.
pub proof fn lemma_round_trip(store: StoreView, event: EventView, needle: Seq<char>)
    requires
        store.wf(),
        contains(event.time_begin, needle),
    ensures
        exists|at: int|
            0 <= at < store.upsert(event).search(needle).len() && (
            #[trigger] store.upsert(event).search(needle)[at]).event == event,
{
    let after = store.upsert(event);
    lemma_upsert_stores(store, event);
    let row = after.rows[index_of_key(after.rows, event.key())];
    lemma_key_position(after, event.key());
    assert(after.rows.contains(row));
    lemma_search_exact(after, needle, row);
    let found = after.search(needle);
    let at = choose|at: int| 0 <= at < found.len() && found[at] == row;
    assert(found[at].event == event);
}

} // verus!
