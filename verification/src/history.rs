//! A store together with all writes that it ever gave an id, and the disk: what
//! holds after any series of events.

use crate::disk::{
    meta_steps, part_file, part_name, persist_steps, remove_steps, EntryPart, StepView,
};
use crate::files::{
    alike, carried_out, law_meta_update_stays_in_meta, law_removal_stays_in_entry,
    law_reported_persist_is_there, lemma_part_names, succeeded, under, Files,
};
use crate::hit::CompleteReader;
use crate::laws::{keys_gauge_accurate, law_entries_apart, law_keys_gauge_is_accurate};
use crate::layout::{entry_dir, key_hash, tmp_sibling};
use crate::probe::{complete, law_open_finds_complete_entries, probed, OpenView};
use crate::record::{MetaView, ObjectView, PartialView};
use crate::state::{
    lemma_finished_inv, lemma_forgotten_inv, lemma_meta_updated_inv,
    lemma_registered_inv, lemma_released_inv, lemma_same_partials_inv, new_writer,
    no_new_writers, purged_len, PurgeType, Settings, StoreState, WriterView,
};
use crate::storage::{found_in_memory, HitSource, Lookup};
use vstd::prelude::*;

verus! {

/// A store, and every write that was given an id, in that order.
#[verifier::ext_equal]
pub struct History {
    pub store: StoreState,
    pub writers: Seq<WriterView>,
}

/// Something that happens to a store.
pub enum Event {
    /// Someone asks for a handler.
    Admit { key: Seq<char>, meta: MetaView },
    /// Someone asks for a handler, with metadata that cannot be serialized.
    AdmitFailed { key: Seq<char> },
    /// A handler is given more of its body.
    Write { writer: int, data: Seq<u8> },
    /// A handler finishes.
    Finish { writer: int },
    /// A handler is given up.
    Drop { writer: int },
    /// The attempt to write an object to disk has ended.
    Persisted { key: Seq<char>, object: ObjectView, ok: bool },
    /// A key is purged.
    Purge { key: Seq<char>, purge_type: PurgeType, disk_len: Option<u64> },
    /// The metadata of a key is replaced.
    UpdateMeta { key: Seq<char>, meta: MetaView },
}

/// How many of the writes have not been released.
pub open spec fn live(writers: Seq<WriterView>) -> nat
    decreases writers.len(),
{
    if writers.len() == 0 {
        0
    } else {
        live(writers.drop_last()) + if writers.last().cleaned {
            0nat
        } else {
            1nat
        }
    }
}

/// The store lists `w` among its writes in progress.
pub open spec fn listed(s: StoreState, w: WriterView) -> bool {
    s.writers(w.key).contains_key(w.write_id)
}

/// How many of the writes the store lists as in progress.
pub open spec fn in_progress(s: StoreState, writers: Seq<WriterView>) -> nat
    decreases writers.len(),
{
    if writers.len() == 0 {
        0
    } else {
        in_progress(s, writers.drop_last()) + if listed(s, writers.last()) {
            1nat
        } else {
            0nat
        }
    }
}

/// `w` once its write is released.
pub open spec fn retired(w: WriterView) -> WriterView {
    WriterView { cleaned: true, ..w }
}

impl History {
    /// A store that was just built.
    pub open spec fn start(settings: Settings) -> History {
        History { store: StoreState::fresh(settings), writers: Seq::empty() }
    }

    /// After an event. A handler that has finished takes part in no further
    /// event. A write that failed for want of metadata is over at once.
    pub open spec fn after(self, settings: Settings, event: Event) -> History {
        let id = self.store.write_counter;
        match event {
            Event::Admit { key, meta } => if self.store.full(settings.max_partial_writes) {
                self
            } else {
                History {
                    store: self.store.admitted().registered(key, id, meta),
                    writers: self.writers.push(new_writer(settings, key, id, meta)),
                }
            },
            Event::AdmitFailed { key } => if self.store.full(settings.max_partial_writes) {
                self
            } else {
                let none = MetaView { internal: Seq::empty(), header: Seq::empty() };
                History {
                    store: self.store.id_spent(),
                    writers: self.writers.push(retired(new_writer(settings, key, id, none))),
                }
            },
            Event::Write { writer, data } => if 0 <= writer < self.writers.len()
                && !self.writers[writer].cleaned {
                History {
                    writers: self.writers.update(writer, self.writers[writer].wrote(data)),
                    ..self
                }
            } else {
                self
            },
            Event::Finish { writer } => if 0 <= writer < self.writers.len()
                && !self.writers[writer].cleaned {
                History {
                    store: self.store.finished(self.writers[writer]),
                    writers: self.writers.update(writer, retired(self.writers[writer])),
                }
            } else {
                self
            },
            Event::Drop { writer } => if 0 <= writer < self.writers.len() {
                History {
                    store: self.store.cleaned_up(self.writers[writer]),
                    writers: self.writers.update(writer, retired(self.writers[writer])),
                }
            } else {
                self
            },
            Event::Persisted { key, ok, .. } => if ok {
                History { store: self.store.demoted(key), ..self }
            } else {
                self
            },
            Event::Purge { key, purge_type, disk_len } => History {
                store: self.store.purged(settings.max_disk_bytes, key, purge_type, disk_len),
                ..self
            },
            Event::UpdateMeta { key, meta } => History {
                store: self.store.meta_updated(key, meta),
                ..self
            },
        }
    }

    /// After all of `events`, in order.
    pub open spec fn after_all(self, settings: Settings, events: Seq<Event>) -> History
        decreases events.len(),
    {
        if events.len() == 0 {
            self
        } else {
            self.after_all(settings, events.drop_last()).after(settings, events.last())
        }
    }

    /// Write `i` is live and is write `id` of `key`.
    pub open spec fn holds(self, i: int, key: Seq<char>, id: u64) -> bool {
        &&& 0 <= i < self.writers.len()
        &&& !self.writers[i].cleaned
        &&& self.writers[i].key == key
        &&& self.writers[i].write_id == id
    }

    /// Every write that the store lists belongs to a live handler.
    pub open spec fn no_strays(self) -> bool {
        forall|key: Seq<char>, id: u64| #[trigger]
            self.store.writers(key).contains_key(id) ==> self.holds(id as int, key, id)
    }

    /// The ids are handed out one by one, and all writes are under one limit.
    pub open spec fn well_numbered(self, settings: Settings) -> bool {
        &&& self.store.write_counter == self.writers.len()
        &&& forall|i: int|
            0 <= i < self.writers.len() ==> (#[trigger] self.writers[i]).write_id == i
                && self.writers[i].max_disk_bytes == settings.max_disk_bytes
    }

    /// The books are in order: every live handler has a place, limits are kept,
    /// every write that the store lists belongs to a live handler, ids are
    /// handed out one by one, and the gauges show what they stand for.
    pub open spec fn in_order(self, settings: Settings) -> bool {
        &&& self.store.inv()
        &&& self.store.partial_count == live(self.writers)
        &&& settings.max_partial_writes is Some ==> live(self.writers)
            <= settings.max_partial_writes->0
        &&& settings.max_disk_bytes is Some ==> self.store.disk_bytes_used
            <= settings.max_disk_bytes->0
        &&& self.well_numbered(settings)
        &&& self.no_strays()
        &&& self.store.metrics.partial_writes == in_progress(self.store, self.writers)
        &&& self.store.metrics.disk_bytes == self.store.disk_bytes_used as i64
        &&& keys_gauge_accurate(self.store)
    }
}

/// There are no more live writes than writes.
proof fn lemma_live_bound(writers: Seq<WriterView>)
    ensures
        live(writers) <= writers.len(),
    decreases writers.len(),
{
    if writers.len() > 0 {
        lemma_live_bound(writers.drop_last());
    }
}

/// Retiring a live handler makes one live handler less.
proof fn lemma_live_retired(writers: Seq<WriterView>, i: int)
    requires
        0 <= i < writers.len(),
    ensures
        live(writers.update(i, retired(writers[i]))) == live(writers) - if writers[i].cleaned {
            0int
        } else {
            1int
        },
    decreases writers.len(),
{
    let after = writers.update(i, retired(writers[i]));
    if i == writers.len() - 1 {
        assert(after.drop_last() =~= writers.drop_last());
    } else {
        lemma_live_retired(writers.drop_last(), i);
        assert(after.drop_last() =~= writers.drop_last().update(i, retired(writers[i])));
    }
}

/// Two stores that list the same of two series of writes list as many.
proof fn lemma_in_progress_same(
    s: StoreState,
    a: Seq<WriterView>,
    t: StoreState,
    b: Seq<WriterView>,
)
    requires
        a.len() == b.len(),
        forall|i: int|
            0 <= i < a.len() ==> listed(s, #[trigger] a[i]) == listed(t, #[trigger] b[i]),
    ensures
        in_progress(s, a) == in_progress(t, b),
        in_progress(s, a) <= a.len(),
    decreases a.len(),
{
    if a.len() > 0 {
        let n = a.len() - 1;
        assert forall|i: int| 0 <= i < n implies listed(s, #[trigger] a.drop_last()[i]) == listed(
            t,
            #[trigger] b.drop_last()[i],
        ) by {
            assert(a.drop_last()[i] == a[i] && b.drop_last()[i] == b[i]);
        }
        lemma_in_progress_same(s, a.drop_last(), t, b.drop_last());
        assert(listed(s, a[n]) == listed(t, b[n]));
    }
}

/// A store that lists the same but for one write lists one less.
proof fn lemma_in_progress_less(
    s: StoreState,
    a: Seq<WriterView>,
    t: StoreState,
    b: Seq<WriterView>,
    k: int,
)
    requires
        a.len() == b.len(),
        0 <= k < a.len(),
        listed(s, a[k]),
        !listed(t, b[k]),
        forall|i: int|
            0 <= i < a.len() && i != k ==> listed(s, #[trigger] a[i]) == listed(t, #[trigger] b[i]),
    ensures
        in_progress(t, b) == in_progress(s, a) - 1,
    decreases a.len(),
{
    let n = a.len() - 1;
    assert forall|i: int| 0 <= i < n && i != k implies listed(s, #[trigger] a.drop_last()[i])
        == listed(t, #[trigger] b.drop_last()[i]) by {
        assert(a.drop_last()[i] == a[i] && b.drop_last()[i] == b[i]);
    }
    if k == n {
        lemma_in_progress_same(s, a.drop_last(), t, b.drop_last());
    } else {
        lemma_in_progress_less(s, a.drop_last(), t, b.drop_last(), k);
        assert(listed(s, a[n]) == listed(t, b[n]));
    }
}

/// The ids below `n` among `ids`.
spec fn below(ids: Set<u64>, n: nat) -> Set<u64> {
    ids.filter(|id: u64| id < n)
}

/// Forgetting a key takes its writes off those that the store lists.
proof fn lemma_in_progress_forgotten(
    s: StoreState,
    t: StoreState,
    key: Seq<char>,
    writers: Seq<WriterView>,
)
    requires
        t.partials == s.partials.remove(key),
        writers.len() <= u64::MAX,
        forall|i: int| 0 <= i < writers.len() ==> (#[trigger] writers[i]).write_id == i,
        forall|id: u64| #[trigger]
            s.writers(key).contains_key(id) && id < writers.len() ==> writers[id as int].key == key,
    ensures
        below(s.writers(key).dom(), writers.len()).finite(),
        in_progress(s, writers) == in_progress(t, writers) + below(
            s.writers(key).dom(),
            writers.len(),
        ).len(),
    decreases writers.len(),
{
    let ids = s.writers(key).dom();
    if writers.len() == 0 {
        assert(below(ids, 0) =~= Set::empty());
    } else {
        let front = writers.drop_last();
        let n = front.len();
        assert forall|i: int| 0 <= i < n implies (#[trigger] front[i]).write_id == i by {
            assert(front[i] == writers[i]);
        }
        assert forall|id: u64| #[trigger]
            s.writers(key).contains_key(id) && id < front.len() implies front[id as int].key
            == key by {
            assert(front[id as int] == writers[id as int]);
        }
        lemma_in_progress_forgotten(s, t, key, front);
        let w = writers.last();
        assert(w == writers[n as int]);
        let id = n as u64;
        assert(w.write_id == id);
        if ids.contains(id) {
            assert(s.writers(key).contains_key(id));
            assert(writers[id as int].key == key);
            assert(below(ids, writers.len()) =~= below(ids, n).insert(id));
            assert(!below(ids, n).contains(id));
        } else {
            assert(below(ids, writers.len()) =~= below(ids, n));
        }
    }
}

/// One event keeps the books in order.
proof fn lemma_event_keeps_order(h: History, settings: Settings, event: Event)
    requires
        h.in_order(settings),
        h.writers.len() < usize::MAX,
        h.writers.len() < i64::MAX,
        h.store.cached.len() < i64::MAX,
    ensures
        h.after(settings, event).in_order(settings),
        h.after(settings, event).writers.len() <= h.writers.len() + 1,
        h.after(settings, event).store.cached.len() <= h.store.cached.len() + 1,
{
    let t = h.after(settings, event);
    lemma_live_bound(h.writers);
    lemma_in_progress_same(h.store, h.writers, h.store, h.writers);
    match event {
        Event::Admit { key, meta } => {
            if !h.store.full(settings.max_partial_writes) {
                lemma_admit(h, settings, key, meta);
            }
        },
        Event::AdmitFailed { key } => {
            if !h.store.full(settings.max_partial_writes) {
                lemma_admit_failed(h, settings, key);
            }
        },
        Event::Write { writer, data } => {
            if 0 <= writer < h.writers.len() && !h.writers[writer].cleaned {
                lemma_write(h, settings, writer, data);
            }
        },
        Event::Finish { writer } => {
            if 0 <= writer < h.writers.len() && !h.writers[writer].cleaned {
                lemma_finish(h, settings, writer);
            }
        },
        Event::Drop { writer } => {
            if 0 <= writer < h.writers.len() {
                lemma_drop(h, settings, writer);
            }
        },
        Event::Persisted { key, ok, .. } => {
            if ok {
                lemma_gauge_steps(h.store, key);
                lemma_same_partials_inv(h.store, t.store);
                lemma_no_strays(h, t);
                lemma_in_progress_same(h.store, h.writers, t.store, t.writers);
            }
        },
        Event::Purge { key, purge_type, disk_len } => {
            lemma_purge(h, settings, key, purge_type, disk_len);
        },
        Event::UpdateMeta { key, meta } => {
            lemma_gauge_steps(h.store, key);
            lemma_meta_updated_inv(h.store, key, meta);
            lemma_no_strays(h, t);
            assert(t.store.cached.dom() =~= h.store.cached.dom());
            assert forall|i: int| 0 <= i < h.writers.len() implies listed(
                h.store,
                #[trigger] h.writers[i],
            ) == listed(t.store, #[trigger] t.writers[i]) by {}
            lemma_in_progress_same(h.store, h.writers, t.store, t.writers);
        },
    }
}

/// Where an event only takes away writes, and all handlers stay, no stray is
/// left.
proof fn lemma_no_strays(h: History, t: History)
    requires
        h.no_strays(),
        h.writers == t.writers,
        no_new_writers(h.store, t.store),
    ensures
        t.no_strays(),
{
    assert forall|k: Seq<char>, j: u64| #[trigger] t.store.writers(k).contains_key(j) implies t.holds(
        j as int,
        k,
        j,
    ) by {
        assert(h.holds(j as int, k, j));
    }
}

/// Removing a key from memory, or storing one there, changes its size by at
/// most one.
proof fn lemma_gauge_steps(s: StoreState, key: Seq<char>)
    requires
        s.cached.dom().finite(),
    ensures
        s.cached.remove(key).len() <= s.cached.len(),
        s.cached.contains_key(key) ==> s.cached.remove(key).len() == s.cached.len() - 1,
        s.cached.remove(key).dom().finite(),
        forall|o: ObjectView| (#[trigger] s.cached.insert(key, o)).len() <= s.cached.len() + 1,
        forall|o: ObjectView| (#[trigger] s.cached.insert(key, o)).dom().finite(),
{
    assert(s.cached.remove(key).dom() =~= s.cached.dom().remove(key));
    assert forall|o: ObjectView|
        (#[trigger] s.cached.insert(key, o)).len() <= s.cached.len() + 1 && s.cached.insert(
            key,
            o,
        ).dom().finite() by {
        assert(s.cached.insert(key, o).dom() =~= s.cached.dom().insert(key));
    }
}

/// An admission keeps the books in order.
proof fn lemma_admit(h: History, settings: Settings, key: Seq<char>, meta: MetaView)
    requires
        h.in_order(settings),
        h.writers.len() < usize::MAX,
        h.writers.len() < i64::MAX,
        !h.store.full(settings.max_partial_writes),
    ensures
        h.after(settings, Event::Admit { key, meta }).in_order(settings),
{
    let t = h.after(settings, Event::Admit { key, meta });
    let id = h.store.write_counter;
    lemma_live_bound(h.writers);
    lemma_same_partials_inv(h.store, h.store.admitted());
    lemma_registered_inv(h.store.admitted(), key, id, meta);
    assert(t.writers.drop_last() =~= h.writers);
    assert forall|k: Seq<char>, j: u64| #[trigger] t.store.writers(k).contains_key(j) implies t.holds(
        j as int,
        k,
        j,
    ) by {
        if !(k == key && j == id) {
            assert(h.store.writers(k).contains_key(j));
            assert(h.holds(j as int, k, j));
            assert(t.writers[j as int] == h.writers[j as int]);
        }
    }
    assert forall|i: int| 0 <= i < h.writers.len() implies listed(h.store, #[trigger] h.writers[i])
        == listed(t.store, #[trigger] h.writers[i]) by {
        assert(h.writers[i].write_id == i);
    }
    lemma_in_progress_same(h.store, h.writers, t.store, h.writers);
    assert(listed(t.store, t.writers.last()));
    assert forall|i: int| 0 <= i < t.writers.len() implies (#[trigger] t.writers[i]).write_id == i
        && t.writers[i].max_disk_bytes == settings.max_disk_bytes by {
        if i < h.writers.len() {
            assert(t.writers[i] == h.writers[i]);
        }
    }
}

/// An admission that fails for want of metadata keeps the books in order.
proof fn lemma_admit_failed(h: History, settings: Settings, key: Seq<char>)
    requires
        h.in_order(settings),
        h.writers.len() < usize::MAX,
        h.writers.len() < i64::MAX,
        !h.store.full(settings.max_partial_writes),
    ensures
        h.after(settings, Event::AdmitFailed { key }).in_order(settings),
{
    let t = h.after(settings, Event::AdmitFailed { key });
    lemma_same_partials_inv(h.store, t.store);
    assert(t.writers.drop_last() =~= h.writers);
    assert forall|k: Seq<char>, j: u64| #[trigger] t.store.writers(k).contains_key(j) implies t.holds(
        j as int,
        k,
        j,
    ) by {
        assert(h.store.writers(k).contains_key(j));
        assert(h.holds(j as int, k, j));
        assert(t.writers[j as int] == h.writers[j as int]);
    }
    lemma_in_progress_same(h.store, h.writers, t.store, h.writers);
    assert(!listed(t.store, t.writers.last())) by {
        if listed(t.store, t.writers.last()) {
            assert(h.store.writers(key).contains_key(h.store.write_counter));
            assert(h.holds(h.store.write_counter as int, key, h.store.write_counter));
        }
    }
    assert forall|i: int| 0 <= i < t.writers.len() implies (#[trigger] t.writers[i]).write_id == i
        && t.writers[i].max_disk_bytes == settings.max_disk_bytes by {
        if i < h.writers.len() {
            assert(t.writers[i] == h.writers[i]);
        }
    }
}

/// Releasing write `writer`, on top of changes that leave the writes in progress
/// alone, keeps the books on writes in order.
proof fn lemma_release(h: History, settings: Settings, mid: StoreState, writer: int)
    requires
        h.in_order(settings),
        h.writers.len() < i64::MAX,
        0 <= writer < h.writers.len(),
        !h.writers[writer].cleaned,
        mid.partials == h.store.partials,
        mid.partial_count == h.store.partial_count,
        mid.write_counter == h.store.write_counter,
        mid.metrics.partial_writes == h.store.metrics.partial_writes,
    ensures
        ({
            let w = h.writers[writer];
            let t = History {
                store: mid.released(w.key, w.write_id),
                writers: h.writers.update(writer, retired(w)),
            };
            &&& t.store.partial_count == live(t.writers)
            &&& live(t.writers) <= live(h.writers)
            &&& t.no_strays()
            &&& t.store.metrics.partial_writes == in_progress(t.store, t.writers)
            &&& t.well_numbered(settings)
        }),
{
    let w = h.writers[writer];
    let t = History {
        store: mid.released(w.key, w.write_id),
        writers: h.writers.update(writer, retired(w)),
    };
    lemma_live_retired(h.writers, writer);
    lemma_in_progress_same(h.store, h.writers, h.store, h.writers);
    assert(w.write_id == writer);
    assert forall|k: Seq<char>, j: u64| #[trigger] t.store.writers(k).contains_key(j) implies t.holds(
        j as int,
        k,
        j,
    ) by {
        assert(h.store.writers(k).contains_key(j));
        assert(h.holds(j as int, k, j));
    }
    assert forall|i: int| 0 <= i < h.writers.len() && i != writer implies listed(
        h.store,
        #[trigger] h.writers[i],
    ) == listed(t.store, #[trigger] t.writers[i]) by {
        assert(h.writers[i].write_id == i);
        assert(t.writers[i] == h.writers[i]);
    }
    assert(!listed(t.store, t.writers[writer]));
    if listed(h.store, w) {
        lemma_in_progress_less(h.store, h.writers, t.store, t.writers, writer);
    } else {
        lemma_in_progress_same(h.store, h.writers, t.store, t.writers);
    }
}

/// A write keeps the books in order.
proof fn lemma_write(h: History, settings: Settings, writer: int, data: Seq<u8>)
    requires
        h.in_order(settings),
        0 <= writer < h.writers.len(),
        !h.writers[writer].cleaned,
    ensures
        h.after(settings, Event::Write { writer, data }).in_order(settings),
{
    let t = h.after(settings, Event::Write { writer, data });
    lemma_live_same(h.writers, t.writers);
    lemma_in_progress_same(h.store, h.writers, t.store, t.writers);
    assert forall|k: Seq<char>, j: u64| #[trigger] t.store.writers(k).contains_key(j) implies t.holds(
        j as int,
        k,
        j,
    ) by {
        assert(h.holds(j as int, k, j));
    }
}

/// As many writes are live where the same ones are.
proof fn lemma_live_same(a: Seq<WriterView>, b: Seq<WriterView>)
    requires
        a.len() == b.len(),
        forall|i: int|
            0 <= i < a.len() ==> (#[trigger] a[i]).cleaned == (#[trigger] b[i]).cleaned,
    ensures
        live(a) == live(b),
    decreases a.len(),
{
    if a.len() > 0 {
        let n = a.len() - 1;
        assert forall|i: int| 0 <= i < n implies (#[trigger] a.drop_last()[i]).cleaned == (
        #[trigger] b.drop_last()[i]).cleaned by {
            assert(a.drop_last()[i] == a[i] && b.drop_last()[i] == b[i]);
        }
        lemma_live_same(a.drop_last(), b.drop_last());
        assert(a[n].cleaned == b[n].cleaned);
    }
}

/// A finish keeps the books in order.
proof fn lemma_finish(h: History, settings: Settings, writer: int)
    requires
        h.in_order(settings),
        h.writers.len() < i64::MAX,
        h.store.cached.len() < i64::MAX,
        0 <= writer < h.writers.len(),
        !h.writers[writer].cleaned,
    ensures
        h.after(settings, Event::Finish { writer }).in_order(settings),
        h.after(settings, Event::Finish { writer }).store.cached.len()
            <= h.store.cached.len() + 1,
{
    let w = h.writers[writer];
    let t = h.after(settings, Event::Finish { writer });
    let none = MetaView { internal: Seq::empty(), header: Seq::empty() };
    lemma_finished_inv(h.store, w);
    lemma_gauge_steps(h.store, w.key);
    law_keys_gauge_is_accurate(
        h.store,
        w,
        w.key,
        None,
        PurgeType::Eviction,
        None,
        none,
    );
    let account = if w.max_disk_bytes is Some {
        h.store.charged(w.body.len())
    } else {
        h.store
    };
    let mid = if h.store.finish_refusal(w) is Some {
        h.store
    } else {
        account.stored(w.key, w.object())
    };
    assert(w.max_disk_bytes == settings.max_disk_bytes);
    lemma_release(h, settings, mid, writer);
    assert(t.store == mid.released(w.key, w.write_id));
}

/// Giving up a handler keeps the books in order.
proof fn lemma_drop(h: History, settings: Settings, writer: int)
    requires
        h.in_order(settings),
        h.writers.len() < i64::MAX,
        0 <= writer < h.writers.len(),
    ensures
        h.after(settings, Event::Drop { writer }).in_order(settings),
        h.after(settings, Event::Drop { writer }).store.cached == h.store.cached,
{
    let w = h.writers[writer];
    let t = h.after(settings, Event::Drop { writer });
    if w.cleaned {
        assert(t.writers =~= h.writers);
    } else {
        lemma_released_inv(h.store, w.key, w.write_id);
        lemma_release(h, settings, h.store, writer);
    }
}

/// A purge keeps the books in order.
proof fn lemma_purge(
    h: History,
    settings: Settings,
    key: Seq<char>,
    purge_type: PurgeType,
    disk_len: Option<u64>,
)
    requires
        h.in_order(settings),
        h.writers.len() < i64::MAX,
        h.store.cached.len() < i64::MAX,
    ensures
        h.after(settings, Event::Purge { key, purge_type, disk_len }).in_order(settings),
        h.after(settings, Event::Purge { key, purge_type, disk_len }).store.cached.len()
            <= h.store.cached.len(),
{
    let s = h.store;
    let t = h.after(settings, Event::Purge { key, purge_type, disk_len });
    let discharged = s.discharged(purged_len(s, settings.max_disk_bytes, key, disk_len));
    let none = MetaView { internal: Seq::empty(), header: Seq::empty() };
    lemma_same_partials_inv(s, discharged);
    lemma_forgotten_inv(discharged, key);
    lemma_same_partials_inv(discharged.forgotten(key), t.store);
    lemma_no_strays(h, t);
    lemma_gauge_steps(s, key);
    law_keys_gauge_is_accurate(
        s,
        new_writer(settings, key, 0, none),
        key,
        settings.max_disk_bytes,
        purge_type,
        disk_len,
        none,
    );
    assert forall|id: u64| #[trigger]
        s.writers(key).contains_key(id) && id < h.writers.len() implies h.writers[id as int].key
        == key by {
        assert(h.holds(id as int, key, id));
    }
    lemma_in_progress_forgotten(s, t.store, key, h.writers);
    lemma_in_progress_same(s, h.writers, s, h.writers);
    assert(below(s.writers(key).dom(), h.writers.len()) =~= s.writers(key).dom()) by {
        assert forall|id: u64| s.writers(key).dom().contains(id) implies id < h.writers.len() by {
            assert(s.writers(key).contains_key(id));
            assert(h.holds(id as int, key, id));
        }
    }
    assert(discharged.writers(key) == s.writers(key));
    assert(discharged.writers(key).len() == s.writers(key).dom().len());
}

/// Whatever happens to a store, in whatever order: every live handler has one
/// place, no more than `max_partial_writes` are ever live, no more than
/// `max_disk_bytes` are ever on the account, every write that the store lists
/// belongs to a live handler, no two writes share an id, and the gauges show how
/// many objects are in memory, how many writes are in progress and how many
/// bytes are on the account.
pub proof fn law_books_stay_in_order(settings: Settings, events: Seq<Event>)
    requires
        events.len() < usize::MAX,
        events.len() < i64::MAX,
    ensures
        History::start(settings).after_all(settings, events).in_order(settings),
        History::start(settings).after_all(settings, events).writers.len() <= events.len(),
        History::start(settings).after_all(settings, events).store.cached.len() <= events.len(),
    decreases events.len(),
{
    if events.len() == 0 {
        assert(History::start(settings).in_order(settings));
    } else {
        law_books_stay_in_order(settings, events.drop_last());
        lemma_event_keeps_order(
            History::start(settings).after_all(settings, events.drop_last()),
            settings,
            events.last(),
        );
    }
}

/// Once all handlers have finished or were given up, nothing is left of any
/// write in progress: no entry, no place taken, and a gauge at zero.
pub proof fn law_nothing_is_left_behind(settings: Settings, events: Seq<Event>)
    requires
        events.len() < usize::MAX,
        events.len() < i64::MAX,
        live(History::start(settings).after_all(settings, events).writers) == 0,
    ensures
        ({
            let store = History::start(settings).after_all(settings, events).store;
            &&& store.partial_count == 0
            &&& store.partials == Map::<Seq<char>, Map<u64, PartialView>>::empty()
            &&& store.metrics.partial_writes == 0
        }),
{
    let h = History::start(settings).after_all(settings, events);
    law_books_stay_in_order(settings, events);
    assert forall|key: Seq<char>, id: u64| !(#[trigger] h.store.writers(key).contains_key(id)) by {
        if h.store.writers(key).contains_key(id) {
            assert(h.holds(id as int, key, id));
            lemma_live_retired(h.writers, id as int);
        }
    }
    assert forall|key: Seq<char>| !h.store.partials.contains_key(key) by {
        if h.store.partials.contains_key(key) {
            assert(h.store.partials[key] != Map::<u64, PartialView>::empty());
            assert forall|id: u64| !h.store.partials[key].contains_key(id) by {
                assert(!h.store.writers(key).contains_key(id));
            }
            assert(h.store.partials[key] =~= Map::<u64, PartialView>::empty());
        }
    }
    assert(h.store.partials =~= Map::<Seq<char>, Map<u64, PartialView>>::empty());
    lemma_none_in_progress(h.store, h.writers);
}

/// A store that lists no write has none in progress.
proof fn lemma_none_in_progress(s: StoreState, writers: Seq<WriterView>)
    requires
        forall|key: Seq<char>, id: u64| !(#[trigger] s.writers(key).contains_key(id)),
    ensures
        in_progress(s, writers) == 0,
    decreases writers.len(),
{
    if writers.len() > 0 {
        lemma_none_in_progress(s, writers.drop_last());
    }
}

/// A store and the disk at some moment.
pub struct Moment {
    pub history: History,
    pub files: Files,
}

/// Carrying out `steps`, up to a failure that matters, can turn `before` into
/// `after`, with success or without.
pub open spec fn leads_to(
    steps: Seq<StepView>,
    object: ObjectView,
    ok: bool,
    before: Files,
    after: Files,
) -> bool {
    exists|oks: Seq<bool>, course: Seq<Files>|
        {
            &&& #[trigger] carried_out(steps, object, oks, course)
            &&& course[0] == before
            &&& course.last() == after
            &&& ok == succeeded(steps, oks)
        }
}

/// What an event can do to the disk: an object that is written, a purge and an
/// update of metadata carry out their plans.
pub open spec fn disk_follows(
    settings: Settings,
    event: Event,
    before: Files,
    after: Files,
) -> bool {
    match event {
        Event::Admit { .. } | Event::AdmitFailed { .. } | Event::Write { .. }
        | Event::Finish { .. } | Event::Drop { .. } => after == before,
        Event::Persisted { key, object, ok } => leads_to(
            persist_steps(entry_dir(settings.disk_root, key), settings.atomic_publish),
            object,
            ok,
            before,
            after,
        ),
        Event::Purge { key, .. } => exists|object: ObjectView, ok: bool| #[trigger]
            leads_to(
                remove_steps(entry_dir(settings.disk_root, key)),
                object,
                ok,
                before,
                after,
            ),
        Event::UpdateMeta { key, meta } => exists|ok: bool| #[trigger]
            leads_to(
                meta_steps(entry_dir(settings.disk_root, key)),
                ObjectView { meta, body: Seq::empty() },
                ok,
                before,
                after,
            ),
    }
}

/// `b` can be the moment after `event` happened at `a`.
pub open spec fn follows(settings: Settings, a: Moment, event: Event, b: Moment) -> bool {
    &&& b.history == a.history.after(settings, event)
    &&& disk_follows(settings, event, a.files, b.files)
}

/// The event leaves `key` alone: it is no purge and no other write of `key`, and
/// it writes or removes no other entry that has the same hash. The attempt to
/// write the object of `key` itself to disk ends while the object is in memory.
pub open spec fn undisturbed(h: History, event: Event, key: Seq<char>, body: Seq<u8>) -> bool {
    match event {
        Event::Admit { key: other, .. } => other != key,
        Event::AdmitFailed { .. } => true,
        Event::Write { .. } => true,
        Event::Finish { writer } => 0 <= writer < h.writers.len() ==> h.writers[writer].key
            != key,
        Event::Drop { .. } => true,
        Event::Persisted { key: other, object, .. } => if other == key {
            h.store.cached.contains_key(key) && object.body == body
        } else {
            key_hash(other) != key_hash(key)
        },
        Event::Purge { key: other, .. } => key_hash(other) != key_hash(key),
        Event::UpdateMeta { .. } => true,
    }
}

/// `key` is a hit with this body: in memory, or else on disk.
pub open spec fn is_hit(m: Moment, settings: Settings, key: Seq<char>, body: Seq<u8>) -> bool {
    let store = m.history.store;
    let dir = entry_dir(settings.disk_root, key);
    &&& store.writers(key) == Map::<u64, PartialView>::empty()
    &&& if store.cached.contains_key(key) {
        store.cached[key].body == body
    } else {
        complete(m.files, dir) && m.files[part_file(dir, EntryPart::Body)] == body
    }
}

/// The files of the entry of `key` are alike in both.
spec fn entry_alike(a: Files, b: Files, settings: Settings, key: Seq<char>) -> bool {
    forall|part: EntryPart| #[trigger]
        alike(b, a, part_file(entry_dir(settings.disk_root, key), part))
}

/// Writing or removing the entry of another hash leaves the files of `key`
/// alone.
proof fn lemma_other_entry(
    settings: Settings,
    a: Files,
    b: Files,
    key: Seq<char>,
    other: Seq<char>,
)
    requires
        key_hash(other) != key_hash(key),
        ({
            let dir = entry_dir(settings.disk_root, other);
            forall|p: Seq<Seq<char>>|
                !under(dir, p) && !under(tmp_sibling(dir), p) ==> #[trigger] alike(b, a, p)
        }),
    ensures
        entry_alike(a, b, settings, key),
{
    let dir = entry_dir(settings.disk_root, key);
    assert forall|part: EntryPart| #[trigger] alike(b, a, part_file(dir, part)) by {
        let path = part_file(dir, part);
        assert(path.take(dir.len() as int) =~= dir);
        law_entries_apart(settings.disk_root, key, other, path);
    }
}

/// One event keeps a hit.
proof fn lemma_hit_kept(
    settings: Settings,
    a: Moment,
    event: Event,
    b: Moment,
    key: Seq<char>,
    body: Seq<u8>,
)
    requires
        is_hit(a, settings, key, body),
        follows(settings, a, event, b),
        undisturbed(a.history, event, key, body),
    ensures
        is_hit(b, settings, key, body),
{
    let dir = entry_dir(settings.disk_root, key);
    let s = a.history.store;
    let t = b.history.store;
    assert(dir.len() == 4);
    assert(t.writers(key) =~= Map::<u64, PartialView>::empty()) by {
        match event {
            Event::UpdateMeta { key: other, meta } => {
                assert forall|id: u64| !t.writers(key).contains_key(id) by {
                    assert(!s.writers(key).contains_key(id));
                }
            },
            Event::Drop { writer } => {
                assert forall|id: u64| !t.writers(key).contains_key(id) by {
                    assert(!s.writers(key).contains_key(id));
                }
            },
            _ => {},
        }
    }
    match event {
        Event::Persisted { key: other, object, ok } => {
            let at = entry_dir(settings.disk_root, other);
            let steps = persist_steps(at, settings.atomic_publish);
            let (oks, course) = choose|oks: Seq<bool>, course: Seq<Files>|
                {
                    &&& #[trigger] carried_out(steps, object, oks, course)
                    &&& course[0] == a.files
                    &&& course.last() == b.files
                    &&& ok == succeeded(steps, oks)
                };
            assert(at.len() == 4);
            law_reported_persist_is_there(at, object, settings.atomic_publish, oks, course);
            if other == key {
                if ok {
                    assert(b.files.contains_key(part_file(dir, EntryPart::Body)));
                    assert(b.files.contains_key(part_file(dir, EntryPart::MetaInternal)));
                    assert(b.files.contains_key(part_file(dir, EntryPart::MetaHeader)));
                }
            } else {
                lemma_other_entry(settings, a.files, b.files, key, other);
                lemma_alike_kept(a, b, settings, key, body);
            }
        },
        Event::Purge { key: other, .. } => {
            let at = entry_dir(settings.disk_root, other);
            let (object, ok) = choose|object: ObjectView, ok: bool| #[trigger]
                leads_to(remove_steps(at), object, ok, a.files, b.files);
            let (oks, course) = choose|oks: Seq<bool>, course: Seq<Files>|
                {
                    &&& #[trigger] carried_out(remove_steps(at), object, oks, course)
                    &&& course[0] == a.files
                    &&& course.last() == b.files
                    &&& ok == succeeded(remove_steps(at), oks)
                };
            law_removal_stays_in_entry(at, object, oks, course);
            lemma_other_entry(settings, a.files, b.files, key, other);
            lemma_alike_kept(a, b, settings, key, body);
        },
        Event::UpdateMeta { key: other, meta } => {
            let at = entry_dir(settings.disk_root, other);
            let object = ObjectView { meta, body: Seq::<u8>::empty() };
            let ok = choose|ok: bool| #[trigger]
                leads_to(meta_steps(at), object, ok, a.files, b.files);
            let (oks, course) = choose|oks: Seq<bool>, course: Seq<Files>|
                {
                    &&& #[trigger] carried_out(meta_steps(at), object, oks, course)
                    &&& course[0] == a.files
                    &&& course.last() == b.files
                    &&& ok == succeeded(meta_steps(at), oks)
                };
            let paths = seq![
                part_file(dir, EntryPart::Body),
                part_file(dir, EntryPart::MetaHeader),
                part_file(dir, EntryPart::MetaInternal),
            ];
            law_meta_update_stays_in_meta(at, object, oks, course, paths[0]);
            law_meta_update_stays_in_meta(at, object, oks, course, paths[1]);
            law_meta_update_stays_in_meta(at, object, oks, course, paths[2]);
            lemma_body_is_no_meta(dir, at);
        },
        _ => {},
    }
}

/// A body file is no metadata file, of whatever entry.
proof fn lemma_body_is_no_meta(a: Seq<Seq<char>>, b: Seq<Seq<char>>)
    ensures
        part_file(a, EntryPart::Body) != part_file(b, EntryPart::MetaInternal),
        part_file(a, EntryPart::Body) != part_file(b, EntryPart::MetaHeader),
{
    lemma_part_names();
    assert(part_file(a, EntryPart::Body).last() == part_name(EntryPart::Body));
    assert(part_file(b, EntryPart::MetaInternal).last() == part_name(EntryPart::MetaInternal));
    assert(part_file(b, EntryPart::MetaHeader).last() == part_name(EntryPart::MetaHeader));
}

/// A hit stays one where the files of its entry stay alike, and memory holds
/// the same body or none as before.
proof fn lemma_alike_kept(
    a: Moment,
    b: Moment,
    settings: Settings,
    key: Seq<char>,
    body: Seq<u8>,
)
    requires
        is_hit(a, settings, key, body),
        entry_alike(a.files, b.files, settings, key),
        b.history.store.writers(key) == Map::<u64, PartialView>::empty(),
        a.history.store.cached.contains_key(key) <==> b.history.store.cached.contains_key(key),
        b.history.store.cached.contains_key(key) ==> b.history.store.cached[key].body == body,
    ensures
        is_hit(b, settings, key, body),
{
    let dir = entry_dir(settings.disk_root, key);
    assert(alike(b.files, a.files, part_file(dir, EntryPart::Body)));
    assert(alike(b.files, a.files, part_file(dir, EntryPart::MetaHeader)));
    assert(alike(b.files, a.files, part_file(dir, EntryPart::MetaInternal)));
}

/// A finished object stays a hit with the same body, whatever happens after it
/// was finished: it is in memory until it has been written to disk, and on disk
/// from then on. Left out are a purge and another write of its key, and entries
/// of other keys that have the same hash, which share its directory.
pub proof fn law_finished_object_stays_a_hit(
    settings: Settings,
    s: StoreState,
    w: WriterView,
    moments: Seq<Moment>,
    events: Seq<Event>,
)
    requires
        s.finish_refusal(w) is None,
        moments.len() == events.len() + 1,
        moments[0].history.store == s.finished(w),
        s.finished(w).writers(w.key) == Map::<u64, PartialView>::empty(),
        forall|i: int|
            0 <= i < events.len() ==> follows(
                settings,
                moments[i],
                #[trigger] events[i],
                moments[i + 1],
            ),
        forall|i: int|
            0 <= i < events.len() ==> undisturbed(
                moments[i].history,
                #[trigger] events[i],
                w.key,
                w.body,
            ),
    ensures
        is_hit(moments.last(), settings, w.key, w.body),
    decreases events.len(),
{
    if events.len() == 0 {
        assert(moments[0].history.store.cached[w.key].body == w.body);
    } else {
        let n = events.len() - 1;
        let before = moments.drop_last();
        let earlier = events.drop_last();
        assert forall|i: int| 0 <= i < earlier.len() implies follows(
            settings,
            before[i],
            #[trigger] earlier[i],
            before[i + 1],
        ) by {
            assert(earlier[i] == events[i]);
        }
        assert forall|i: int| 0 <= i < earlier.len() implies undisturbed(
            before[i].history,
            #[trigger] earlier[i],
            w.key,
            w.body,
        ) by {
            assert(earlier[i] == events[i]);
        }
        law_finished_object_stays_a_hit(settings, s, w, before, earlier);
        assert(before.last() == moments[n]);
        assert(follows(settings, moments[n], events[n], moments[n + 1]));
        assert(undisturbed(moments[n].history, events[n], w.key, w.body));
        lemma_hit_kept(settings, moments[n], events[n], moments[n + 1], w.key, w.body);
    }
}

/// A hit is served: a lookup gives a reader of the whole body, or the directory
/// in which the entry opens and its body file holds the body.
pub proof fn law_hit_is_served(
    m: Moment,
    settings: Settings,
    key: Seq<char>,
    body: Seq<u8>,
    found: Lookup,
)
    requires
        is_hit(m, settings, key, body),
        found_in_memory(m.history.store, settings, key, found),
    ensures
        match found {
            Lookup::Found { source: HitSource::Memory(reader), .. } => reader@.remaining() == body,
            Lookup::OnDisk { dir } => {
                &&& probed(m.files, OpenView::start(dir@), 8) is Found
                &&& m.files[part_file(dir@, EntryPart::Body)] == body
            },
            _ => false,
        },
{
    assert(CompleteReader::of(body).remaining() =~= body);
    law_open_finds_complete_entries(m.files, entry_dir(settings.disk_root, key));
}

/// Once an object has been written to disk it leaves memory and is counted as
/// demoted; after a failed attempt it stays, and nothing is counted.
pub proof fn law_persist_demotes(
    h: History,
    settings: Settings,
    key: Seq<char>,
    object: ObjectView,
    ok: bool,
)
    requires
        h.store.cached.contains_key(key),
    ensures
        ({
            let t = h.after(settings, Event::Persisted { key, object, ok }).store;
            &&& t.cached.contains_key(key) <==> !ok
            &&& t.metrics.demotions == if ok {
                h.store.metrics.demotions.wrapping_add(1)
            } else {
                h.store.metrics.demotions
            }
            &&& !ok ==> t == h.store
        }),
{
}

} // verus!
