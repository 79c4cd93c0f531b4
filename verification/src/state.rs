//! The store as a value, and what each operation makes of it.

use crate::disk::{meta_steps, persist_steps, remove_steps, StepView};
use crate::error::StoreError;
use crate::hit::EOF_MARK;
use crate::layout::entry_dir;
use crate::maps::writers_of;
use crate::metrics::StoreMetrics;
use crate::record::{be_bytes, MetaView, ObjectView, PartialView};
use vstd::prelude::*;

verus! {

/// Why an entry is purged.
#[derive(Debug, Clone, Copy, PartialEq, Eq, Structural)]
pub enum PurgeType {
    /// The eviction manager made room.
    Eviction,
    /// Someone asked for the entry to go.
    Invalidation,
}

/// What a store was built with. It never changes.
#[verifier::ext_equal]
pub struct Settings {
    pub disk_root: Seq<char>,
    pub max_object_bytes: Option<usize>,
    pub max_partial_writes: Option<usize>,
    pub max_disk_bytes: Option<usize>,
    pub atomic_publish: bool,
    pub io_uring_enabled: bool,
    pub max_in_mem_partial_bytes: Option<usize>,
}

impl Settings {
    /// No limits, with atomic publishing on and io_uring off.
    pub open spec fn unlimited(disk_root: Seq<char>) -> Settings {
        Settings {
            disk_root,
            max_object_bytes: None,
            max_partial_writes: None,
            max_disk_bytes: None,
            atomic_publish: true,
            io_uring_enabled: false,
            max_in_mem_partial_bytes: None,
        }
    }

    /// What a purge of `key` leaves to be done on disk.
    pub open spec fn purge_steps(self, key: Seq<char>) -> Seq<StepView> {
        remove_steps(entry_dir(self.disk_root, key))
    }

    /// What an update of the metadata of `key` leaves to be done on disk.
    pub open spec fn update_steps(self, key: Seq<char>) -> Seq<StepView> {
        meta_steps(entry_dir(self.disk_root, key))
    }
}

/// Everything about a store that changes.
#[verifier::ext_equal]
pub struct StoreState {
    /// Complete objects in memory, by cache key.
    pub cached: Map<Seq<char>, ObjectView>,
    /// Writes in progress, by cache key and write id.
    pub partials: Map<Seq<char>, Map<u64, PartialView>>,
    /// The id of the next write.
    pub write_counter: u64,
    /// How many writes have been admitted and not released.
    pub partial_count: usize,
    /// Body bytes that count against `max_disk_bytes`.
    pub disk_bytes_used: usize,
    pub metrics: StoreMetrics,
}

/// What the handler of a write knows about it.
#[verifier::ext_equal]
pub struct WriterView {
    pub key: Seq<char>,
    pub write_id: u64,
    pub meta: MetaView,
    pub dir: Seq<Seq<char>>,
    pub max_object_bytes: Option<usize>,
    pub max_disk_bytes: Option<usize>,
    pub atomic_publish: bool,
    /// What has been written so far.
    pub body: Seq<u8>,
    /// Whether the write has been released.
    pub cleaned: bool,
}

/// What remains to be done on disk for a finished write.
#[verifier::ext_equal]
pub struct JobView {
    pub key: Seq<char>,
    pub object: ObjectView,
    pub steps: Seq<StepView>,
}

/// The sum of two sizes, or the largest size when the sum does not fit.
pub open spec fn saturating_sum(a: nat, b: nat) -> nat {
    if a + b > usize::MAX {
        usize::MAX as nat
    } else {
        a + b
    }
}

/// A body of `size` bytes is over the limit.
pub open spec fn over(limit: Option<usize>, size: nat) -> bool {
    limit is Some && size > limit->0
}

impl WriterView {
    /// `extra` more bytes would take the body past its limit.
    pub open spec fn refuses(self, extra: nat) -> bool {
        over(self.max_object_bytes, saturating_sum(self.body.len(), extra))
    }

    /// After a write of `data`, which is taken as a whole or not at all.
    pub open spec fn wrote(self, data: Seq<u8>) -> WriterView {
        if self.refuses(data.len()) {
            self
        } else {
            WriterView { body: self.body + data, ..self }
        }
    }

    /// After all of `writes`, in order.
    pub open spec fn all_wrote(self, writes: Seq<Seq<u8>>) -> WriterView
        decreases writes.len(),
    {
        if writes.len() == 0 {
            self
        } else {
            self.all_wrote(writes.drop_last()).wrote(writes.last())
        }
    }

    /// The answer to a write of `extra` bytes: what to tell the readers.
    pub open spec fn write_answer(self, extra: nat, eof: bool) -> Result<usize, StoreError> {
        if self.refuses(extra) {
            Err(
                StoreError::ObjectTooLarge {
                    limit: self.max_object_bytes->0,
                    on_finish: false,
                },
            )
        } else if eof {
            Ok(EOF_MARK)
        } else {
            Ok((self.body.len() + extra) as usize)
        }
    }

    /// The tag by which a reader attaches to this write.
    pub open spec fn tag(self) -> Seq<u8> {
        be_bytes(self.write_id)
    }

    /// What remains to be done on disk when this write is finished.
    pub open spec fn job(self) -> JobView {
        JobView {
            key: self.key,
            object: self.object(),
            steps: persist_steps(self.dir, self.atomic_publish),
        }
    }

    /// What the readers are told after a write: how long the body is, or that it
    /// is complete.
    pub open spec fn announced(self, eof: bool) -> usize {
        if eof {
            EOF_MARK
        } else {
            self.body.len() as usize
        }
    }

    /// The object that comes of this write.
    pub open spec fn object(self) -> ObjectView {
        ObjectView { meta: self.meta, body: self.body }
    }
}

/// The body size that a purge takes off the disk account: the size on disk,
/// else the size in memory.
pub open spec fn purged_len(
    s: StoreState,
    max_disk_bytes: Option<usize>,
    key: Seq<char>,
    disk_len: Option<u64>,
) -> usize {
    if max_disk_bytes is None {
        0
    } else if disk_len is Some {
        disk_len->0 as usize
    } else if s.cached.contains_key(key) {
        s.cached[key].body.len() as usize
    } else {
        0
    }
}

impl StoreState {
    /// A store that holds nothing.
    pub open spec fn empty() -> StoreState {
        StoreState {
            cached: Map::empty(),
            partials: Map::empty(),
            write_counter: 0,
            partial_count: 0,
            disk_bytes_used: 0,
            metrics: StoreMetrics::zero(),
        }
    }

    /// A store that holds nothing, with its feature gauges set.
    pub open spec fn fresh(settings: Settings) -> StoreState {
        StoreState {
            metrics: StoreMetrics::zero().with_features(
                settings.atomic_publish,
                settings.io_uring_enabled,
            ),
            ..StoreState::empty()
        }
    }

    /// The writes in progress for `key`.
    pub open spec fn writers(self, key: Seq<char>) -> Map<u64, PartialView> {
        writers_of(self.partials, key)
    }

    /// Memory holds finitely many objects, every write in progress is tagged
    /// with its own id, and no key is kept without a write in progress.
    pub open spec fn inv(self) -> bool {
        &&& self.cached.dom().finite()
        &&& forall|key: Seq<char>, id: u64| #[trigger]
            self.writers(key).contains_key(id) ==> self.writers(key)[id].tag == be_bytes(id)
        &&& forall|key: Seq<char>| #[trigger]
            self.partials.contains_key(key) ==> self.partials[key] != Map::<
                u64,
                PartialView,
            >::empty()
    }

    /// A further write is not admitted.
    pub open spec fn full(self, max_partial_writes: Option<usize>) -> bool {
        max_partial_writes is Some && self.partial_count + 1 > max_partial_writes->0
    }

    /// After a write was admitted and given an id.
    pub open spec fn admitted(self) -> StoreState {
        StoreState {
            partial_count: self.partial_count.wrapping_add(1),
            write_counter: self.write_counter.wrapping_add(1),
            ..self
        }
    }

    /// After a write was given an id, and failed before it was registered. It
    /// keeps no place.
    pub open spec fn id_spent(self) -> StoreState {
        StoreState { write_counter: self.write_counter.wrapping_add(1), ..self }
    }

    /// After the write `id` was registered under `key`.
    pub open spec fn registered(self, key: Seq<char>, id: u64, meta: MetaView) -> StoreState {
        StoreState {
            partials: self.partials.insert(
                key,
                self.writers(key).insert(id, PartialView { meta, tag: be_bytes(id) }),
            ),
            metrics: self.metrics.writer_added(),
            ..self
        }
    }

    /// The answer to a request for a handler. `meta` is what the metadata was
    /// serialized to, if it could be.
    pub open spec fn admission(
        self,
        settings: Settings,
        key: Seq<char>,
        meta: Option<MetaView>,
    ) -> Result<WriterView, StoreError> {
        if self.full(settings.max_partial_writes) {
            Err(StoreError::TooManyPartialWrites { limit: settings.max_partial_writes->0 })
        } else {
            match meta {
                Some(meta) => Ok(new_writer(settings, key, self.write_counter, meta)),
                None => Err(StoreError::MetaNotSerialized),
            }
        }
    }

    /// After a request for a handler.
    pub open spec fn after_admission(
        self,
        settings: Settings,
        key: Seq<char>,
        meta: Option<MetaView>,
    ) -> StoreState {
        if self.full(settings.max_partial_writes) {
            self
        } else {
            match meta {
                Some(meta) => self.admitted().registered(key, self.write_counter, meta),
                None => self.id_spent(),
            }
        }
    }

    /// After the attempt to write the object of `key` to disk has ended.
    pub open spec fn persist_reported(self, key: Seq<char>, ok: bool) -> StoreState {
        if ok {
            self.demoted(key)
        } else {
            self
        }
    }

    /// After a lookup by tag.
    pub open spec fn tag_looked_up(self, key: Seq<char>, tag: Seq<u8>) -> StoreState {
        if self.has_tag(key, tag) {
            self
        } else {
            StoreState { metrics: self.metrics.attach_missed(), ..self }
        }
    }

    /// After a lookup on disk, which found an entry, found none, or failed.
    pub open spec fn disk_looked_up(
        self,
        opened: Result<Option<MetaView>, StoreError>,
    ) -> StoreState {
        if opened == Ok::<Option<MetaView>, StoreError>(None) {
            StoreState { metrics: self.metrics.missed(), ..self }
        } else {
            self
        }
    }

    /// After the metadata of something that was found was decoded, or could not be.
    pub open spec fn decoded(self, tagged: bool, decoded: bool) -> StoreState {
        StoreState {
            metrics: if !decoded {
                self.metrics
            } else if tagged {
                self.metrics.attached()
            } else {
                self.metrics.hit()
            },
            ..self
        }
    }

    /// The writes in progress without write `id` of `key`.
    pub open spec fn partials_without(self, key: Seq<char>, id: u64) -> Map<
        Seq<char>,
        Map<u64, PartialView>,
    > {
        if !self.partials.contains_key(key) {
            self.partials
        } else if self.partials[key].remove(id) == Map::<u64, PartialView>::empty() {
            self.partials.remove(key)
        } else {
            self.partials.insert(key, self.partials[key].remove(id))
        }
    }

    /// After write `id` of `key` was given up: its entry is gone, and one more
    /// write can be admitted.
    pub open spec fn released(self, key: Seq<char>, id: u64) -> StoreState {
        StoreState {
            partials: self.partials_without(key, id),
            partial_count: self.partial_count.wrapping_sub(1),
            metrics: if self.writers(key).contains_key(id) {
                self.metrics.writer_removed()
            } else {
                self.metrics
            },
            ..self
        }
    }

    /// After the handler `w` cleaned up, which it does at most once.
    pub open spec fn cleaned_up(self, w: WriterView) -> StoreState {
        if w.cleaned {
            self
        } else {
            self.released(w.key, w.write_id)
        }
    }

    /// After `size` more body bytes count against the disk limit.
    pub open spec fn charged(self, size: nat) -> StoreState {
        StoreState {
            disk_bytes_used: (self.disk_bytes_used + size) as usize,
            metrics: self.metrics.with_disk_bytes((self.disk_bytes_used + size) as usize),
            ..self
        }
    }

    /// After `object` was put in memory under `key`.
    pub open spec fn stored(self, key: Seq<char>, object: ObjectView) -> StoreState {
        StoreState {
            cached: self.cached.insert(key, object),
            metrics: self.metrics.with_keys(self.cached.insert(key, object).len()),
            ..self
        }
    }

    /// Why the body of `w` is refused when it finishes, if it is.
    pub open spec fn finish_refusal(self, w: WriterView) -> Option<StoreError> {
        if over(w.max_object_bytes, w.body.len()) {
            Some(StoreError::ObjectTooLarge { limit: w.max_object_bytes->0, on_finish: true })
        } else if over(
            w.max_disk_bytes,
            saturating_sum(self.disk_bytes_used as nat, w.body.len()),
        ) {
            Some(
                StoreError::DiskCapacityExceeded {
                    used: self.disk_bytes_used,
                    size: w.body.len() as usize,
                    limit: w.max_disk_bytes->0,
                },
            )
        } else {
            None
        }
    }

    /// After the handler `w` finished.
    pub open spec fn finished(self, w: WriterView) -> StoreState {
        if self.finish_refusal(w) is Some {
            self.cleaned_up(w)
        } else {
            let account = if w.max_disk_bytes is Some {
                self.charged(w.body.len())
            } else {
                self
            };
            account.stored(w.key, w.object()).cleaned_up(w)
        }
    }

    /// After the object of `key` was written to disk.
    pub open spec fn demoted(self, key: Seq<char>) -> StoreState {
        if self.cached.contains_key(key) {
            StoreState {
                cached: self.cached.remove(key),
                metrics: self.metrics.demoted(),
                ..self
            }
        } else {
            self
        }
    }

    /// A purge of `key` finds something in memory.
    pub open spec fn purge_finds(self, key: Seq<char>) -> bool {
        self.cached.contains_key(key) || self.partials.contains_key(key)
    }

    /// What is left on the disk account without `len` bytes. The account stops
    /// at zero: a body may never have been charged to it.
    pub open spec fn account_without(self, len: usize) -> usize {
        if self.disk_bytes_used > len {
            (self.disk_bytes_used - len) as usize
        } else {
            0
        }
    }

    /// After `len` body bytes were taken off the disk account.
    pub open spec fn discharged(self, len: usize) -> StoreState {
        if len > 0 {
            StoreState {
                disk_bytes_used: self.account_without(len),
                metrics: self.metrics.with_disk_bytes(self.account_without(len)),
                ..self
            }
        } else {
            self
        }
    }

    /// After `key` was forgotten: its object, and all its writes in progress.
    pub open spec fn forgotten(self, key: Seq<char>) -> StoreState {
        StoreState {
            cached: self.cached.remove(key),
            partials: self.partials.remove(key),
            metrics: (if self.purge_finds(key) {
                self.metrics.with_keys(self.cached.remove(key).len())
            } else {
                self.metrics
            }).writers_removed(self.writers(key).len()),
            ..self
        }
    }

    /// After a purge was counted.
    pub open spec fn purge_counted(self, purge_type: PurgeType) -> StoreState {
        StoreState {
            metrics: match purge_type {
                PurgeType::Eviction => self.metrics.evicted(),
                PurgeType::Invalidation => self.metrics.invalidated(),
            },
            ..self
        }
    }

    /// After a purge of `key`, whose body file has `disk_len` bytes if there is
    /// one.
    pub open spec fn purged(
        self,
        max_disk_bytes: Option<usize>,
        key: Seq<char>,
        purge_type: PurgeType,
        disk_len: Option<u64>,
    ) -> StoreState {
        self.discharged(purged_len(self, max_disk_bytes, key, disk_len)).forgotten(
            key,
        ).purge_counted(purge_type)
    }

    /// The object of `key`, and all its writes in progress, have metadata that
    /// an update can replace.
    pub open spec fn meta_updatable(self, key: Seq<char>) -> bool {
        self.cached.contains_key(key) || self.writers(key) != Map::<u64, PartialView>::empty()
    }

    /// After the metadata of `key` was replaced wherever memory holds it.
    pub open spec fn meta_updated(self, key: Seq<char>, meta: MetaView) -> StoreState {
        StoreState {
            cached: if self.cached.contains_key(key) {
                self.cached.insert(key, ObjectView { meta, body: self.cached[key].body })
            } else {
                self.cached
            },
            partials: if self.partials.contains_key(key) {
                self.partials.insert(
                    key,
                    self.partials[key].map_values(
                        |p: PartialView| PartialView { meta, tag: p.tag },
                    ),
                )
            } else {
                self.partials
            },
            ..self
        }
    }

    /// Some write in progress of `key` has the tag `tag`.
    pub open spec fn has_tag(self, key: Seq<char>, tag: Seq<u8>) -> bool {
        exists|id: u64| #[trigger]
            self.writers(key).contains_key(id) && self.writers(key)[id].tag == tag
    }
}

/// Registering a write keeps the store well formed.
pub proof fn lemma_registered_inv(s: StoreState, key: Seq<char>, id: u64, meta: MetaView)
    requires
        s.inv(),
    ensures
        s.registered(key, id, meta).inv(),
{
    let t = s.registered(key, id, meta);
    assert forall|k: Seq<char>, i: u64| #[trigger] t.writers(k).contains_key(i) implies t.writers(
        k,
    )[i].tag == be_bytes(i) by {
        if !(k == key && i == id) {
            assert(s.writers(k).contains_key(i));
        }
    }
    assert forall|k: Seq<char>| #[trigger] t.partials.contains_key(k) implies t.partials[k] != Map::<
        u64,
        PartialView,
    >::empty() by {
        if k == key {
            assert(t.partials[k].contains_key(id));
        } else {
            assert(s.partials.contains_key(k));
        }
    }
}

/// Releasing a write keeps the store well formed.
pub proof fn lemma_released_inv(s: StoreState, key: Seq<char>, id: u64)
    requires
        s.inv(),
    ensures
        s.released(key, id).inv(),
{
    let t = s.released(key, id);
    assert forall|k: Seq<char>, i: u64| #[trigger] t.writers(k).contains_key(i) implies t.writers(
        k,
    )[i].tag == be_bytes(i) by {
        assert(s.writers(k).contains_key(i));
    }
    assert forall|k: Seq<char>| #[trigger] t.partials.contains_key(k) implies t.partials[k] != Map::<
        u64,
        PartialView,
    >::empty() by {
        assert(s.partials.contains_key(k));
    }
}

/// Finishing a write keeps the store well formed.
pub proof fn lemma_finished_inv(s: StoreState, w: WriterView)
    requires
        s.inv(),
    ensures
        s.finished(w).inv(),
{
    let account = if w.max_disk_bytes is Some {
        s.charged(w.body.len())
    } else {
        s
    };
    let stored = account.stored(w.key, w.object());
    lemma_same_partials_inv(s, stored);
    if !w.cleaned {
        lemma_released_inv(s, w.key, w.write_id);
        lemma_released_inv(stored, w.key, w.write_id);
    }
}

/// A change that leaves the writes in progress alone keeps the store well
/// formed.
pub proof fn lemma_same_partials_inv(s: StoreState, t: StoreState)
    requires
        s.inv(),
        s.partials == t.partials,
        t.cached.dom().finite(),
    ensures
        t.inv(),
{
    assert forall|k: Seq<char>, i: u64| #[trigger] t.writers(k).contains_key(i) implies t.writers(
        k,
    )[i].tag == be_bytes(i) by {
        assert(s.writers(k).contains_key(i));
    }
}

/// Purging keeps the store well formed.
pub proof fn lemma_forgotten_inv(s: StoreState, key: Seq<char>)
    requires
        s.inv(),
    ensures
        s.forgotten(key).inv(),
{
    let t = s.forgotten(key);
    assert forall|k: Seq<char>, i: u64| #[trigger] t.writers(k).contains_key(i) implies t.writers(
        k,
    )[i].tag == be_bytes(i) by {
        assert(s.writers(k).contains_key(i));
    }
}

/// Replacing metadata keeps the store well formed.
pub proof fn lemma_meta_updated_inv(s: StoreState, key: Seq<char>, meta: MetaView)
    requires
        s.inv(),
    ensures
        s.meta_updated(key, meta).inv(),
{
    let t = s.meta_updated(key, meta);
    assert forall|k: Seq<char>, i: u64| #[trigger] t.writers(k).contains_key(i) implies t.writers(
        k,
    )[i].tag == be_bytes(i) by {
        assert(s.writers(k).contains_key(i));
    }
    assert forall|k: Seq<char>| #[trigger] t.partials.contains_key(k) implies t.partials[k] != Map::<
        u64,
        PartialView,
    >::empty() by {
        assert(s.partials.contains_key(k));
        if k == key {
            lemma_nonempty(s.partials[k]);
            let i = choose|i: u64| s.partials[k].contains_key(i);
            assert(t.partials[k].contains_key(i));
        }
    }
}

/// Every write in progress in `t` was in progress in `s`.
pub open spec fn no_new_writers(s: StoreState, t: StoreState) -> bool {
    forall|key: Seq<char>, id: u64| #[trigger]
        t.writers(key).contains_key(id) ==> s.writers(key).contains_key(id)
}

/// Only an admission starts a write.
pub proof fn lemma_no_new_writers(
    s: StoreState,
    w: WriterView,
    key: Seq<char>,
    max_disk_bytes: Option<usize>,
    purge_type: PurgeType,
    disk_len: Option<u64>,
    meta: MetaView,
)
    ensures
        no_new_writers(s, s.admitted()),
        no_new_writers(s, s.id_spent()),
        no_new_writers(s, s.cleaned_up(w)),
        no_new_writers(s, s.finished(w)),
        no_new_writers(s, s.demoted(key)),
        no_new_writers(s, s.purged(max_disk_bytes, key, purge_type, disk_len)),
        no_new_writers(s, s.meta_updated(key, meta)),
{
}

/// A map that is not empty has a key.
proof fn lemma_nonempty(m: Map<u64, PartialView>)
    requires
        m != Map::<u64, PartialView>::empty(),
    ensures
        exists|i: u64| m.contains_key(i),
{
    if forall|i: u64| !m.contains_key(i) {
        assert(m =~= Map::<u64, PartialView>::empty());
    }
}

/// What the handler of a newly admitted write knows.
pub open spec fn new_writer(
    settings: Settings,
    key: Seq<char>,
    write_id: u64,
    meta: MetaView,
) -> WriterView {
    WriterView {
        key,
        write_id,
        meta,
        dir: entry_dir(settings.disk_root, key),
        max_object_bytes: settings.max_object_bytes,
        max_disk_bytes: settings.max_disk_bytes,
        atomic_publish: settings.atomic_publish,
        body: Seq::empty(),
        cleaned: false,
    }
}

} // verus!
