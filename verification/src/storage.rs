//! The store itself.

use crate::config::{EdgeMemoryStorageBuilder, EdgeStoreConfig, DEFAULT_DISK_ROOT};
use crate::disk::{meta_steps, remove_entry, remove_steps, replace_meta, DiskPlan};
use crate::error::StoreError;
use crate::hit::{
    CompleteHitHandler, CompleteReader, DiskHitHandler, DiskReader, PartialHitHandler,
};
use crate::layout::{
    dir_of_hash, entry_dir, hash_dir, hash_str, lemma_key_hash_shape, DiskPath,
};
use crate::maps::{
    count_objects, get_object, insert_object, insert_writer, lemma_lists_len, list_writers, lists,
    new_objects, new_writers, no_writers_left, objects_in, remove_object, remove_writer, remove_writers,
    writers_in, ObjectMap, WriterMap,
};
use crate::metrics::StoreMetrics;
use crate::miss::EdgeMissHandler;
use crate::record::{
    same_bytes, to_be_bytes, CacheObject, MetaBytes, MetaView, ObjectView, PartialObject,
    PartialView,
};
use crate::state::{
    lemma_forgotten_inv, lemma_meta_updated_inv, lemma_registered_inv, lemma_same_partials_inv,
    new_writer, purged_len, PurgeType, Settings, StoreState, WriterView,
};
use vstd::prelude::*;
use vstd::utf8::{encode_utf8, is_char_boundary};

verus! {

/// What a store holds in memory.
pub struct Memory {
    /// Complete objects, ready to be served.
    cache: ObjectMap,
    /// Writes in progress.
    partial: WriterMap,
}

impl Memory {
    /// Complete objects, by cache key.
    pub closed spec fn cached(&self) -> Map<Seq<char>, ObjectView> {
        objects_in(self.cache)
    }

    /// Writes in progress, by cache key and write id.
    pub closed spec fn partials(&self) -> Map<Seq<char>, Map<u64, PartialView>> {
        writers_in(self.partial)
    }
}

/// Cached objects in memory and on disk, and writes in progress that readers
/// can follow.
pub struct EdgeMemoryStorage {
    /// What is in memory.
    pub memory: Memory,
    /// The id of the next write.
    pub write_counter: u64,
    /// Root directory for on-disk data.
    pub disk_root: String,
    /// Cap on a single body.
    pub max_object_bytes: Option<usize>,
    /// Cap on writes in progress.
    pub max_partial_writes: Option<usize>,
    /// Cap on the body bytes on disk.
    pub max_disk_bytes: Option<usize>,
    /// How many writes have been admitted and not released.
    pub partial_count: usize,
    /// Body bytes that count against `max_disk_bytes`.
    pub disk_bytes_used: usize,
    /// Whether an entry is published by renaming a complete directory.
    pub atomic_publish: bool,
    /// Whether disk I/O may go through io_uring.
    pub io_uring_enabled: bool,
    /// Carried from the configuration; nothing acts on it.
    pub max_in_mem_partial_bytes: Option<usize>,
    /// What the store exports to monitoring.
    pub metrics: StoreMetrics,
}

impl View for EdgeMemoryStorage {
    type V = StoreState;

    open spec fn view(&self) -> StoreState {
        StoreState {
            cached: self.memory.cached(),
            partials: self.memory.partials(),
            write_counter: self.write_counter,
            partial_count: self.partial_count,
            disk_bytes_used: self.disk_bytes_used,
            metrics: self.metrics,
        }
    }
}

impl EdgeMemoryStorage {
    /// What the store was built with.
    pub open spec fn settings(&self) -> Settings {
        Settings {
            disk_root: self.disk_root@,
            max_object_bytes: self.max_object_bytes,
            max_partial_writes: self.max_partial_writes,
            max_disk_bytes: self.max_disk_bytes,
            atomic_publish: self.atomic_publish,
            io_uring_enabled: self.io_uring_enabled,
            max_in_mem_partial_bytes: self.max_in_mem_partial_bytes,
        }
    }

    /// An empty store without limits that keeps its files under `disk_root`.
    pub fn with_disk_root(disk_root: String) -> (store: EdgeMemoryStorage)
        ensures
            store.settings() == Settings::unlimited(disk_root@),
            store@ == StoreState::fresh(store.settings()),
            store@.inv(),
    {
        let mut store = EdgeMemoryStorage {
            memory: Memory { cache: new_objects(), partial: new_writers() },
            write_counter: 0,
            disk_root,
            max_object_bytes: None,
            max_partial_writes: None,
            max_disk_bytes: None,
            partial_count: 0,
            disk_bytes_used: 0,
            atomic_publish: true,
            io_uring_enabled: false,
            max_in_mem_partial_bytes: None,
            metrics: StoreMetrics::new(),
        };
        store.update_feature_gauges();
        store
    }

    /// An empty store without limits, in the directory that the environment
    /// variable `EDGE_STORE_DIR` gives, or else in the default one.
    pub fn new(env_root: Option<String>) -> (store: EdgeMemoryStorage)
        ensures
            store.settings() == Settings::unlimited(
                if env_root is Some {
                    env_root->0@
                } else {
                    DEFAULT_DISK_ROOT@
                },
            ),
            store@ == StoreState::fresh(store.settings()),
            store@.inv(),
    {
        let root = match env_root {
            Some(root) => root,
            None => DEFAULT_DISK_ROOT.to_owned(),
        };
        EdgeMemoryStorage::with_disk_root(root)
    }

    /// The same as [`new`](Self::new).
    pub fn default_instance(env_root: Option<String>) -> (store: EdgeMemoryStorage)
        ensures
            store.settings() == Settings::unlimited(
                if env_root is Some {
                    env_root->0@
                } else {
                    DEFAULT_DISK_ROOT@
                },
            ),
            store@ == StoreState::fresh(store.settings()),
            store@.inv(),
    {
        EdgeMemoryStorage::new(env_root)
    }

    /// An empty store with the settings of a configuration file. `env_root` is
    /// the value of the environment variable `EDGE_STORE_DIR`.
    pub fn from_config(cfg: &EdgeStoreConfig, env_root: Option<String>) -> (store:
        EdgeMemoryStorage)
        ensures
            store.settings() == (Settings {
                disk_root: cfg.root(env_root),
                max_object_bytes: cfg.max_object_bytes,
                max_partial_writes: cfg.max_partial_writes,
                max_disk_bytes: cfg.max_disk_bytes,
                atomic_publish: cfg.atomic_publish != Some(false),
                io_uring_enabled: cfg.io_uring_enabled == Some(true),
                max_in_mem_partial_bytes: cfg.max_in_mem_partial_bytes,
            }),
            store.settings() == cfg.settings(env_root),
            store@ == StoreState::fresh(store.settings()),
            store@.inv(),
    {
        EdgeMemoryStorageBuilder::new().with_disk_root(
            cfg.resolve_disk_root(env_root),
        ).with_max_disk_bytes(cfg.max_disk_bytes).with_max_object_bytes(
            cfg.max_object_bytes,
        ).with_max_partial_writes(cfg.max_partial_writes).with_atomic_publish(
            cfg.atomic_publish,
        ).with_io_uring_enabled(cfg.io_uring_enabled).with_max_in_mem_partial_bytes(
            cfg.max_in_mem_partial_bytes,
        ).build()
    }

    /// A builder with nothing set but the default root directory.
    pub fn builder() -> (b: EdgeMemoryStorageBuilder)
        ensures
            b.disk_root@ == DEFAULT_DISK_ROOT@,
            b.max_disk_bytes is None,
            b.max_object_bytes is None,
            b.max_partial_writes is None,
            b.atomic_publish is None,
            b.io_uring_enabled is None,
            b.max_in_mem_partial_bytes is None,
    {
        EdgeMemoryStorageBuilder::new()
    }

    /// Sets the gauges that tell which features are on.
    pub fn update_feature_gauges(&mut self)
        ensures
            final(self)@ == (StoreState {
                metrics: old(self)@.metrics.with_features(
                    old(self).settings().atomic_publish,
                    old(self).settings().io_uring_enabled,
                ),
                ..old(self)@
            }),
            final(self).settings() == old(self).settings(),
            old(self)@.inv() ==> final(self)@.inv(),
    {
        let ghost before = self@;
        self.metrics.set_features(self.atomic_publish, self.io_uring_enabled);
        proof {
            if before.inv() {
                lemma_same_partials_inv(before, self@);
            }
        }
    }

    /// Takes write `write_id` of `key` out of the writes in progress, and makes
    /// room for another writer.
    pub(crate) fn release_writer(&mut self, key: &str, write_id: u64)
        ensures
            final(self)@ == old(self)@.released(key@, write_id),
            final(self).settings() == old(self).settings(),
    {
        let ghost before = self@;
        let removed = remove_writer(&mut self.memory.partial, key, write_id);
        let left = no_writers_left(&self.memory.partial, key);
        match left {
            Some(empty) => {
                if empty {
                    remove_writers(&mut self.memory.partial, key);
                }
            },
            None => {},
        }
        match removed {
            Some(found) => {
                if found {
                    self.metrics.remove_writer();
                }
            },
            None => {},
        }
        self.partial_count = self.partial_count.wrapping_sub(1);
        proof {
            assert(self@.partials =~= before.partials_without(key@, write_id));
            assert(self@ =~= before.released(key@, write_id));
        }
    }

    /// Counts `size` more body bytes against the disk limit.
    pub(crate) fn charge_disk(&mut self, size: usize)
        requires
            old(self)@.disk_bytes_used + size <= usize::MAX,
        ensures
            final(self)@ == old(self)@.charged(size as nat),
            final(self).settings() == old(self).settings(),
    {
        let after: usize = self.disk_bytes_used + size;
        self.disk_bytes_used = after;
        self.metrics.set_disk_bytes(after);
    }

    /// Puts an object in memory.
    pub(crate) fn store_object(&mut self, key: String, object: CacheObject)
        ensures
            final(self)@ == old(self)@.stored(key@, object@),
            final(self).settings() == old(self).settings(),
    {
        insert_object(&mut self.memory.cache, key, object);
        let n: usize = count_objects(&self.memory.cache);
        self.metrics.set_keys(n);
    }

    /// The directory of the entry whose key hashes to `key_hash`.
    pub fn key_dir(&self, key_hash: &str) -> (dir: DiskPath)
        requires
            is_char_boundary(encode_utf8(key_hash@), 2),
            is_char_boundary(encode_utf8(key_hash@), 4),
        ensures
            dir@ == hash_dir(self.settings().disk_root, key_hash@),
    {
        dir_of_hash(self.disk_root.as_str(), key_hash)
    }

    /// The directory of the entry with cache key `key`.
    pub fn entry_path(&self, key: &str) -> (dir: DiskPath)
        ensures
            dir@ == entry_dir(self.settings().disk_root, key@),
    {
        let hash = hash_str(key);
        proof {
            lemma_key_hash_shape(key@);
        }
        self.key_dir(hash.as_str())
    }

    /// Hands out the id for a new write.
    fn next_write_id(&mut self) -> (id: u64)
        ensures
            id == old(self)@.write_counter,
            final(self)@ == (StoreState {
                write_counter: old(self)@.write_counter.wrapping_add(1),
                ..old(self)@
            }),
            final(self).settings() == old(self).settings(),
    {
        let id: u64 = self.write_counter;
        self.write_counter = self.write_counter.wrapping_add(1);
        id
    }

    /// Looks `key` up in memory: a complete object first, else any of the
    /// writes in progress. Failing that, says where on disk to look.
    pub fn lookup(&self, key: &str) -> (found: Lookup)
        ensures
            found_in_memory(self@, self.settings(), key@, found),
    {
        if let Some(object) = get_object(&self.memory.cache, key) {
            return Lookup::Found {
                meta: object.meta,
                source: HitSource::Memory(CompleteHitHandler::new(object.body)),
            };
        }
        if let Some(mut writers) = list_writers(&self.memory.partial, key) {
            if let Some((write_id, writer)) = writers.pop() {
                return Lookup::Found {
                    meta: writer.meta,
                    source: HitSource::Stream { write_id, reader: PartialHitHandler::new() },
                };
            }
        }
        assert(self@.writers(key@) =~= Map::<u64, PartialView>::empty());
        Lookup::OnDisk { dir: self.entry_path(key) }
    }

    /// Attaches a reader to the write in progress that has the tag, and only to
    /// that one. Without a tag, this is a plain lookup.
    pub fn lookup_streaming_write(&mut self, key: &str, tag: Option<&[u8]>) -> (found: Lookup)
        ensures
            final(self).settings() == old(self).settings(),
            match tag {
                Some(tag) => attached_by_tag(old(self)@, key@, tag@, found) && final(self)@ == if old(
                    self,
                )@.has_tag(key@, tag@) {
                    old(self)@
                } else {
                    StoreState { metrics: old(self)@.metrics.attach_missed(), ..old(self)@ }
                },
                None => found_in_memory(old(self)@, old(self).settings(), key@, found)
                    && final(self)@ == old(self)@,
            },
            tag is Some ==> final(self)@ == old(self)@.tag_looked_up(key@, tag->0@),
            old(self)@.inv() ==> final(self)@.inv(),
    {
        let ghost before = self@;
        let wanted = match tag {
            Some(tag) => tag,
            None => return self.lookup(key),
        };
        let mut writers: Vec<(u64, PartialObject)> = match list_writers(&self.memory.partial, key) {
            Some(writers) => writers,
            None => Vec::new(),
        };
        let ghost listed = writers@;
        while writers.len() > 0
            invariant
                writers@.len() <= listed.len(),
                writers@ == listed.take(writers@.len() as int),
                forall|i: int|
                    writers@.len() <= i < listed.len() ==> (#[trigger] listed[i]).1@.tag != wanted@,
                lists(listed, before.writers(key@)),
                self@ == before,
                before == old(self)@,
                tag == Some(wanted),
                self.settings() == old(self).settings(),
            decreases writers.len(),
        {
            let ghost n = writers@.len() - 1;
            assert(writers@[n] == listed[n]);
            let last = writers.pop();
            if let Some((write_id, writer)) = last {
                if same_bytes(writer.write_id_bytes.as_slice(), wanted) {
                    assert(before.writers(key@).contains_key(write_id));
                    return Lookup::Found {
                        meta: writer.meta,
                        source: HitSource::Stream { write_id, reader: PartialHitHandler::new() },
                    };
                }
            }
            assert(writers@ =~= listed.take(writers@.len() as int));
        }
        assert(!before.has_tag(key@, wanted@));
        self.metrics.count_attach_miss();
        proof {
            if before.inv() {
                lemma_same_partials_inv(before, self@);
            }
        }
        Lookup::Miss
    }

    /// Takes what was found on disk: the metadata of the entry, with a reader of
    /// its body, or a miss. An error on disk is passed on, and not counted.
    pub fn lookup_on_disk(&mut self, opened: Result<Option<MetaBytes>, StoreError>) -> (found:
        Result<Option<(MetaBytes, DiskHitHandler)>, StoreError>)
        ensures
            final(self).settings() == old(self).settings(),
            match opened {
                Ok(Some(meta)) => {
                    &&& found matches Ok(Some((m, reader)))
                    &&& m@ == meta@
                    &&& reader@ == DiskReader::whole()
                    &&& final(self)@ == old(self)@
                },
                Ok(None) => {
                    &&& found matches Ok(None)
                    &&& final(self)@ == (StoreState {
                        metrics: old(self)@.metrics.missed(),
                        ..old(self)@
                    })
                },
                Err(e) => {
                    &&& found matches Err(f)
                    &&& f == e
                    &&& final(self)@ == old(self)@
                },
            },
            final(self)@ == old(self)@.disk_looked_up(opened_view(opened)),
            served_from_disk(opened_view(opened), found),
            old(self)@.inv() ==> final(self)@.inv(),
    {
        match opened {
            Ok(Some(meta)) => Ok(Some((meta, DiskHitHandler::new()))),
            Ok(None) => {
                let ghost before = self@;
                self.metrics.count_miss();
                proof {
                    if before.inv() {
                        lemma_same_partials_inv(before, self@);
                    }
                }
                Ok(None)
            },
            Err(e) => Err(e),
        }
    }

    /// Counts a hit once the metadata that was found has been decoded. A hit
    /// whose metadata is unreadable is not counted.
    pub fn count_decoded(&mut self, tagged: bool, decoded: bool)
        ensures
            final(self)@ == (StoreState {
                metrics: if !decoded {
                    old(self)@.metrics
                } else if tagged {
                    old(self)@.metrics.attached()
                } else {
                    old(self)@.metrics.hit()
                },
                ..old(self)@
            }),
            final(self)@ == old(self)@.decoded(tagged, decoded),
            final(self).settings() == old(self).settings(),
            old(self)@.inv() ==> final(self)@.inv(),
    {
        let ghost before = self@;
        if decoded {
            if tagged {
                self.metrics.count_attach();
            } else {
                self.metrics.count_hit();
            }
        }
        proof {
            if before.inv() {
                lemma_same_partials_inv(before, self@);
            }
        }
    }

    /// Admits a new write for `key`, unless there are too many already. A write
    /// whose metadata could not be serialized fails, and gives back its place;
    /// only its id is used up.
    pub fn get_miss_handler(&mut self, key: &str, meta: Option<MetaBytes>) -> (r: Result<
        EdgeMissHandler,
        StoreError,
    >)
        requires
            old(self).settings().max_partial_writes is Some ==> old(self)@.partial_count
                < usize::MAX,
        ensures
            final(self).settings() == old(self).settings(),
            old(self)@.full(old(self).settings().max_partial_writes) ==> {
                &&& r == Err::<EdgeMissHandler, StoreError>(
                    StoreError::TooManyPartialWrites {
                        limit: old(self).settings().max_partial_writes->0,
                    },
                )
                &&& final(self)@ == old(self)@
            },
            !old(self)@.full(old(self).settings().max_partial_writes) && meta is None ==> {
                &&& r == Err::<EdgeMissHandler, StoreError>(StoreError::MetaNotSerialized)
                &&& final(self)@ == old(self)@.id_spent()
            },
            !old(self)@.full(old(self).settings().max_partial_writes) && meta is Some ==> {
                &&& r is Ok
                &&& r->Ok_0@ == new_writer(
                    old(self).settings(),
                    key@,
                    old(self)@.write_counter,
                    meta->0@,
                )
                &&& final(self)@ == old(self)@.admitted().registered(
                    key@,
                    old(self)@.write_counter,
                    meta->0@,
                )
            },
            handler_view(r) == old(self)@.admission(old(self).settings(), key@, meta_view(meta)),
            final(self)@ == old(self)@.after_admission(
                old(self).settings(),
                key@,
                meta_view(meta),
            ),
            old(self)@.inv() ==> final(self)@.inv(),
    {
        let ghost before = self@;
        if let Some(limit) = self.max_partial_writes {
            let current: usize = self.partial_count + 1;
            if current > limit {
                return Err(StoreError::TooManyPartialWrites { limit });
            }
        }
        self.partial_count = self.partial_count.wrapping_add(1);
        let write_id: u64 = self.next_write_id();
        let write_id_bytes = to_be_bytes(write_id);
        proof {
            if before.inv() {
                lemma_same_partials_inv(before, self@);
            }
            assert(self@ =~= before.admitted());
        }
        let meta = match meta {
            Some(meta) => meta,
            None => {
                self.partial_count = self.partial_count.wrapping_sub(1);
                proof {
                    if before.inv() {
                        lemma_same_partials_inv(before, self@);
                    }
                    assert(self@ =~= before.id_spent());
                }
                return Err(StoreError::MetaNotSerialized);
            },
        };
        let ghost admitted = self@;
        insert_writer(
            &mut self.memory.partial,
            key.to_owned(),
            write_id,
            PartialObject { meta: meta.clone(), write_id_bytes },
        );
        self.metrics.add_writer();
        proof {
            assert(self@ =~= admitted.registered(key@, write_id, meta@));
            if before.inv() {
                lemma_registered_inv(admitted, key@, write_id, meta@);
            }
            lemma_key_hash_shape(key@);
        }
        let dir = self.entry_path(key);
        Ok(
            EdgeMissHandler::new(
                key.to_owned(),
                write_id,
                write_id_bytes,
                meta,
                dir,
                self.max_object_bytes,
                self.max_disk_bytes,
                self.atomic_publish,
            ),
        )
    }

    /// Takes note that the object of `key` was written to disk, or that this
    /// failed. Once it is on disk, memory lets go of it.
    pub fn persisted(&mut self, key: &str, ok: bool)
        ensures
            final(self)@ == if ok {
                old(self)@.demoted(key@)
            } else {
                old(self)@
            },
            final(self)@ == old(self)@.persist_reported(key@, ok),
            final(self).settings() == old(self).settings(),
            old(self)@.inv() ==> final(self)@.inv(),
    {
        let ghost before = self@;
        if ok {
            if remove_object(&mut self.memory.cache, key) {
                self.metrics.count_demotion();
            }
            assert(before.cached.contains_key(key@) || before.cached.remove(key@)
                =~= before.cached);
        }
        proof {
            if before.inv() {
                lemma_same_partials_inv(before, self@);
            }
        }
    }

    /// Drops `key` from memory, object and writes in progress, takes its body off
    /// the disk account, and hands back the steps that remove it from disk.
    /// `disk_len` is the size of its body file, if there is one.
    pub fn purge(&mut self, key: &str, purge_type: PurgeType, disk_len: Option<u64>) -> (outcome:
        PurgeOutcome)
        ensures
            outcome.existed == old(self)@.purge_finds(key@),
            outcome.plan@ == remove_steps(entry_dir(old(self).settings().disk_root, key@)),
            outcome.plan@ == old(self).settings().purge_steps(key@),
            final(self)@ == old(self)@.purged(
                old(self).settings().max_disk_bytes,
                key@,
                purge_type,
                disk_len,
            ),
            final(self).settings() == old(self).settings(),
            old(self)@.inv() ==> final(self)@.inv(),
    {
        let ghost before = self@;
        if self.max_disk_bytes.is_some() {
            let len: usize = match disk_len {
                Some(len) => len as usize,
                None => match get_object(&self.memory.cache, key) {
                    Some(object) => object.body.len(),
                    None => 0,
                },
            };
            if len > 0 {
                let after: usize = self.disk_bytes_used.saturating_sub(len);
                self.disk_bytes_used = after;
                self.metrics.set_disk_bytes(after);
            }
        }
        let ghost discharged = self@;
        assert(discharged =~= before.discharged(
            purged_len(before, self.max_disk_bytes, key@, disk_len),
        ));
        let writers: usize = match list_writers(&self.memory.partial, key) {
            Some(listed) => {
                proof {
                    lemma_lists_len(listed@, discharged.partials[key@]);
                }
                listed.len()
            },
            None => 0,
        };
        let cached = remove_object(&mut self.memory.cache, key);
        let streamed = remove_writers(&mut self.memory.partial, key);
        let existed = cached || streamed;
        if existed {
            let n: usize = count_objects(&self.memory.cache);
            self.metrics.set_keys(n);
        }
        self.metrics.remove_writers(writers);
        assert(self@ =~= discharged.forgotten(key@));
        proof {
            if before.inv() {
                lemma_same_partials_inv(before, discharged);
                lemma_forgotten_inv(discharged, key@);
            }
        }
        let ghost forgotten = self@;
        match purge_type {
            PurgeType::Eviction => self.metrics.count_eviction(),
            PurgeType::Invalidation => self.metrics.count_invalidation(),
        }
        proof {
            if before.inv() {
                lemma_same_partials_inv(forgotten, self@);
            }
        }
        let dir = self.entry_path(key);
        PurgeOutcome { existed, plan: remove_entry(&dir) }
    }

    /// Replaces the metadata of `key` wherever memory holds it, and hands back
    /// the steps that replace it on disk. Fails when the metadata could not be
    /// serialized.
    pub fn update_meta(&mut self, key: &str, meta: Option<MetaBytes>) -> (r: Result<
        MetaUpdate,
        StoreError,
    >)
        ensures
            final(self).settings() == old(self).settings(),
            meta is None ==> r == Err::<MetaUpdate, StoreError>(StoreError::MetaNotSerialized)
                && final(self)@ == old(self)@,
            meta is Some ==> {
                &&& r is Ok
                &&& r->Ok_0.updated == old(self)@.meta_updatable(key@)
                &&& r->Ok_0.meta@ == meta->0@
                &&& r->Ok_0.plan@ == meta_steps(entry_dir(old(self).settings().disk_root, key@))
                &&& r->Ok_0.plan@ == old(self).settings().update_steps(key@)
                &&& final(self)@ == old(self)@.meta_updated(key@, meta->0@)
            },
            old(self)@.inv() ==> final(self)@.inv(),
    {
        let ghost before = self@;
        let meta = match meta {
            Some(meta) => meta,
            None => return Err(StoreError::MetaNotSerialized),
        };
        let mut updated = false;
        if let Some(object) = get_object(&self.memory.cache, key) {
            insert_object(
                &mut self.memory.cache,
                key.to_owned(),
                CacheObject { meta: meta.clone(), body: object.body },
            );
            updated = true;
        }
        if self.update_writers(key, &meta) {
            updated = true;
        }
        proof {
            assert(self@ =~= before.meta_updated(key@, meta@));
            if before.inv() {
                lemma_meta_updated_inv(before, key@, meta@);
            }
        }
        let dir = self.entry_path(key);
        Ok(MetaUpdate { updated, meta, plan: replace_meta(&dir) })
    }

    /// Replaces the metadata of every write in progress of `key`, and tells
    /// whether there was one.
    fn update_writers(&mut self, key: &str, meta: &MetaBytes) -> (any: bool)
        ensures
            any == (old(self)@.writers(key@) != Map::<u64, PartialView>::empty()),
            final(self)@ == (StoreState {
                partials: old(self)@.meta_updated(key@, meta@).partials,
                ..old(self)@
            }),
            final(self).settings() == old(self).settings(),
    {
        let ghost before = self@;
        let mut writers: Vec<(u64, PartialObject)> = match list_writers(&self.memory.partial, key) {
            Some(writers) => writers,
            None => Vec::new(),
        };
        let ghost listed = writers@;
        let any = writers.len() > 0;
        proof {
            if any {
                assert(before.writers(key@).contains_key(listed[0].0));
            } else {
                assert(before.writers(key@) =~= Map::<u64, PartialView>::empty());
            }
        }
        while writers.len() > 0
            invariant
                writers@.len() <= listed.len(),
                writers@ == listed.take(writers@.len() as int),
                lists(listed, before.writers(key@)),
                self.settings() == old(self).settings(),
                self@ == (StoreState { partials: self@.partials, ..before }),
                forall|k: Seq<char>| #[trigger]
                    self@.partials.contains_key(k) <==> before.partials.contains_key(k),
                forall|k: Seq<char>| #[trigger]
                    self@.partials.contains_key(k) && k != key@ ==> self@.partials[k]
                        == before.partials[k],
                forall|id: u64| #[trigger]
                    self@.writers(key@).contains_key(id) <==> before.writers(key@).contains_key(id),
                forall|i: int|
                    0 <= i < writers@.len() ==> self@.writers(key@)[(#[trigger] listed[i]).0]
                        == before.writers(key@)[listed[i].0],
                forall|i: int|
                    writers@.len() <= i < listed.len() ==> self@.writers(
                        key@,
                    )[(#[trigger] listed[i]).0] == (PartialView {
                        meta: meta@,
                        tag: before.writers(key@)[listed[i].0].tag,
                    }),
            decreases writers.len(),
        {
            let ghost n = writers@.len() - 1;
            assert(writers@[n] == listed[n]);
            assert(before.writers(key@).contains_key(listed[n].0));
            let last = writers.pop();
            if let Some((write_id, writer)) = last {
                insert_writer(
                    &mut self.memory.partial,
                    key.to_owned(),
                    write_id,
                    PartialObject { meta: meta.clone(), write_id_bytes: writer.write_id_bytes },
                );
            }
            assert(writers@ =~= listed.take(writers@.len() as int));
        }
        proof {
            let after = before.meta_updated(key@, meta@);
            if before.partials.contains_key(key@) {
                assert(self@.partials[key@] =~= after.partials[key@]) by {
                    assert(self@.writers(key@) == self@.partials[key@]);
                }
            }
            assert(self@.partials =~= after.partials);
        }
        any
    }

    /// Readers can follow a write in progress.
    pub fn support_streaming_partial_write(&self) -> (yes: bool)
        ensures
            yes,
    {
        true
    }
}

impl EdgeMemoryStorageBuilder {
    /// An empty store with these settings.
    pub fn build(self) -> (store: EdgeMemoryStorage)
        ensures
            store.settings() == self.settings(),
            store@ == StoreState::fresh(self.settings()),
            store@.inv(),
    {
        let mut store = EdgeMemoryStorage::with_disk_root(self.disk_root);
        store.max_object_bytes = self.max_object_bytes;
        store.max_partial_writes = self.max_partial_writes;
        store.max_disk_bytes = self.max_disk_bytes;
        store.atomic_publish = match self.atomic_publish {
            Some(on) => on,
            None => true,
        };
        store.io_uring_enabled = match self.io_uring_enabled {
            Some(on) => on,
            None => false,
        };
        store.max_in_mem_partial_bytes = self.max_in_mem_partial_bytes;
        store.update_feature_gauges();
        store
    }
}

/// Where a body that was found can be read.
pub enum HitSource {
    /// In memory.
    Memory(CompleteHitHandler),
    /// From the write in progress with this id, as it comes in.
    Stream { write_id: u64, reader: PartialHitHandler },
}

/// The result of a lookup in memory.
pub enum Lookup {
    /// Found, with its metadata still serialized.
    Found { meta: MetaBytes, source: HitSource },
    /// Not in memory; it may be in this directory.
    OnDisk { dir: DiskPath },
    /// Not to be found.
    Miss,
}

/// What a purge did, and what it leaves to be done on disk.
pub struct PurgeOutcome {
    /// Whether memory held the key.
    pub existed: bool,
    pub plan: DiskPlan,
}

/// What an update of metadata did, and what it leaves to be done on disk.
pub struct MetaUpdate {
    /// Whether memory held the key.
    pub updated: bool,
    /// What the metadata files are to hold.
    pub meta: MetaBytes,
    pub plan: DiskPlan,
}

/// Metadata as a value, if there is any.
pub open spec fn meta_view(meta: Option<MetaBytes>) -> Option<MetaView> {
    match meta {
        Some(meta) => Some(meta@),
        None => None,
    }
}

/// What opening an entry on disk came to, with metadata as a value.
pub open spec fn opened_view(opened: Result<Option<MetaBytes>, StoreError>) -> Result<
    Option<MetaView>,
    StoreError,
> {
    match opened {
        Ok(meta) => Ok(meta_view(meta)),
        Err(e) => Err(e),
    }
}

/// The answer to a request for a handler, with the handler as a value.
pub open spec fn handler_view(r: Result<EdgeMissHandler, StoreError>) -> Result<
    WriterView,
    StoreError,
> {
    match r {
        Ok(handler) => Ok(handler@),
        Err(e) => Err(e),
    }
}

/// `found` is what a lookup makes of what was opened on disk: the metadata, with a
/// reader of the whole file, or nothing, or the error.
pub open spec fn served_from_disk(
    opened: Result<Option<MetaView>, StoreError>,
    found: Result<Option<(MetaBytes, DiskHitHandler)>, StoreError>,
) -> bool {
    match opened {
        Ok(Some(meta)) => found matches Ok(Some((m, reader))) && m@ == meta && reader@
            == DiskReader::whole(),
        Ok(None) => found matches Ok(None),
        Err(e) => found matches Err(f) && f == e,
    }
}

/// `found` is what a lookup of `key` in `s` gives: the complete object, else one
/// of the writes in progress, else the directory to look in.
pub open spec fn found_in_memory(
    s: StoreState,
    settings: Settings,
    key: Seq<char>,
    found: Lookup,
) -> bool {
    if s.cached.contains_key(key) {
        &&& found matches Lookup::Found { meta, source }
        &&& source matches HitSource::Memory(reader)
        &&& meta@ == s.cached[key].meta
        &&& reader@ == CompleteReader::of(s.cached[key].body)
    } else if s.writers(key) != Map::<u64, PartialView>::empty() {
        &&& found matches Lookup::Found { meta, source }
        &&& source matches HitSource::Stream { write_id, reader }
        &&& s.writers(key).contains_key(write_id)
        &&& meta@ == s.writers(key)[write_id].meta
        &&& reader@ == 0
    } else {
        &&& found matches Lookup::OnDisk { dir }
        &&& dir@ == entry_dir(settings.disk_root, key)
    }
}

/// `found` is what a lookup of `key` by `tag` gives: the write in progress that
/// has the tag, or nothing.
pub open spec fn attached_by_tag(
    s: StoreState,
    key: Seq<char>,
    tag: Seq<u8>,
    found: Lookup,
) -> bool {
    if s.has_tag(key, tag) {
        &&& found matches Lookup::Found { meta, source }
        &&& source matches HitSource::Stream { write_id, reader }
        &&& s.writers(key).contains_key(write_id)
        &&& s.writers(key)[write_id].tag == tag
        &&& meta@ == s.writers(key)[write_id].meta
        &&& reader@ == 0
    } else {
        found is Miss
    }
}

} // verus!
