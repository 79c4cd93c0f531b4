//! The store from end to end, on a disk that is simulated in memory.

use bytes::Bytes;
use dashmap::DashMap;
use edge_cdn_store::disk::{DiskOp, DiskPlan, EntryPart, PlanRun};
use edge_cdn_store::hit::{DiskReadResult, PartialRead};
use edge_cdn_store::layout::{hash_str, DiskPath};
use edge_cdn_store::probe::{DiskOpen, OpenAction, OpenEvent, OpenOutcome};
use edge_cdn_store::record::CacheObject;
use edge_cdn_store::storage::{HitSource, Lookup};
use edge_cdn_store::{
    CompleteHitHandler, DiskHitHandler, EdgeMemoryStorage, EdgeMemoryStorageBuilder,
    EdgeMissHandler, ErrorKind, MetaBytes, PurgeType, StoreError,
};
use std::collections::{BTreeMap, BTreeSet};
use std::sync::Arc;

struct Disk {
    files: BTreeMap<Vec<String>, Vec<u8>>,
    dirs: BTreeSet<Vec<String>>,
}

fn starts_with(path: &[String], dir: &[String]) -> bool {
    path.len() >= dir.len() && &path[..dir.len()] == dir
}

impl Disk {
    fn new() -> Disk {
        Disk {
            files: BTreeMap::new(),
            dirs: BTreeSet::new(),
        }
    }

    fn perform(&mut self, op: &DiskOp, meta: &MetaBytes, body: &[u8]) -> bool {
        let content = |part: EntryPart| match part {
            EntryPart::Body => body.to_vec(),
            EntryPart::MetaInternal => meta.internal.clone(),
            EntryPart::MetaHeader => meta.header.clone(),
        };
        match op {
            DiskOp::CreateDirAll { dir } => {
                for i in 1..=dir.components.len() {
                    self.dirs.insert(dir.components[..i].to_vec());
                }
                true
            }
            DiskOp::RemoveDirAll { dir } => {
                let there = self.dirs.contains(&dir.components);
                self.dirs.retain(|d| !starts_with(d, &dir.components));
                self.files.retain(|f, _| !starts_with(f, &dir.components));
                there
            }
            DiskOp::RemoveFile { path } => self.files.remove(&path.components).is_some(),
            DiskOp::CreateFile { path } => {
                let parent = path.components[..path.components.len() - 1].to_vec();
                if !self.dirs.contains(&parent) {
                    return false;
                }
                self.files.insert(path.components.clone(), Vec::new());
                true
            }
            DiskOp::WriteAll { path, part } => match self.files.get_mut(&path.components) {
                Some(file) => {
                    file.extend_from_slice(&content(*part));
                    true
                }
                None => false,
            },
            DiskOp::Flush { path } | DiskOp::SyncAll { path } => {
                self.files.contains_key(&path.components)
            }
            DiskOp::WriteFile { path, part } => {
                let data = content(*part);
                self.files.insert(path.components.clone(), data);
                true
            }
            DiskOp::SyncDir { dir } => self.dirs.contains(&dir.components),
            DiskOp::Rename { from, to } => {
                if !self.dirs.contains(&from.components) || self.dirs.contains(&to.components) {
                    return false;
                }
                let n = from.components.len();
                let move_path = |p: &Vec<String>| {
                    let mut q = to.components.clone();
                    q.extend_from_slice(&p[n..]);
                    q
                };
                self.dirs = self
                    .dirs
                    .iter()
                    .map(|d| {
                        if starts_with(d, &from.components) {
                            move_path(d)
                        } else {
                            d.clone()
                        }
                    })
                    .collect();
                self.files = self
                    .files
                    .iter()
                    .map(|(f, data)| {
                        if starts_with(f, &from.components) {
                            (move_path(f), data.clone())
                        } else {
                            (f.clone(), data.clone())
                        }
                    })
                    .collect();
                true
            }
        }
    }

    fn carry_out(
        &mut self,
        plan: &DiskPlan,
        meta: &MetaBytes,
        body: &[u8],
    ) -> Result<(), StoreError> {
        for step in plan.steps.iter() {
            let ok = self.perform(&step.op, meta, body);
            step.settle(ok)?;
        }
        Ok(())
    }

    fn open(&self, dir: &DiskPath) -> Result<Option<MetaBytes>, StoreError> {
        let mut opening = DiskOpen::new(dir.clone());
        loop {
            let event = match opening.action() {
                OpenAction::Exists { path } => {
                    OpenEvent::Exists(self.files.contains_key(&path.components))
                }
                OpenAction::OpenFile { .. } => OpenEvent::Opened,
                OpenAction::ReadToEnd { path } => {
                    OpenEvent::Content(self.files[&path.components].clone())
                }
            };
            match opening.handle(event) {
                OpenOutcome::Continue | OpenOutcome::Retry { .. } => {}
                OpenOutcome::Found(meta) => return Ok(Some(meta)),
                OpenOutcome::Absent => return Ok(None),
                OpenOutcome::Failed(e) => return Err(e),
            }
        }
    }

    fn read_body(&self, dir: &DiskPath, reader: &mut DiskHitHandler) -> Vec<u8> {
        let mut path = dir.components.clone();
        path.push("body.bin".to_string());
        let file = &self.files[&path];
        let mut all = Vec::new();
        while let Some(read) = reader.next_read() {
            let from = (read.offset as usize).min(file.len());
            let n = read.len.min(file.len() - from);
            let mut buf = vec![0; read.len];
            buf[..n].copy_from_slice(&file[from..from + n]);
            match reader.read_body(DiskReadResult::Read { buf, n }).unwrap() {
                Some(chunk) => all.extend_from_slice(chunk.as_ref()),
                None => break,
            }
        }
        all
    }
}

fn meta_with(header: &[u8]) -> MetaBytes {
    MetaBytes {
        internal: b"fresh for 60 seconds".to_vec(),
        header: header.to_vec(),
    }
}

fn meta() -> MetaBytes {
    meta_with(b"HTTP/1.1 200 OK")
}

fn open(storage: &mut EdgeMemoryStorage, key: &str) -> EdgeMissHandler {
    match storage.get_miss_handler(key, Some(meta())) {
        Ok(handler) => handler,
        Err(e) => panic!("not admitted: {:?}", e),
    }
}

fn rooted(root: &str) -> EdgeMemoryStorage {
    EdgeMemoryStorage::with_disk_root(root.to_string())
}

fn drain(reader: &mut CompleteHitHandler) -> Vec<u8> {
    let mut all = Vec::new();
    while let Some(chunk) = reader.read_chunk() {
        all.extend_from_slice(chunk.as_ref());
    }
    all
}

/// Writes `body` as one piece, and finishes.
fn write(
    storage: &mut EdgeMemoryStorage,
    key: &str,
    body: &'static [u8],
) -> edge_cdn_store::miss::PersistJob {
    let mut mh = open(storage, key);
    let announced = mh.write_body(&Bytes::from_static(body), true).unwrap();
    assert_eq!(announced, usize::MAX);
    let finished = mh.finish(storage).unwrap();
    assert_eq!(finished.size, body.len());
    finished.job
}

/// Carries out what is left to do on disk, and reports back.
fn persist(disk: &mut Disk, storage: &mut EdgeMemoryStorage, job: &edge_cdn_store::miss::PersistJob) {
    let r = disk.carry_out(&job.plan, &job.object.meta, &job.object.body);
    storage.persisted(&job.key, r.is_ok());
    assert!(r.is_ok());
}

fn memory_hit(storage: &EdgeMemoryStorage, key: &str) -> (MetaBytes, CompleteHitHandler) {
    match storage.lookup(key) {
        Lookup::Found {
            meta,
            source: HitSource::Memory(reader),
        } => (meta, reader),
        _ => panic!("not in memory"),
    }
}

/// A lookup that goes to disk, with what it finds there.
fn disk_hit(
    disk: &Disk,
    storage: &mut EdgeMemoryStorage,
    key: &str,
) -> Option<(MetaBytes, DiskPath, DiskHitHandler)> {
    let dir = match storage.lookup(key) {
        Lookup::OnDisk { dir } => dir,
        _ => panic!("in memory"),
    };
    let opened = disk.open(&dir);
    let found = storage.lookup_on_disk(opened).unwrap();
    if found.is_some() {
        storage.count_decoded(false, true);
    }
    found.map(|(meta, reader)| (meta, dir, reader))
}

#[test]
fn storage_constructs() {
    let _storage = EdgeMemoryStorage::new(None);
}

#[test]
fn a_new_store_announces_its_features() {
    let stores = [
        EdgeMemoryStorage::new(None),
        EdgeMemoryStorage::with_disk_root("here".to_string()),
        EdgeMemoryStorageBuilder::new().build(),
    ];
    for store in stores {
        assert!(store.atomic_publish);
        assert_eq!(store.metrics.atomic_publish_enabled, 1);
        assert_eq!(store.metrics.io_uring_enabled, 0);
    }
}

#[test]
fn the_pieces_written_are_the_object_served() {
    let mut storage = rooted("pieces");
    let mut mh = open(&mut storage, "k");
    for piece in [&b"one "[..], b"", b"two ", b"three"] {
        let before = mh.body().clone();
        let announced = mh.write_body(&Bytes::from_static(piece), false).unwrap();
        assert_eq!(announced, before.len() + piece.len());
        assert!(mh.body().starts_with(&before));
    }
    let job = mh.finish(&mut storage).unwrap().job;
    assert_eq!(*job.object.body, b"one two three");
    assert_eq!(drain(&mut memory_hit(&storage, "k").1), b"one two three");
    // Readers of the write can still follow it to its end.
    assert_eq!(mh.body(), b"one two three");
}

#[test]
fn concurrent_access_does_not_panic() {
    let runtime = tokio::runtime::Builder::new_multi_thread().build().unwrap();
    runtime.block_on(async {
        let storage = Arc::new(EdgeMemoryStorage::new(None));
        let handles: Vec<_> = (0..10)
            .map(|_| {
                let s = Arc::clone(&storage);
                tokio::spawn(async move {
                    let _ = &s.write_counter;
                })
            })
            .collect();
        for h in handles {
            h.await.unwrap();
        }
    });
}

#[test]
fn dashmap_readers_share_arc() {
    let cache: DashMap<String, Arc<Vec<u8>>> = DashMap::new();
    let key = "k";
    let data = Arc::new(b"v".to_vec());
    cache.insert(key.to_string(), data.clone());
    assert_eq!(cache.get(key).unwrap().value().as_slice(), b"v");
    assert_eq!(cache.get(key).unwrap().value().as_slice(), b"v");
}

#[test]
fn copies_of_an_object_share_its_body() {
    let object = CacheObject {
        meta: meta(),
        body: Arc::new(b"v".to_vec()),
    };
    let copy = object.clone();
    assert!(Arc::ptr_eq(&object.body, &copy.body));
    assert_eq!(copy.meta, meta());
}

#[test]
fn write_hit_reload_and_purge() {
    let mut disk = Disk::new();
    let mut storage = rooted("persist");
    let key = "ns/resource/u1";
    let job = write(&mut storage, key, b"hello");

    // memory hit
    assert!(matches!(storage.lookup(key), Lookup::Found { .. }));

    // a new instance reloads
    persist(&mut disk, &mut storage, &job);
    let mut storage2 = rooted("persist");
    let hit = disk_hit(&disk, &mut storage2, key);
    assert!(hit.is_some());
    assert_eq!(storage2.metrics.hits, 1);

    // purge
    let outcome = storage2.purge(key, PurgeType::Invalidation, None);
    assert!(!outcome.existed);
    disk.carry_out(&outcome.plan, &meta(), b"").unwrap();
    assert!(disk_hit(&disk, &mut storage2, key).is_none());
    assert_eq!(storage2.metrics.misses, 1);
    assert_eq!(storage2.metrics.invalidations, 1);
}

#[test]
fn miss_to_hit_and_disk_reload() {
    let mut disk = Disk::new();
    let mut storage = rooted("miss_to_hit");
    let key = "ns/resource/u1";
    let job = write(&mut storage, key, b"hello world");

    // Lookup should hit memory
    let (found, mut hit) = memory_hit(&storage, key);
    assert_eq!(found, meta());
    assert_eq!(drain(&mut hit), b"hello world");

    // New storage pointing to same disk root should load from disk
    persist(&mut disk, &mut storage, &job);
    let mut storage2 = rooted("miss_to_hit");
    let (found2, dir, mut hit2) = disk_hit(&disk, &mut storage2, key).expect("hit");
    assert_eq!(found2, meta());
    assert_eq!(disk.read_body(&dir, &mut hit2), b"hello world");
}

#[test]
fn demotes_in_memory_after_background_persist() {
    let mut disk = Disk::new();
    let mut storage = rooted("demote");
    let key = "ns/demote/u1";
    let job = write(&mut storage, key, b"hello world");

    // Immediate lookup should hit (served from memory)
    assert!(matches!(storage.lookup(key), Lookup::Found { .. }));
    assert_eq!(storage.metrics.keys, 1);

    persist(&mut disk, &mut storage, &job);
    let dir = storage.key_dir(&hash_str(key)).components;
    for name in ["body.bin", "meta_header.bin", "meta_internal.bin"] {
        let mut path = dir.clone();
        path.push(name.to_string());
        assert!(disk.files.contains_key(&path));
    }

    // In-memory entry is removed, and the lookup is still a hit
    assert_eq!(storage.metrics.keys, 0);
    assert!(disk_hit(&disk, &mut storage, key).is_some());
}

#[test]
fn demotion_increments_metric() {
    let mut disk = Disk::new();
    let mut storage = rooted("demote_metric");
    let before = storage.metrics.demotions;
    let job = write(&mut storage, "ns/dmetric/u1", b"abc");
    persist(&mut disk, &mut storage, &job);
    let after = storage.metrics.demotions;
    assert!(after >= before + 1, "demotion counter should increase");
}

#[test]
fn a_failed_persist_keeps_the_object_in_memory() {
    let mut storage = rooted("fail");
    let _job = write(&mut storage, "k", b"abc");
    storage.persisted("k", false);
    assert_eq!(storage.metrics.demotions, 0);
    assert_eq!(drain(&mut memory_hit(&storage, "k").1), b"abc");
}

#[test]
fn atomic_publish_persists_and_no_tmp_left() {
    let mut disk = Disk::new();
    let mut storage = EdgeMemoryStorageBuilder::new()
        .with_disk_root("atomic".to_string())
        .with_atomic_publish(Some(true))
        .build();
    let key = "ns/atomic/u1";
    let job = write(&mut storage, key, b"hello atomic");
    persist(&mut disk, &mut storage, &job);

    let dir = storage.key_dir(&hash_str(key));
    let tmp_dir = dir.tmp_sibling();
    assert!(disk.dirs.contains(&dir.components));
    assert!(
        !disk.dirs.contains(&tmp_dir.components),
        "temporary dir should be removed after atomic rename"
    );
    assert_eq!(disk.files.len(), 3);

    // New instance should be able to hit from disk
    let mut storage2 = rooted("atomic");
    let hit = disk_hit(&disk, &mut storage2, key);
    assert!(hit.is_some());
}

#[test]
fn atomic_publish_replaces_an_older_entry() {
    let mut disk = Disk::new();
    let mut storage = rooted("again");
    for body in [&b"first, and longer"[..], b"second"] {
        let job = write(&mut storage, "k", body);
        persist(&mut disk, &mut storage, &job);
    }
    let (_, dir, mut reader) = disk_hit(&disk, &mut storage, "k").unwrap();
    assert_eq!(disk.read_body(&dir, &mut reader), b"second");
    assert_eq!(disk.files.len(), 3);
}

#[test]
fn atomic_publish_stopped_anywhere_shows_no_half_entry() {
    let mut storage = rooted("crash");
    let old = write(&mut storage, "k", b"old body");
    let new = write(&mut storage, "k", b"new body");
    let dir = storage.entry_path("k");
    for k in 0..=new.plan.steps.len() {
        let mut disk = Disk::new();
        persist(&mut disk, &mut storage, &old);
        for step in new.plan.steps.iter().take(k) {
            disk.perform(&step.op, &new.object.meta, &new.object.body);
        }
        let body = disk
            .open(&dir)
            .unwrap()
            .map(|_| disk.read_body(&dir, &mut DiskHitHandler::new()));
        let expected: Option<&[u8]> = match k {
            0..=13 => Some(b"old body"),
            14 => None,
            _ => Some(b"new body"),
        };
        assert_eq!(body.as_deref(), expected);
    }
}

#[test]
fn a_removal_that_fails_halfway_shows_no_half_entry() {
    let mut storage = rooted("halfway");
    let old = write(&mut storage, "k", b"old body");
    let new = write(&mut storage, "k", b"new body");
    let dir = storage.entry_path("k");
    for left in 0..8 {
        let mut disk = Disk::new();
        persist(&mut disk, &mut storage, &old);
        for step in new.plan.steps.iter().take(13) {
            disk.perform(&step.op, &new.object.meta, &new.object.body);
        }
        // The old entry is removed only in part, and the move then finds its
        // name taken.
        let names = ["body.bin", "meta_internal.bin", "meta_header.bin"];
        for (i, name) in names.into_iter().enumerate() {
            if left & (1 << i) == 0 {
                let mut path = dir.components.clone();
                path.push(name.to_string());
                disk.files.remove(&path).unwrap();
            }
        }
        assert!(new.plan.steps[13].settle(false).is_ok());
        assert!(new.plan.steps[14].settle(false).is_err());
        let body = disk
            .open(&dir)
            .unwrap()
            .map(|_| disk.read_body(&dir, &mut DiskHitHandler::new()));
        let expected: Option<&[u8]> = if left == 7 { Some(b"old body") } else { None };
        assert_eq!(body.as_deref(), expected);
    }
}

#[test]
fn plain_publish_writes_in_place() {
    let mut disk = Disk::new();
    let mut storage = EdgeMemoryStorageBuilder::new()
        .with_disk_root("plain".to_string())
        .with_atomic_publish(Some(false))
        .build();
    let job = write(&mut storage, "k", b"hello");
    assert_eq!(job.plan.steps.len(), 10);
    persist(&mut disk, &mut storage, &job);
    let (found, dir, mut reader) = disk_hit(&disk, &mut storage, "k").unwrap();
    assert_eq!(found, meta());
    assert_eq!(disk.read_body(&dir, &mut reader), b"hello");
}

#[test]
fn a_failing_step_names_itself() {
    let mut storage = rooted("steps");
    let job = write(&mut storage, "k", b"hello");
    let contexts: Vec<Option<(ErrorKind, &'static str)>> = job
        .plan
        .steps
        .iter()
        .map(|step| match step.settle(false) {
            Err(StoreError::Disk { kind, context }) => Some((kind, context)),
            _ => None,
        })
        .collect();
    assert_eq!(
        contexts,
        vec![
            Some((ErrorKind::FileCreateError, "create parent dir")),
            None,
            Some((ErrorKind::FileCreateError, "create tmp cache dir")),
            Some((ErrorKind::FileCreateError, "create tmp body file")),
            Some((ErrorKind::FileWriteError, "write tmp body file")),
            Some((ErrorKind::FileWriteError, "sync tmp body file")),
            Some((ErrorKind::FileCreateError, "create tmp internal meta file")),
            Some((ErrorKind::FileWriteError, "write tmp internal meta file")),
            Some((ErrorKind::FileWriteError, "sync tmp internal meta file")),
            Some((ErrorKind::FileCreateError, "create tmp header meta file")),
            Some((ErrorKind::FileWriteError, "write tmp header meta file")),
            Some((ErrorKind::FileWriteError, "sync tmp header meta file")),
            None,
            None,
            Some((ErrorKind::FileWriteError, "rename tmp->final")),
        ]
    );
}

/// Feeds a reader that is attached by tag while the body comes in.
fn follow(storage: &mut EdgeMemoryStorage, key: &str) -> Vec<u8> {
    let mut mh = open(storage, key);
    let tag = mh.streaming_write_tag().unwrap().to_vec();
    let mut reader = match storage.lookup_streaming_write(key, Some(&tag[..])) {
        Lookup::Found {
            source: HitSource::Stream { write_id, reader },
            ..
        } => {
            assert_eq!(write_id, mh.write_id());
            reader
        }
        _ => panic!("partial hit"),
    };
    storage.count_decoded(true, true);
    let mut read = Vec::new();
    assert!(matches!(
        reader.read_available(0, mh.body()),
        PartialRead::Wait
    ));
    let announced = mh
        .write_body(&Bytes::from_static(b"hello "), false)
        .unwrap();
    assert_eq!(announced, 6);
    match reader.read_available(announced, mh.body()) {
        PartialRead::Chunk(chunk) => read.extend_from_slice(chunk.as_ref()),
        _ => panic!("no chunk"),
    }
    assert!(matches!(
        reader.read_available(announced, mh.body()),
        PartialRead::Wait
    ));
    let announced = mh
        .write_body(&Bytes::from_static(b"world"), true)
        .unwrap();
    mh.finish(storage).unwrap();
    loop {
        match reader.read_available(announced, mh.body()) {
            PartialRead::Chunk(chunk) => read.extend_from_slice(chunk.as_ref()),
            PartialRead::End => return read,
            PartialRead::Wait => panic!("the body is complete"),
        }
    }
}

#[test]
fn integration_test_streaming_partial_read() {
    let mut storage = rooted("streaming");
    let collected = follow(&mut storage, "ns/partial/u1");
    assert_eq!(collected, b"hello world");
    assert_eq!(storage.metrics.stream_attach, 1);
    assert_eq!(storage.metrics.hits, 1);
}

#[test]
fn storage_smoke_streaming_partial_read() {
    let mut storage = rooted("streaming");
    let collected = follow(&mut storage, "ns/resource/u1");
    assert_eq!(collected, b"hello world");
}

#[test]
fn streaming_partial_read_uring_mode() {
    let mut storage = EdgeMemoryStorageBuilder::new()
        .with_disk_root("streaming".to_string())
        .with_io_uring_enabled(Some(true))
        .build();
    let collected = follow(&mut storage, "ns/partial/u1");
    assert_eq!(collected, b"hello world");
}

#[test]
fn a_reader_gets_the_rest_when_the_writer_is_gone() {
    let body = b"hello".to_vec();
    let mut reader = edge_cdn_store::PartialHitHandler::new();
    assert!(!reader.can_seek());
    assert!(!reader.should_count_access());
    assert_eq!(reader.seek(0, None), Err(StoreError::SeekUnsupported));
    match reader.read_available(2, &body) {
        PartialRead::Chunk(chunk) => assert_eq!(chunk.as_ref(), b"he"),
        _ => panic!("no chunk"),
    }
    assert_eq!(reader.read_rest(&body).unwrap().as_ref(), b"llo");
    assert!(reader.read_rest(&body).is_none());
}

#[test]
fn lookup_streaming_write_mismatched_tag_returns_none() {
    let mut storage = rooted("stream_tag_mismatch");
    let key = "ns/partial/u1";
    let mut mh = open(&mut storage, key);
    let mut wrong = mh.streaming_write_tag().unwrap().to_vec();
    wrong[0] ^= 0xff;

    let attach = storage.lookup_streaming_write(key, Some(&wrong[..]));
    assert!(matches!(attach, Lookup::Miss));
    assert_eq!(storage.metrics.misses, 1);
    assert_eq!(storage.metrics.stream_attach_miss, 1);

    mh.write_body(&Bytes::from_static(b"ok"), true).unwrap();
    let _ = mh.finish(&mut storage).unwrap();
}

#[test]
fn tags_are_the_big_endian_ids() {
    let mut storage = rooted("tags");
    storage.write_counter = 0x0102030405060708;
    let first = open(&mut storage, "k");
    let second = open(&mut storage, "k");
    assert_eq!(
        first.streaming_write_tag().unwrap(),
        &[1, 2, 3, 4, 5, 6, 7, 8]
    );
    assert_eq!(
        second.streaming_write_tag().unwrap(),
        &[1, 2, 3, 4, 5, 6, 7, 9]
    );
    match storage.lookup_streaming_write("k", second.streaming_write_tag()) {
        Lookup::Found {
            source: HitSource::Stream { write_id, .. },
            ..
        } => assert_eq!(write_id, second.write_id()),
        _ => panic!("not attached"),
    }
}

#[test]
fn a_lookup_prefers_complete_objects_then_writers_then_disk() {
    let mut storage = rooted("order");
    assert!(matches!(storage.lookup("k"), Lookup::OnDisk { .. }));
    let mut writer = open(&mut storage, "k");
    assert!(matches!(
        storage.lookup("k"),
        Lookup::Found {
            source: HitSource::Stream { .. },
            ..
        }
    ));
    let _job = write(&mut storage, "k", b"done");
    assert_eq!(drain(&mut memory_hit(&storage, "k").1), b"done");
    assert!(matches!(
        storage.lookup_streaming_write("k", None),
        Lookup::Found {
            source: HitSource::Memory(_),
            ..
        }
    ));
    writer.cleanup_once(&mut storage);
    storage.persisted("k", true);
    assert!(matches!(storage.lookup("k"), Lookup::OnDisk { .. }));
}

#[test]
fn unreadable_metadata_is_no_hit() {
    let mut storage = rooted("decode");
    storage.count_decoded(false, false);
    storage.count_decoded(true, false);
    assert_eq!(storage.metrics.hits, 0);
    assert_eq!(storage.metrics.stream_attach, 0);
    let e = StoreError::Disk {
        kind: ErrorKind::FileReadError,
        context: "read header meta file",
    };
    assert!(matches!(storage.lookup_on_disk(Err(e)), Err(f) if f == e));
    assert_eq!(storage.metrics.misses, 0);
}

#[test]
fn update_meta_persists_to_disk() {
    let mut disk = Disk::new();
    let mut storage = rooted("update_meta");
    let key = "ns/update/u1";
    let job = write(&mut storage, key, b"hello world");

    let new_meta = meta_with(b"HTTP/1.1 200 OK, x-test: 1");
    let update = storage.update_meta(key, Some(new_meta.clone())).unwrap();
    assert!(update.updated);
    assert_eq!(memory_hit(&storage, key).0, new_meta);
    persist(&mut disk, &mut storage, &job);
    disk.carry_out(&update.plan, &update.meta, b"").unwrap();

    let names: BTreeSet<&str> = disk
        .files
        .keys()
        .map(|path| path[path.len() - 1].as_str())
        .collect();
    assert!(names.contains("meta_internal.bin"));
    assert!(names.contains("meta_header.bin"));
    assert!(names.contains("body.bin"));

    let (found, dir, mut reader) = disk_hit(&disk, &mut storage, key).unwrap();
    assert_eq!(found, new_meta);
    assert_eq!(disk.read_body(&dir, &mut reader), b"hello world");
}

#[test]
fn update_meta_reaches_every_writer_of_the_key() {
    let mut storage = rooted("writers");
    let a = open(&mut storage, "k");
    let b = open(&mut storage, "k");
    let c = open(&mut storage, "other");
    let new_meta = meta_with(b"new");
    let update = storage.update_meta("k", Some(new_meta.clone())).unwrap();
    assert!(update.updated);
    for (key, writer, expected) in [("k", &a, &new_meta), ("k", &b, &new_meta), ("other", &c, &meta())] {
        match storage.lookup_streaming_write(key, writer.streaming_write_tag()) {
            Lookup::Found { meta, .. } => assert_eq!(&meta, expected),
            _ => panic!("not attached"),
        }
    }
    assert!(!storage.update_meta("nobody", Some(meta())).unwrap().updated);
    assert!(matches!(
        storage.update_meta("k", None),
        Err(StoreError::MetaNotSerialized)
    ));
}

#[test]
fn complete_hit_handler_supports_seek() {
    let mut storage = rooted("seek");
    let key = "ns/seek/u1";
    let _job = write(&mut storage, key, b"hello world");
    let (_meta2, mut hit) = memory_hit(&storage, key);
    assert!(hit.can_seek());
    hit.seek(6, None).unwrap();
    assert_eq!(drain(&mut hit), b"world");
    assert_eq!(hit.get_eviction_weight(), 11);

    hit.seek(2, Some(5)).unwrap();
    assert_eq!(drain(&mut hit), b"llo");
    hit.seek(6, Some(100)).unwrap();
    assert_eq!(drain(&mut hit), b"world");
    hit.seek(6, Some(3)).unwrap();
    assert_eq!(drain(&mut hit), b"");
    assert_eq!(
        hit.seek(11, None),
        Err(StoreError::SeekOutOfRange { start: 11, len: 11 })
    );
}

fn disk_reads_and_seeks(mut storage2: EdgeMemoryStorage) {
    let mut disk = Disk::new();
    let mut storage1 = rooted("disk_seek");
    let key = "ns/disk_seek/u1";
    let job = write(&mut storage1, key, b"hello world");
    persist(&mut disk, &mut storage1, &job);

    // Read full body
    let (_meta2, dir, mut hit) = disk_hit(&disk, &mut storage2, key).expect("hit");
    assert_eq!(disk.read_body(&dir, &mut hit), b"hello world");

    // Get a new handler and verify seek works on disk handler too
    let (_m, dir, mut hit2) = disk_hit(&disk, &mut storage2, key).expect("hit again");
    assert!(hit2.can_seek());
    hit2.seek(6, None).unwrap();
    assert_eq!(disk.read_body(&dir, &mut hit2), b"world");
    hit2.seek(0, Some(4)).unwrap();
    assert_eq!(disk.read_body(&dir, &mut hit2), b"hell");
    hit2.seek(4, Some(4)).unwrap();
    assert!(hit2.next_read().is_none());
}

#[test]
fn disk_hit_handler_reads_and_seek() {
    disk_reads_and_seeks(rooted("disk_seek"));
}

#[test]
fn disk_hit_handler_reads_and_seek_uring() {
    disk_reads_and_seeks(
        EdgeMemoryStorageBuilder::new()
            .with_disk_root("disk_seek".to_string())
            .with_io_uring_enabled(Some(true))
            .build(),
    );
}

#[test]
fn write_hit_reload_and_purge_uring() {
    let mut disk = Disk::new();
    let mut storage1 = rooted("persist");
    let key = "ns/resource/u1";
    let job = write(&mut storage1, key, b"hello");
    persist(&mut disk, &mut storage1, &job);

    let mut storage2 = EdgeMemoryStorageBuilder::new()
        .with_disk_root("persist".to_string())
        .with_io_uring_enabled(Some(true))
        .build();
    let hit = disk_hit(&disk, &mut storage2, key);
    assert!(hit.is_some(), "io_uring disk lookup should hit");

    let outcome = storage2.purge(key, PurgeType::Invalidation, None);
    disk.carry_out(&outcome.plan, &meta(), b"").unwrap();
    assert!(disk_hit(&disk, &mut storage2, key).is_none());
}

#[test]
fn large_files_are_read_in_pieces() {
    let mut reader = DiskHitHandler::new();
    let read = reader.next_read().unwrap();
    assert_eq!((read.offset, read.len), (0, 64 * 1024));
    let chunk = reader
        .read_body(DiskReadResult::Read {
            buf: vec![7; read.len],
            n: 1000,
        })
        .unwrap()
        .unwrap();
    assert_eq!(chunk.as_ref(), &vec![7u8; 1000][..]);
    let read = reader.next_read().unwrap();
    assert_eq!((read.offset, read.len), (1000, 64 * 1024));
    reader.seek(10, Some(70_000)).unwrap();
    assert_eq!(reader.next_read().unwrap().len, 65_536);
    reader.seek(10, Some(12)).unwrap();
    assert_eq!(reader.next_read().unwrap().len, 2);
    for (result, context) in [
        (DiskReadResult::SeekFailed, "disk hit seek"),
        (DiskReadResult::ReadFailed, "disk hit read"),
    ] {
        assert_eq!(
            reader.read_body(result).err(),
            Some(StoreError::Disk {
                kind: ErrorKind::FileReadError,
                context
            })
        );
    }
    let end = reader
        .read_body(DiskReadResult::Read {
            buf: vec![0; 2],
            n: 0,
        })
        .unwrap();
    assert!(end.is_none());
}

#[test]
fn purge_frees_what_finish_charged() {
    for disk_len in [None, Some(6)] {
        let mut storage = EdgeMemoryStorageBuilder::new()
            .with_max_disk_bytes(Some(10))
            .build();
        let _job = write(&mut storage, "k", b"123456");
        assert_eq!(storage.disk_bytes_used, 6);
        let outcome = storage.purge("k", PurgeType::Eviction, disk_len);
        assert!(outcome.existed);
        assert_eq!(storage.disk_bytes_used, 0);
        assert_eq!(storage.metrics.disk_bytes, 0);
        assert_eq!(storage.metrics.evictions, 1);
        assert_eq!(storage.metrics.keys, 0);
        assert!(matches!(storage.lookup("k"), Lookup::OnDisk { .. }));
    }
}

#[test]
fn purge_of_a_body_that_was_never_charged_stops_the_account_at_zero() {
    let mut storage = EdgeMemoryStorageBuilder::new()
        .with_max_disk_bytes(Some(10))
        .build();
    storage.purge("k", PurgeType::Eviction, Some(3));
    assert_eq!(storage.disk_bytes_used, 0);
    assert_eq!(storage.metrics.disk_bytes, 0);
    let _job = write(&mut storage, "k", b"123456");
    assert_eq!(storage.disk_bytes_used, 6);
}

#[test]
fn purge_drops_the_object_and_the_writers() {
    let mut storage = rooted("purge_writers");
    let mut a = open(&mut storage, "k");
    let mut b = open(&mut storage, "k");
    let mut other = open(&mut storage, "other");
    let _job = write(&mut storage, "k", b"x");
    assert_eq!(storage.metrics.partial_writes, 3);
    assert!(storage.purge("k", PurgeType::Eviction, None).existed);
    assert!(matches!(storage.lookup("k"), Lookup::OnDisk { .. }));
    assert!(matches!(
        storage.lookup_streaming_write("k", a.streaming_write_tag()),
        Lookup::Miss
    ));
    assert_eq!(storage.metrics.partial_writes, 1);
    assert_eq!(storage.metrics.keys, 0);
    assert!(!storage.purge("k", PurgeType::Eviction, None).existed);

    // The handlers keep their places until they are gone.
    assert_eq!(storage.partial_count, 3);
    for handler in [&mut a, &mut b, &mut other] {
        handler.cleanup_once(&mut storage);
    }
    assert_eq!(storage.partial_count, 0);
    assert_eq!(storage.metrics.partial_writes, 0);

    // Writers alone are something to purge, too.
    let _c = open(&mut storage, "k");
    assert!(storage.purge("k", PurgeType::Invalidation, None).existed);
    assert_eq!(storage.metrics.partial_writes, 0);
}

#[test]
fn a_finished_object_stays_a_hit() {
    let mut disk = Disk::new();
    let mut storage = rooted("stays");
    let job = write(&mut storage, "k", b"body");
    let mut other = open(&mut storage, "other");
    storage.persisted("k", false);
    assert_eq!(drain(&mut memory_hit(&storage, "k").1), b"body");
    let update = storage.update_meta("k", Some(meta_with(b"new"))).unwrap();
    disk.carry_out(&update.plan, &update.meta, b"").unwrap();
    assert_eq!(drain(&mut memory_hit(&storage, "k").1), b"body");
    persist(&mut disk, &mut storage, &job);
    assert_eq!(storage.metrics.demotions, 1);
    other.write_body(&Bytes::from_static(b"else"), true).unwrap();
    let other_job = other.finish(&mut storage).unwrap().job;
    persist(&mut disk, &mut storage, &other_job);
    let outcome = storage.purge("other", PurgeType::Eviction, None);
    disk.carry_out(&outcome.plan, &meta(), b"").unwrap();
    let (_, dir, mut reader) = disk_hit(&disk, &mut storage, "k").unwrap();
    assert_eq!(disk.read_body(&dir, &mut reader), b"body");
}

#[test]
fn a_plan_stops_at_the_first_failure_that_matters() {
    let mut storage = rooted("run");
    let steps = |storage: &mut EdgeMemoryStorage| write(storage, "k", b"x").plan;
    // Step 1 is only tried; step 2 matters.
    let mut run = PlanRun::new(steps(&mut storage));
    for ok in [true, false, false] {
        assert!(run.result().is_none());
        assert!(run.current().is_some());
        run.report(ok);
    }
    assert!(run.current().is_none());
    assert_eq!(
        run.result(),
        Some(Err(StoreError::Disk {
            kind: ErrorKind::FileCreateError,
            context: "create tmp cache dir"
        }))
    );

    // Failures that do not matter leave a success.
    let mut run = PlanRun::new(steps(&mut storage));
    let mut taken = 0;
    while run.current().is_some() {
        run.report(![1, 12, 13].contains(&taken));
        taken += 1;
    }
    assert_eq!(taken, 15);
    assert_eq!(run.result(), Some(Ok(())));
}

#[test]
fn a_disk_reader_past_the_end_gets_nothing() {
    let mut disk = Disk::new();
    let mut storage = rooted("past");
    let job = write(&mut storage, "k", b"hello");
    persist(&mut disk, &mut storage, &job);
    let (_, dir, mut reader) = disk_hit(&disk, &mut storage, "k").unwrap();
    reader.seek(100, None).unwrap();
    assert_eq!(disk.read_body(&dir, &mut reader), b"");
    reader.seek(4, Some(2)).unwrap();
    assert_eq!(disk.read_body(&dir, &mut reader), b"");
}

#[test]
fn operations_leave_other_keys_alone() {
    let mut storage = rooted("others");
    let _job = write(&mut storage, "other", b"untouched");
    let writer = open(&mut storage, "other");
    let _job = write(&mut storage, "k", b"x");
    storage.update_meta("k", Some(meta_with(b"y"))).unwrap();
    storage.purge("k", PurgeType::Invalidation, None);
    let (found, mut reader) = memory_hit(&storage, "other");
    assert_eq!(found, meta());
    assert_eq!(drain(&mut reader), b"untouched");
    assert!(matches!(
        storage.lookup_streaming_write("other", writer.streaming_write_tag()),
        Lookup::Found { .. }
    ));
    assert!(storage.support_streaming_partial_write());
}

#[test]
fn entries_of_different_keys_do_not_share_files() {
    let mut disk = Disk::new();
    let mut storage = rooted("apart");
    for (key, body) in [("a", &b"first"[..]), ("b", b"second")] {
        let job = write(&mut storage, key, body);
        persist(&mut disk, &mut storage, &job);
    }
    assert_eq!(disk.files.len(), 6);
    let outcome = storage.purge("a", PurgeType::Invalidation, None);
    disk.carry_out(&outcome.plan, &meta(), b"").unwrap();
    assert!(disk_hit(&disk, &mut storage, "a").is_none());
    let (_, dir, mut reader) = disk_hit(&disk, &mut storage, "b").unwrap();
    assert_eq!(disk.read_body(&dir, &mut reader), b"second");
}

#[test]
fn the_keys_gauge_follows_memory() {
    let mut storage = rooted("gauge");
    for (i, key) in ["a", "b", "c"].into_iter().enumerate() {
        write(&mut storage, key, b"x");
        assert_eq!(storage.metrics.keys, i as i64 + 1);
    }
    write(&mut storage, "c", b"y");
    assert_eq!(storage.metrics.keys, 3);
    storage.persisted("a", true);
    assert_eq!(storage.metrics.keys, 2);
    storage.persisted("a", true);
    assert_eq!(storage.metrics.keys, 2);
    assert_eq!(storage.metrics.demotions, 1);
    storage.purge("b", PurgeType::Eviction, None);
    assert_eq!(storage.metrics.keys, 1);
}

#[test]
fn write_ids_are_not_reused() {
    let mut storage = rooted("ids");
    let mut seen = BTreeSet::new();
    for _ in 0..5 {
        let mut mh = open(&mut storage, "k");
        assert!(seen.insert(mh.write_id()));
        mh.cleanup_once(&mut storage);
    }
    assert_eq!(storage.write_counter, 5);
    assert_eq!(storage.partial_count, 0);
}

#[test]
fn nothing_is_left_of_writers_that_are_gone() {
    let mut storage = EdgeMemoryStorageBuilder::new()
        .with_max_disk_bytes(Some(3))
        .with_max_partial_writes(Some(3))
        .build();
    let mut finished = open(&mut storage, "k");
    let mut dropped = open(&mut storage, "k");
    let mut refused = open(&mut storage, "l");
    assert!(storage.get_miss_handler("m", Some(meta())).is_err());
    for handler in [&mut finished, &mut dropped, &mut refused] {
        handler.write_body(&Bytes::from_static(b"abc"), true).unwrap();
    }
    finished.finish(&mut storage).unwrap();
    dropped.cleanup_once(&mut storage);
    assert!(refused.finish(&mut storage).is_err());
    assert_eq!(storage.partial_count, 0);
    assert_eq!(storage.metrics.partial_writes, 0);
    for handler in [&finished, &dropped, &refused] {
        for key in ["k", "l"] {
            assert!(matches!(
                storage.lookup_streaming_write(key, handler.streaming_write_tag()),
                Lookup::Miss
            ));
        }
    }
    assert!(matches!(storage.lookup("l"), Lookup::OnDisk { .. }));
}
