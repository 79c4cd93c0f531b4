//! The handler of a write in progress.

use crate::chunk::{as_slice, bytes_content};
use crate::disk::{persist_steps, persist_to_disk, persist_to_disk_atomic, DiskPlan};
use crate::error::StoreError;
use crate::hit::EOF_MARK;
use crate::layout::{plain_name, DiskPath};
use crate::record::{be_bytes, copy_bytes, CacheObject, MetaBytes};
use crate::state::{lemma_finished_inv, lemma_released_inv, JobView, WriterView};
use crate::storage::EdgeMemoryStorage;
use bytes::Bytes;
use std::sync::Arc;
use vstd::prelude::*;

verus! {

/// Writes a new entry.
pub struct EdgeMissHandler {
    key: String,
    write_id: u64,
    write_id_bytes: [u8; 8],
    /// What has been written so far.
    body: Vec<u8>,
    meta: MetaBytes,
    disk_dir: DiskPath,
    max_object_bytes: Option<usize>,
    max_disk_bytes: Option<usize>,
    /// Whether the write has been released.
    cleaned: bool,
    atomic_publish: bool,
}

impl View for EdgeMissHandler {
    type V = WriterView;

    closed spec fn view(&self) -> WriterView {
        WriterView {
            key: self.key@,
            write_id: self.write_id,
            meta: self.meta@,
            dir: self.disk_dir@,
            max_object_bytes: self.max_object_bytes,
            max_disk_bytes: self.max_disk_bytes,
            atomic_publish: self.atomic_publish,
            body: self.body@,
            cleaned: self.cleaned,
        }
    }
}

/// A finished object that is to be written to disk.
pub struct PersistJob {
    pub key: String,
    pub object: CacheObject,
    pub plan: DiskPlan,
}

impl View for PersistJob {
    type V = JobView;

    open spec fn view(&self) -> JobView {
        JobView { key: self.key@, object: self.object@, steps: self.plan@ }
    }
}

/// A write that was finished.
pub struct FinishedWrite {
    /// The size of the body.
    pub size: usize,
    /// What remains to be done on disk.
    pub job: PersistJob,
}

impl EdgeMissHandler {
    #[verifier::type_invariant]
    spec fn type_inv(self) -> bool {
        &&& self.write_id_bytes@ == be_bytes(self.write_id)
        &&& self.disk_dir@.len() > 0
        &&& plain_name(self.disk_dir@.last())
    }

    /// The handler of a write that was just admitted.
    pub(crate) fn new(
        key: String,
        write_id: u64,
        write_id_bytes: [u8; 8],
        meta: MetaBytes,
        disk_dir: DiskPath,
        max_object_bytes: Option<usize>,
        max_disk_bytes: Option<usize>,
        atomic_publish: bool,
    ) -> (handler: EdgeMissHandler)
        requires
            write_id_bytes@ == be_bytes(write_id),
            disk_dir@.len() > 0,
            plain_name(disk_dir@.last()),
        ensures
            handler@ == (WriterView {
                key: key@,
                write_id,
                meta: meta@,
                dir: disk_dir@,
                max_object_bytes,
                max_disk_bytes,
                atomic_publish,
                body: Seq::empty(),
                cleaned: false,
            }),
    {
        let body: Vec<u8> = Vec::new();
        assert(body@ =~= Seq::<u8>::empty());
        EdgeMissHandler {
            key,
            write_id,
            write_id_bytes,
            body,
            meta,
            disk_dir,
            max_object_bytes,
            max_disk_bytes,
            cleaned: false,
            atomic_publish,
        }
    }

    /// The id of this write.
    pub fn write_id(&self) -> (id: u64)
        ensures
            id == self@.write_id,
    {
        self.write_id
    }

    /// What has been written so far, for the readers of this write.
    pub fn body(&self) -> (body: &Vec<u8>)
        ensures
            body@ == self@.body,
    {
        &self.body
    }

    /// Appends `data` to the body, and says what to announce to the readers: the
    /// new size, or that the body is complete. Data that would take the body
    /// past its limit is refused as a whole.
    pub fn write_body(&mut self, data: &Bytes, eof: bool) -> (r: Result<usize, StoreError>)
        ensures
            final(self)@ == old(self)@.wrote(bytes_content(*data)),
            r == if old(self)@.refuses(bytes_content(*data).len()) {
                Err::<usize, StoreError>(
                    StoreError::ObjectTooLarge {
                        limit: old(self)@.max_object_bytes->0,
                        on_finish: false,
                    },
                )
            } else if eof {
                Ok(EOF_MARK)
            } else {
                Ok(final(self)@.body.len() as usize)
            },
            r is Ok ==> r->Ok_0 == final(self)@.announced(eof),
            r == old(self)@.write_answer(bytes_content(*data).len(), eof),
    {
        proof {
            use_type_invariant(&*self);
        }
        let data = as_slice(data);
        if let Some(limit) = self.max_object_bytes {
            if self.body.len().saturating_add(data.len()) > limit {
                return Err(StoreError::ObjectTooLarge { limit, on_finish: false });
            }
        }
        let mut body: Vec<u8> = Vec::new();
        std::mem::swap(&mut body, &mut self.body);
        body.extend_from_slice(data);
        assert(body@ =~= old(self)@.body + data@);
        self.body = body;
        if eof {
            Ok(EOF_MARK)
        } else {
            Ok(self.body.len())
        }
    }

    /// Makes the body a complete object of `store`, and hands back what remains
    /// to be done on disk. A body that is over a limit is refused. Either way
    /// the write is released, and its readers can still read the body.
    pub fn finish(&mut self, store: &mut EdgeMemoryStorage) -> (r: Result<
        FinishedWrite,
        StoreError,
    >)
        requires
            old(self)@.max_disk_bytes == Some(usize::MAX) ==> old(store)@.disk_bytes_used + old(
                self,
            )@.body.len() <= usize::MAX,
        ensures
            final(store)@ == old(store)@.finished(old(self)@),
            final(store).settings() == old(store).settings(),
            final(self)@ == (WriterView { cleaned: true, ..old(self)@ }),
            old(store)@.inv() ==> final(store)@.inv(),
            match old(store)@.finish_refusal(old(self)@) {
                Some(e) => r == Err::<FinishedWrite, StoreError>(e),
                None => {
                    &&& r is Ok
                    &&& r->Ok_0.size == old(self)@.body.len()
                    &&& r->Ok_0.job.key@ == old(self)@.key
                    &&& r->Ok_0.job.object@ == old(self)@.object()
                    &&& r->Ok_0.job.plan@ == persist_steps(
                        old(self)@.dir,
                        old(self)@.atomic_publish,
                    )
                    &&& r->Ok_0.job@ == old(self)@.job()
                },
            },
    {
        proof {
            use_type_invariant(&*self);
            if store@.inv() {
                lemma_finished_inv(store@, self@);
            }
        }
        let body_size: usize = self.body.len();
        if let Some(limit) = self.max_object_bytes {
            if body_size > limit {
                self.cleanup_once(store);
                return Err(StoreError::ObjectTooLarge { limit, on_finish: true });
            }
        }
        if let Some(limit) = self.max_disk_bytes {
            let used: usize = store.disk_bytes_used;
            let needed: usize = used.saturating_add(body_size);
            if needed > limit {
                self.cleanup_once(store);
                return Err(StoreError::DiskCapacityExceeded { used, size: body_size, limit });
            }
        }
        if self.max_disk_bytes.is_some() {
            store.charge_disk(body_size);
        }
        let shared: Arc<Vec<u8>> = Arc::new(copy_bytes(&self.body));
        store.store_object(
            self.key.clone(),
            CacheObject { meta: self.meta.clone(), body: Arc::clone(&shared) },
        );
        let plan = if self.atomic_publish {
            persist_to_disk_atomic(&self.disk_dir)
        } else {
            persist_to_disk(&self.disk_dir)
        };
        let job = PersistJob {
            key: self.key.clone(),
            object: CacheObject { meta: self.meta.clone(), body: shared },
            plan,
        };
        self.cleanup_once(store);
        Ok(FinishedWrite { size: body_size, job })
    }

    /// The tag by which a reader attaches to this write: the bytes of its id.
    pub fn streaming_write_tag(&self) -> (tag: Option<&[u8]>)
        ensures
            tag is Some,
            tag->0@ == be_bytes(self@.write_id),
            tag->0@ == self@.tag(),
    {
        proof {
            use_type_invariant(self);
        }
        Some(self.write_id_bytes.as_slice())
    }

    /// Releases the write, unless that was done before. A handler that is given
    /// up without finishing ends with this.
    pub fn cleanup_once(&mut self, store: &mut EdgeMemoryStorage)
        ensures
            final(store)@ == old(store)@.cleaned_up(old(self)@),
            final(store).settings() == old(store).settings(),
            final(self)@ == (WriterView { cleaned: true, ..old(self)@ }),
            old(store)@.inv() ==> final(store)@.inv(),
    {
        proof {
            use_type_invariant(&*self);
            if store@.inv() {
                lemma_released_inv(store@, self@.key, self@.write_id);
            }
        }
        if self.cleaned {
            return;
        }
        store.release_writer(self.key.as_str(), self.write_id);
        self.cleaned = true;
    }
}

} // verus!
