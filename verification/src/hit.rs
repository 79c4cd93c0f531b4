//! Readers of cached bodies: from memory, from a write in progress, from disk.

use crate::chunk::{bytes_content, copy_from_slice, from_vec};
use crate::error::{ErrorKind, StoreError};
use bytes::Bytes;
use std::sync::Arc;
use vstd::prelude::*;
use vstd::slice::slice_subrange;

verus! {

/// Reads a complete object that is in memory.
pub struct CompleteHitHandler {
    body: Arc<Vec<u8>>,
    position: usize,
    range_start: usize,
    range_end: usize,
}

/// A [`CompleteHitHandler`] as a value.
#[verifier::ext_equal]
pub struct CompleteReader {
    pub body: Seq<u8>,
    pub position: nat,
    pub range_start: nat,
    pub range_end: nat,
}

impl View for CompleteHitHandler {
    type V = CompleteReader;

    closed spec fn view(&self) -> CompleteReader {
        CompleteReader {
            body: self.body@,
            position: self.position as nat,
            range_start: self.range_start as nat,
            range_end: self.range_end as nat,
        }
    }
}

impl CompleteReader {
    /// A reader of the whole of `body`.
    pub open spec fn of(body: Seq<u8>) -> CompleteReader {
        CompleteReader { body, position: 0, range_start: 0, range_end: body.len() }
    }

    /// The range ends within the body.
    pub open spec fn wf(self) -> bool {
        self.range_end <= self.body.len()
    }

    /// What is still to be read.
    pub open spec fn remaining(self) -> Seq<u8> {
        if self.position < self.range_end {
            self.body.subrange(self.position as int, self.range_end as int)
        } else {
            Seq::empty()
        }
    }

    /// What a read gives: all that is still to be read, or nothing at the end.
    pub open spec fn next_chunk(self) -> Option<Seq<u8>> {
        if self.remaining().len() > 0 {
            Some(self.remaining())
        } else {
            None
        }
    }

    /// What the object weighs for eviction.
    pub open spec fn weight(self) -> nat {
        self.body.len()
    }

    /// Why a seek to `start` is refused, if it is.
    pub open spec fn seek_refusal(self, start: usize) -> Option<StoreError> {
        if start >= self.body.len() {
            Some(StoreError::SeekOutOfRange { start, len: self.body.len() as usize })
        } else {
            None
        }
    }

    /// After all that remains was read.
    pub open spec fn drained(self) -> CompleteReader {
        if self.position < self.range_end {
            CompleteReader { position: self.range_end, ..self }
        } else {
            self
        }
    }

    /// After a seek to `start`, with an end that is cut off at the end of the
    /// body.
    pub open spec fn seeked(self, start: usize, end: Option<usize>) -> CompleteReader {
        if start >= self.body.len() {
            self
        } else {
            CompleteReader {
                body: self.body,
                position: start as nat,
                range_start: start as nat,
                range_end: if end is Some && end->0 < self.body.len() {
                    end->0 as nat
                } else {
                    self.body.len()
                },
            }
        }
    }
}

impl CompleteHitHandler {
    #[verifier::type_invariant]
    spec fn type_inv(self) -> bool {
        self@.wf()
    }

    /// A reader of the whole of `body`.
    pub fn new(body: Arc<Vec<u8>>) -> (handler: CompleteHitHandler)
        ensures
            handler@ == CompleteReader::of(body@),
            handler@.wf(),
    {
        let len: usize = body.len();
        CompleteHitHandler { body, position: 0, range_start: 0, range_end: len }
    }

    /// Reads all that remains at once, or nothing at the end.
    pub fn read_chunk(&mut self) -> (chunk: Option<Bytes>)
        ensures
            chunk is Some <==> old(self)@.remaining().len() > 0,
            chunk is Some ==> bytes_content(chunk->0) == old(self)@.remaining(),
            old(self)@.next_chunk() == match chunk {
                Some(b) => Some(bytes_content(b)),
                None => None,
            },
            final(self)@ == old(self)@.drained(),
            final(self)@.wf(),
    {
        proof {
            use_type_invariant(&*self);
        }
        if self.position >= self.range_end {
            return None;
        }
        let start: usize = self.position;
        let end: usize = self.range_end;
        self.position = end;
        let data = slice_subrange(self.body.as_slice(), start, end);
        Some(copy_from_slice(data))
    }

    /// A body in memory can be read from any position.
    pub fn can_seek(&self) -> (yes: bool)
        ensures
            yes,
    {
        true
    }

    /// Restricts reading to `start..end`, or to all from `start` on. Fails when
    /// `start` is not within the body.
    pub fn seek(&mut self, start: usize, end: Option<usize>) -> (r: Result<(), StoreError>)
        ensures
            r is Ok <==> start < old(self)@.body.len(),
            r is Err ==> r->Err_0 == (StoreError::SeekOutOfRange {
                start,
                len: old(self)@.body.len() as usize,
            }),
            final(self)@ == old(self)@.seeked(start, end),
            final(self)@.wf(),
            r == match old(self)@.seek_refusal(start) {
                Some(e) => Err::<(), StoreError>(e),
                None => Ok(()),
            },
    {
        proof {
            use_type_invariant(&*self);
        }
        let len: usize = self.body.len();
        if start >= len {
            return Err(StoreError::SeekOutOfRange { start, len });
        }
        let stop: usize = match end {
            Some(end) => {
                if end < len {
                    end
                } else {
                    len
                }
            },
            None => len,
        };
        self.range_start = start;
        self.range_end = stop;
        self.position = start;
        Ok(())
    }

    /// What this object weighs for eviction: the size of its body.
    pub fn get_eviction_weight(&self) -> (weight: usize)
        ensures
            weight == self@.body.len(),
            weight == self@.weight(),
    {
        self.body.len()
    }
}

/// Reads a write in progress, up to what its writer has announced.
pub struct PartialHitHandler {
    position: usize,
}

impl View for PartialHitHandler {
    type V = nat;

    /// How much has been read.
    closed spec fn view(&self) -> nat {
        self.position as nat
    }
}

/// What a reader of a write in progress gets.
pub enum PartialRead {
    /// More of the body.
    Chunk(Bytes),
    /// The end of the body.
    End,
    /// Nothing yet: wait for the next announcement.
    Wait,
}

/// A [`PartialRead`], with what was read as a sequence.
pub enum ReadView {
    Chunk(Seq<u8>),
    End,
    Wait,
}

impl View for PartialRead {
    type V = ReadView;

    open spec fn view(&self) -> ReadView {
        match self {
            PartialRead::Chunk(b) => ReadView::Chunk(bytes_content(*b)),
            PartialRead::End => ReadView::End,
            PartialRead::Wait => ReadView::Wait,
        }
    }
}

/// The announcement that a body is complete.
pub const EOF_MARK: usize = usize::MAX;

/// How far into a body of `len` bytes a reader may go after `available` was
/// announced.
pub open spec fn readable(available: usize, len: nat) -> nat {
    if available == EOF_MARK || available >= len {
        len
    } else {
        available as nat
    }
}

/// What a reader at `position` gets of `body` after `available` was announced.
pub open spec fn stream_chunk(position: nat, available: usize, body: Seq<u8>) -> Seq<u8> {
    if position < readable(available, body.len()) {
        body.subrange(position as int, readable(available, body.len()) as int)
    } else {
        Seq::empty()
    }
}

/// Where a reader at `position` is after that.
pub open spec fn stream_position(position: nat, available: usize, body: Seq<u8>) -> nat {
    if position < readable(available, body.len()) {
        readable(available, body.len())
    } else {
        position
    }
}

/// What a read at `position` comes to.
pub open spec fn stream_read(position: nat, available: usize, body: Seq<u8>) -> ReadView {
    if stream_chunk(position, available, body).len() > 0 {
        ReadView::Chunk(stream_chunk(position, available, body))
    } else if available == EOF_MARK {
        ReadView::End
    } else {
        ReadView::Wait
    }
}

impl PartialHitHandler {
    /// A reader at the start of the body.
    pub fn new() -> (handler: PartialHitHandler)
        ensures
            handler@ == 0,
    {
        PartialHitHandler { position: 0 }
    }

    /// Reads `body` up to what was announced last. A reader that has all of it
    /// waits, unless the announcement was that the body is complete.
    pub fn read_available(&mut self, available: usize, body: &Vec<u8>) -> (read: PartialRead)
        ensures
            final(self)@ == stream_position(old(self)@, available, body@),
            match read {
                PartialRead::Chunk(b) => {
                    &&& stream_chunk(old(self)@, available, body@).len() > 0
                    &&& bytes_content(b) == stream_chunk(old(self)@, available, body@)
                },
                PartialRead::End => {
                    &&& stream_chunk(old(self)@, available, body@).len() == 0
                    &&& available == EOF_MARK
                },
                PartialRead::Wait => {
                    &&& stream_chunk(old(self)@, available, body@).len() == 0
                    &&& available != EOF_MARK
                },
            },
            read@ == stream_read(old(self)@, available, body@),
            read is Wait ==> old(self)@ >= available || old(self)@ >= body@.len(),
            read is End ==> old(self)@ >= body@.len(),
    {
        if available == EOF_MARK {
            return match self.read_rest(body) {
                Some(chunk) => PartialRead::Chunk(chunk),
                None => PartialRead::End,
            };
        }
        if available > self.position {
            let end: usize = if available < body.len() {
                available
            } else {
                body.len()
            };
            if self.position < end {
                let chunk = copy_from_slice(slice_subrange(body.as_slice(), self.position, end));
                self.position = end;
                return PartialRead::Chunk(chunk);
            }
        }
        PartialRead::Wait
    }

    /// Reads what is left of `body` once its writer will announce nothing more.
    pub fn read_rest(&mut self, body: &Vec<u8>) -> (chunk: Option<Bytes>)
        ensures
            chunk is Some <==> stream_chunk(old(self)@, EOF_MARK, body@).len() > 0,
            chunk is Some ==> bytes_content(chunk->0) == stream_chunk(old(self)@, EOF_MARK, body@),
            final(self)@ == stream_position(old(self)@, EOF_MARK, body@),
    {
        if self.position < body.len() {
            let data = slice_subrange(body.as_slice(), self.position, body.len());
            let chunk = copy_from_slice(data);
            self.position = body.len();
            return Some(chunk);
        }
        None
    }

    /// A body that is still being written can only be read in order.
    pub fn can_seek(&self) -> (yes: bool)
        ensures
            !yes,
    {
        false
    }

    /// Always refused.
    pub fn seek(&mut self, _start: usize, _end: Option<usize>) -> (r: Result<(), StoreError>)
        ensures
            r == Err::<(), StoreError>(StoreError::SeekUnsupported),
            final(self)@ == old(self)@,
    {
        Err(StoreError::SeekUnsupported)
    }

    /// Such a read does not count as an access, so that it does not skew
    /// eviction.
    pub fn should_count_access(&self) -> (yes: bool)
        ensures
            !yes,
    {
        false
    }
}

/// Reads a body file piece by piece.
pub struct DiskHitHandler {
    position: u64,
    end: Option<u64>,
}

/// A [`DiskHitHandler`] as a value.
#[verifier::ext_equal]
pub struct DiskReader {
    pub position: u64,
    pub end: Option<u64>,
}

impl View for DiskHitHandler {
    type V = DiskReader;

    closed spec fn view(&self) -> DiskReader {
        DiskReader { position: self.position, end: self.end }
    }
}

/// The most that is read from a body file at once.
pub const DISK_CHUNK: u64 = 65536;

/// A read that is to be made on the body file.
#[derive(Debug, Clone, Copy, PartialEq, Eq)]
pub struct ReadAt {
    pub offset: u64,
    pub len: usize,
}

/// What became of a [`ReadAt`].
pub enum DiskReadResult {
    /// The file could not be positioned.
    SeekFailed,
    /// The file could not be read.
    ReadFailed,
    /// The first `n` bytes of `buf` were read.
    Read { buf: Vec<u8>, n: usize },
}

impl DiskReader {
    /// A reader of a whole file.
    pub open spec fn whole() -> DiskReader {
        DiskReader { position: 0, end: None }
    }

    /// The most that is read next: what is left of the range, and no more than
    /// one piece.
    pub open spec fn next_len(self) -> nat {
        match self.end {
            Some(end) => if end <= self.position {
                0
            } else if end - self.position < DISK_CHUNK {
                (end - self.position) as nat
            } else {
                DISK_CHUNK as nat
            },
            None => DISK_CHUNK as nat,
        }
    }

    /// Where the next read starts and how much it asks for, if there is one.
    pub open spec fn wanted(self) -> Option<(u64, nat)> {
        if self.next_len() > 0 {
            Some((self.position, self.next_len()))
        } else {
            None
        }
    }

    /// After `n` bytes were read.
    pub open spec fn advanced(self, n: nat) -> DiskReader {
        DiskReader { position: (self.position + n) as u64, ..self }
    }

    /// After a seek to `start`, with an end if there is one.
    pub open spec fn seeked(self, start: usize, end: Option<usize>) -> DiskReader {
        DiskReader {
            position: start as u64,
            end: match end {
                Some(end) => Some(end as u64),
                None => None,
            },
        }
    }
}

/// What is handed on of a read that filled the first `n` bytes of `buf`: nothing at
/// the end of the file.
pub open spec fn handed_on(buf: Seq<u8>, n: nat) -> Option<Seq<u8>> {
    if n > 0 {
        Some(buf.take(n as int))
    } else {
        None
    }
}

impl DiskHitHandler {
    /// A reader of a whole file.
    pub fn new() -> (handler: DiskHitHandler)
        ensures
            handler@ == DiskReader::whole(),
    {
        DiskHitHandler { position: 0, end: None }
    }

    /// The read to make next, if the range is not exhausted.
    pub fn next_read(&self) -> (read: Option<ReadAt>)
        ensures
            read is Some <==> self@.next_len() > 0,
            read is Some ==> read->0.offset == self@.position && read->0.len == self@.next_len(),
            self@.wanted() == match read {
                Some(read) => Some((read.offset, read.len as nat)),
                None => None,
            },
    {
        let len: u64 = match self.end {
            Some(end) => {
                if end <= self.position {
                    0
                } else if end - self.position < DISK_CHUNK {
                    end - self.position
                } else {
                    DISK_CHUNK
                }
            },
            None => DISK_CHUNK,
        };
        if len == 0 {
            return None;
        }
        Some(ReadAt { offset: self.position, len: len as usize })
    }

    /// Takes the result of the read that [`next_read`](Self::next_read) asked
    /// for. Nothing read means the end of the file.
    pub fn read_body(&mut self, result: DiskReadResult) -> (r: Result<Option<Bytes>, StoreError>)
        requires
            match result {
                DiskReadResult::Read { buf, n } => n <= buf@.len() && old(self)@.position + n
                    <= u64::MAX,
                _ => true,
            },
        ensures
            match result {
                DiskReadResult::SeekFailed => {
                    &&& r == Err::<Option<Bytes>, StoreError>(
                        StoreError::Disk {
                            kind: ErrorKind::FileReadError,
                            context: "disk hit seek",
                        },
                    )
                    &&& final(self)@ == old(self)@
                },
                DiskReadResult::ReadFailed => {
                    &&& r == Err::<Option<Bytes>, StoreError>(
                        StoreError::Disk {
                            kind: ErrorKind::FileReadError,
                            context: "disk hit read",
                        },
                    )
                    &&& final(self)@ == old(self)@
                },
                DiskReadResult::Read { buf, n } => {
                    &&& r is Ok
                    &&& r->Ok_0 is Some <==> n > 0
                    &&& n > 0 ==> bytes_content(r->Ok_0->0) == buf@.take(n as int)
                    &&& final(self)@ == old(self)@.advanced(n as nat)
                    &&& handed_on(buf@, n as nat) == match r->Ok_0 {
                        Some(b) => Some(bytes_content(b)),
                        None => None,
                    }
                },
            },
    {
        match result {
            DiskReadResult::SeekFailed => Err(
                StoreError::Disk { kind: ErrorKind::FileReadError, context: "disk hit seek" },
            ),
            DiskReadResult::ReadFailed => Err(
                StoreError::Disk { kind: ErrorKind::FileReadError, context: "disk hit read" },
            ),
            DiskReadResult::Read { buf, n } => {
                if n == 0 {
                    return Ok(None);
                }
                let mut data = buf;
                data.truncate(n);
                self.position = self.position + n as u64;
                Ok(Some(from_vec(data)))
            },
        }
    }

    /// A file can be read from any position.
    pub fn can_seek(&self) -> (yes: bool)
        ensures
            yes,
    {
        true
    }

    /// Restricts reading to `start..end`, or to all from `start` on. Where the
    /// file ends shows only when it is read.
    pub fn seek(&mut self, start: usize, end: Option<usize>) -> (r: Result<(), StoreError>)
        ensures
            r is Ok,
            final(self)@ == old(self)@.seeked(start, end),
    {
        self.position = start as u64;
        self.end = match end {
            Some(end) => Some(end as u64),
            None => None,
        };
        Ok(())
    }
}

} // verus!
