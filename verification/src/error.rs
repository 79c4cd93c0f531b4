//! The errors that the store reports.

use crate::text::{decimal, push_decimal};
use vstd::prelude::*;
use vstd::string::StringExecFns;

verus! {

/// The class of an error, under the name the proxy framework gives it.
#[derive(Debug, Clone, Copy, PartialEq, Eq, Structural)]
pub enum ErrorKind {
    ObjectTooLarge,
    DiskCapacityExceeded,
    TooManyPartialWrites,
    InternalError,
    FileCreateError,
    FileOpenError,
    FileReadError,
    FileWriteError,
}

/// A request that the store refuses, or a step that failed.
#[derive(Debug, Clone, Copy, PartialEq, Eq)]
pub enum StoreError {
    /// A body would grow past `max_object_bytes`.
    ObjectTooLarge { limit: usize, on_finish: bool },
    /// A finished body does not fit in what is left of `max_disk_bytes`.
    DiskCapacityExceeded { used: usize, size: usize, limit: usize },
    /// There are already `max_partial_writes` writers.
    TooManyPartialWrites { limit: usize },
    /// A seek starts at or after the end of the body.
    SeekOutOfRange { start: usize, len: usize },
    /// A body that is still being written cannot be seeked.
    SeekUnsupported,
    /// The cache metadata could not be serialized.
    MetaNotSerialized,
    /// A step on the disk failed.
    Disk { kind: ErrorKind, context: &'static str },
}

impl StoreError {
    /// The class of this error.
    pub open spec fn kind_spec(self) -> ErrorKind {
        match self {
            StoreError::ObjectTooLarge { .. } => ErrorKind::ObjectTooLarge,
            StoreError::DiskCapacityExceeded { .. } => ErrorKind::DiskCapacityExceeded,
            StoreError::TooManyPartialWrites { .. } => ErrorKind::TooManyPartialWrites,
            StoreError::SeekOutOfRange { .. } => ErrorKind::InternalError,
            StoreError::SeekUnsupported => ErrorKind::InternalError,
            StoreError::MetaNotSerialized => ErrorKind::InternalError,
            StoreError::Disk { kind, .. } => kind,
        }
    }

    /// The text that goes with this error.
    pub open spec fn explanation(self) -> Seq<char> {
        match self {
            StoreError::ObjectTooLarge { limit, on_finish } => "object exceeds max_object_bytes="@
                + decimal(limit as nat) + (if on_finish {
                " on finish"@
            } else {
                Seq::<char>::empty()
            }),
            StoreError::DiskCapacityExceeded { used, size, limit } => "disk usage "@ + decimal(
                used as nat,
            ) + " + "@ + decimal(size as nat) + " exceeds max_disk_bytes="@ + decimal(limit as nat),
            StoreError::TooManyPartialWrites {
                limit,
            } => "partial writes exceed max_partial_writes="@ + decimal(limit as nat),
            StoreError::SeekOutOfRange { start, len } => "Seek start "@ + decimal(start as nat)
                + " exceeds body length "@ + decimal(len as nat),
            StoreError::SeekUnsupported => "Seeking not supported for partial cached objects"@,
            StoreError::MetaNotSerialized => "serialize cache meta"@,
            StoreError::Disk { context, .. } => context@,
        }
    }

    /// The class of this error.
    pub fn kind(&self) -> (kind: ErrorKind)
        ensures
            kind == self.kind_spec(),
    {
        match self {
            StoreError::ObjectTooLarge { .. } => ErrorKind::ObjectTooLarge,
            StoreError::DiskCapacityExceeded { .. } => ErrorKind::DiskCapacityExceeded,
            StoreError::TooManyPartialWrites { .. } => ErrorKind::TooManyPartialWrites,
            StoreError::SeekOutOfRange { .. } => ErrorKind::InternalError,
            StoreError::SeekUnsupported => ErrorKind::InternalError,
            StoreError::MetaNotSerialized => ErrorKind::InternalError,
            StoreError::Disk { kind, .. } => *kind,
        }
    }

    /// The text that goes with this error.
    pub fn explain(&self) -> (text: String)
        ensures
            text@ == self.explanation(),
    {
        let mut text = String::new();
        match self {
            StoreError::ObjectTooLarge { limit, on_finish } => {
                text.append("object exceeds max_object_bytes=");
                push_decimal(&mut text, *limit);
                if *on_finish {
                    text.append(" on finish");
                }
            },
            StoreError::DiskCapacityExceeded { used, size, limit } => {
                text.append("disk usage ");
                push_decimal(&mut text, *used);
                text.append(" + ");
                push_decimal(&mut text, *size);
                text.append(" exceeds max_disk_bytes=");
                push_decimal(&mut text, *limit);
            },
            StoreError::TooManyPartialWrites { limit } => {
                text.append("partial writes exceed max_partial_writes=");
                push_decimal(&mut text, *limit);
            },
            StoreError::SeekOutOfRange { start, len } => {
                text.append("Seek start ");
                push_decimal(&mut text, *start);
                text.append(" exceeds body length ");
                push_decimal(&mut text, *len);
            },
            StoreError::SeekUnsupported => {
                text.append("Seeking not supported for partial cached objects");
            },
            StoreError::MetaNotSerialized => {
                text.append("serialize cache meta");
            },
            StoreError::Disk { context, .. } => {
                text.append(context);
            },
        }
        assert(text@ =~= self.explanation());
        text
    }
}

} // verus!
