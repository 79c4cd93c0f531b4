//! What the store holds for each key: complete objects, and writes that are
//! still in progress.

use std::sync::Arc;
use vstd::prelude::*;

verus! {

/// Serialized cache metadata.
#[derive(Debug, PartialEq, Eq)]
pub struct MetaBytes {
    /// The half that describes freshness and cache internals.
    pub internal: Vec<u8>,
    /// The response header.
    pub header: Vec<u8>,
}

/// The contents of a [`MetaBytes`].
#[verifier::ext_equal]
pub struct MetaView {
    pub internal: Seq<u8>,
    pub header: Seq<u8>,
}

impl View for MetaBytes {
    type V = MetaView;

    open spec fn view(&self) -> MetaView {
        MetaView { internal: self.internal@, header: self.header@ }
    }
}

/// A copy of `bytes`.
pub fn copy_bytes(bytes: &Vec<u8>) -> (copy: Vec<u8>)
    ensures
        copy@ == bytes@,
{
    let copy = bytes.clone();
    assert(copy@ =~= bytes@);
    copy
}

impl Clone for MetaBytes {
    fn clone(&self) -> (meta: MetaBytes)
        ensures
            meta@ == self@,
    {
        MetaBytes { internal: copy_bytes(&self.internal), header: copy_bytes(&self.header) }
    }
}

/// A complete object, ready to be served.
pub struct CacheObject {
    pub meta: MetaBytes,
    pub body: Arc<Vec<u8>>,
}

/// The contents of a [`CacheObject`].
#[verifier::ext_equal]
pub struct ObjectView {
    pub meta: MetaView,
    pub body: Seq<u8>,
}

impl View for CacheObject {
    type V = ObjectView;

    open spec fn view(&self) -> ObjectView {
        ObjectView { meta: self.meta@, body: self.body@ }
    }
}

impl Clone for CacheObject {
    /// A copy that shares the body.
    fn clone(&self) -> (object: CacheObject)
        ensures
            object@ == self@,
    {
        CacheObject { meta: self.meta.clone(), body: Arc::clone(&self.body) }
    }
}

/// A write in progress.
pub struct PartialObject {
    pub meta: MetaBytes,
    /// The tag by which a reader attaches to this write.
    pub write_id_bytes: [u8; 8],
}

/// The contents of a [`PartialObject`].
#[verifier::ext_equal]
pub struct PartialView {
    pub meta: MetaView,
    pub tag: Seq<u8>,
}

impl View for PartialObject {
    type V = PartialView;

    open spec fn view(&self) -> PartialView {
        PartialView { meta: self.meta@, tag: self.write_id_bytes@ }
    }
}

impl Clone for PartialObject {
    fn clone(&self) -> (writer: PartialObject)
        ensures
            writer@ == self@,
    {
        PartialObject { meta: self.meta.clone(), write_id_bytes: self.write_id_bytes }
    }
}

/// Byte `i` of `x`, most significant first.
pub open spec fn be_byte(x: u64, i: int) -> u8 {
    ((x >> ((56 - 8 * i) as u64)) & 0xff) as u8
}

/// The eight bytes of `x`, most significant first.
pub open spec fn be_bytes(x: u64) -> Seq<u8> {
    Seq::new(8, |i: int| be_byte(x, i))
}

/// The eight bytes of `x`, most significant first.
pub fn to_be_bytes(x: u64) -> (bytes: [u8; 8])
    ensures
        bytes@ == be_bytes(x),
{
    let bytes: [u8; 8] = [
        ((x >> 56) & 0xff) as u8,
        ((x >> 48) & 0xff) as u8,
        ((x >> 40) & 0xff) as u8,
        ((x >> 32) & 0xff) as u8,
        ((x >> 24) & 0xff) as u8,
        ((x >> 16) & 0xff) as u8,
        ((x >> 8) & 0xff) as u8,
        ((x >> 0) & 0xff) as u8,
    ];
    assert(bytes@ =~= be_bytes(x));
    bytes
}

/// Different numbers have different bytes.
pub proof fn lemma_be_bytes_injective(x: u64, y: u64)
    requires
        be_bytes(x) == be_bytes(y),
    ensures
        x == y,
{
    assert(be_bytes(x)[0] == be_byte(x, 0) && be_bytes(y)[0] == be_byte(y, 0));
    assert(be_bytes(x)[1] == be_byte(x, 1) && be_bytes(y)[1] == be_byte(y, 1));
    assert(be_bytes(x)[2] == be_byte(x, 2) && be_bytes(y)[2] == be_byte(y, 2));
    assert(be_bytes(x)[3] == be_byte(x, 3) && be_bytes(y)[3] == be_byte(y, 3));
    assert(be_bytes(x)[4] == be_byte(x, 4) && be_bytes(y)[4] == be_byte(y, 4));
    assert(be_bytes(x)[5] == be_byte(x, 5) && be_bytes(y)[5] == be_byte(y, 5));
    assert(be_bytes(x)[6] == be_byte(x, 6) && be_bytes(y)[6] == be_byte(y, 6));
    assert(be_bytes(x)[7] == be_byte(x, 7) && be_bytes(y)[7] == be_byte(y, 7));
    assert(x == y) by (bit_vector)
        requires
            ((x >> 56u64) & 0xff) as u8 == ((y >> 56u64) & 0xff) as u8,
            ((x >> 48u64) & 0xff) as u8 == ((y >> 48u64) & 0xff) as u8,
            ((x >> 40u64) & 0xff) as u8 == ((y >> 40u64) & 0xff) as u8,
            ((x >> 32u64) & 0xff) as u8 == ((y >> 32u64) & 0xff) as u8,
            ((x >> 24u64) & 0xff) as u8 == ((y >> 24u64) & 0xff) as u8,
            ((x >> 16u64) & 0xff) as u8 == ((y >> 16u64) & 0xff) as u8,
            ((x >> 8u64) & 0xff) as u8 == ((y >> 8u64) & 0xff) as u8,
            ((x >> 0u64) & 0xff) as u8 == ((y >> 0u64) & 0xff) as u8,
    ;
}

/// Whether two byte strings are equal.
pub fn same_bytes(a: &[u8], b: &[u8]) -> (same: bool)
    ensures
        same == (a@ == b@),
{
    if a.len() != b.len() {
        return false;
    }
    let mut i: usize = 0;
    while i < a.len()
        invariant
            i <= a.len(),
            a.len() == b.len(),
            forall|j: int| 0 <= j < i ==> a@[j] == b@[j],
        decreases a.len() - i,
    {
        if a[i] != b[i] {
            assert(a@[i as int] != b@[i as int]);
            return false;
        }
        i = i + 1;
    }
    assert(a@ =~= b@);
    true
}

} // verus!
