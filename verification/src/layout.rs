//! Where an entry lives on disk: `<root>/<hh>/<hh>/<hash>/`, with one file for
//! the body and one for each half of the metadata.

use crate::text::{hex16, to_hex16};
use vstd::prelude::*;
use vstd::string::StringExecFns;
use vstd::utf8::{decode_utf8, encode_utf8, is_ascii_chars, is_char_boundary};

verus! {

/// The file that holds the body of an entry.
pub const BODY_FILE: &'static str = "body.bin";

/// The file that holds the header half of the metadata.
pub const META_HEADER_FILE: &'static str = "meta_header.bin";

/// The file that holds the internal half of the metadata.
pub const META_INTERNAL_FILE: &'static str = "meta_internal.bin";

/// What is added to the name of a directory while it is being filled.
pub const TMP_SUFFIX: &'static str = ".tmp";

/// A path on disk, as the names that lead to it, root first.
#[derive(Debug, PartialEq, Eq)]
pub struct DiskPath {
    pub components: Vec<String>,
}

impl View for DiskPath {
    type V = Seq<Seq<char>>;

    open spec fn view(&self) -> Seq<Seq<char>> {
        self.components@.map_values(|s: String| s@)
    }
}

/// The path of `dir` while its contents are being prepared.
pub open spec fn tmp_sibling(dir: Seq<Seq<char>>) -> Seq<Seq<char>> {
    dir.drop_last().push(dir.last() + TMP_SUFFIX@)
}

/// A name that a suffix can be added to without replacing an extension.
pub open spec fn plain_name(name: Seq<char>) -> bool {
    name.len() > 0 && !name.contains('.')
}

impl Clone for DiskPath {
    fn clone(&self) -> (path: DiskPath)
        ensures
            path@ == self@,
    {
        let mut components: Vec<String> = Vec::new();
        let mut i: usize = 0;
        while i < self.components.len()
            invariant
                i <= self.components.len(),
                components.len() == i,
                forall|j: int| 0 <= j < i ==> components[j]@ == self.components[j]@,
            decreases self.components.len() - i,
        {
            components.push(self.components[i].clone());
            i = i + 1;
        }
        let path = DiskPath { components };
        assert(path@ =~= self@);
        path
    }
}

impl DiskPath {
    /// This path, extended by one name.
    pub fn join(&self, name: &str) -> (path: DiskPath)
        ensures
            path@ == self@.push(name@),
    {
        let mut path = self.clone();
        path.components.push(name.to_owned());
        assert(path@ =~= self@.push(name@));
        path
    }

    /// The path without its last name.
    pub fn parent(&self) -> (path: DiskPath)
        requires
            self@.len() > 0,
        ensures
            path@ == self@.drop_last(),
    {
        let mut path = self.clone();
        path.components.pop();
        assert(path@ =~= self@.drop_last());
        path
    }

    /// The path next to this one at which its contents are prepared.
    pub fn tmp_sibling(&self) -> (path: DiskPath)
        requires
            self@.len() > 0,
            plain_name(self@.last()),
        ensures
            path@ == tmp_sibling(self@),
    {
        let last: usize = self.components.len() - 1;
        let mut name = self.components[last].clone();
        name.append(TMP_SUFFIX);
        let path = self.parent().join(name.as_str());
        assert(self@.last() == self.components[last as int]@);
        path
    }
}

/// One round of the FNV-1a hash.
pub open spec fn fnv_round(hash: u64, byte: u8) -> u64 {
    (hash ^ (byte as u64)).wrapping_mul(0x100000001b3)
}

/// The 64-bit FNV-1a hash of `bytes`.
pub open spec fn fnv1a(bytes: Seq<u8>) -> u64
    decreases bytes.len(),
{
    if bytes.len() == 0 {
        0xcbf29ce484222325
    } else {
        fnv_round(fnv1a(bytes.drop_last()), bytes.last())
    }
}

/// The name under which an entry with cache key `key` is filed.
pub open spec fn key_hash(key: Seq<char>) -> Seq<char> {
    hex16(fnv1a(encode_utf8(key)))
}

/// Bytes `from..to` of the UTF-8 text `s`, as text.
pub open spec fn byte_slice(s: Seq<char>, from: int, to: int) -> Seq<char> {
    decode_utf8(encode_utf8(s).subrange(from, to))
}

/// The directory of an entry: two levels named after the first two pairs of
/// bytes of the hash, then the whole hash.
pub open spec fn hash_dir(root: Seq<char>, hash: Seq<char>) -> Seq<Seq<char>> {
    seq![root, byte_slice(hash, 0, 2), byte_slice(hash, 2, 4), hash]
}

/// The directory of the entry with cache key `key`.
pub open spec fn entry_dir(root: Seq<char>, key: Seq<char>) -> Seq<Seq<char>> {
    hash_dir(root, key_hash(key))
}

/// Hashes a cache key to a name that is safe in a file system.
pub fn hash_str(s: &str) -> (hash: String)
    ensures
        hash@ == key_hash(s@),
{
    let bytes = s.as_bytes();
    let mut hash: u64 = 0xcbf29ce484222325;
    let mut i: usize = 0;
    while i < bytes.len()
        invariant
            i <= bytes.len(),
            hash == fnv1a(bytes@.take(i as int)),
        decreases bytes.len() - i,
    {
        hash = hash ^ (bytes[i] as u64);
        hash = hash.wrapping_mul(0x100000001b3);
        assert(bytes@.take(i + 1).drop_last() =~= bytes@.take(i as int));
        i = i + 1;
    }
    assert(bytes@.take(bytes@.len() as int) =~= bytes@);
    to_hex16(hash)
}

/// The directory of the entry whose key hashes to `hash`.
pub fn dir_of_hash(root: &str, hash: &str) -> (dir: DiskPath)
    requires
        is_char_boundary(encode_utf8(hash@), 2),
        is_char_boundary(encode_utf8(hash@), 4),
    ensures
        dir@ == hash_dir(root@, hash@),
{
    broadcast use vstd::utf8::group_utf8_lib;

    let ghost bytes = encode_utf8(hash@);
    proof {
        assert(vstd::utf8::valid_utf8(bytes));
        lemma_boundary_of_rest(bytes);
    }
    let (outer, rest) = hash.split_at(2);
    let (inner, _) = rest.split_at(2);
    proof {
        assert(encode_utf8(rest@).subrange(0, 2) =~= bytes.subrange(2, 4));
        assert(outer@ == byte_slice(hash@, 0, 2));
        assert(inner@ == byte_slice(hash@, 2, 4));
    }
    let mut components: Vec<String> = Vec::new();
    components.push(root.to_owned());
    components.push(outer.to_owned());
    components.push(inner.to_owned());
    components.push(hash.to_owned());
    let dir = DiskPath { components };
    assert(dir@ =~= hash_dir(root@, hash@));
    dir
}

/// A character that starts at byte four starts two bytes into what follows the
/// first two.
proof fn lemma_boundary_of_rest(bytes: Seq<u8>)
    requires
        vstd::utf8::valid_utf8(bytes),
        is_char_boundary(bytes, 2),
        is_char_boundary(bytes, 4),
    ensures
        4 <= bytes.len(),
        is_char_boundary(bytes.subrange(2, bytes.len() as int), 2),
{
    broadcast use vstd::utf8::group_utf8_lib;

    lemma_boundary_in_range(bytes, 4);
    let rest = bytes.subrange(2, bytes.len() as int);
    vstd::utf8::valid_utf8_split(bytes, 2);
    assert(vstd::utf8::valid_utf8(rest));
    if bytes.len() == 4 {
        vstd::utf8::is_char_boundary_start_end_of_seq(rest);
    } else {
        vstd::utf8::is_char_boundary_iff_not_is_continuation_byte(bytes, 4);
        vstd::utf8::is_char_boundary_iff_not_is_continuation_byte(rest, 2);
        assert(rest[2] == bytes[4]);
    }
}

/// A character boundary lies within the text.
proof fn lemma_boundary_in_range(bytes: Seq<u8>, index: int)
    requires
        vstd::utf8::valid_utf8(bytes),
        is_char_boundary(bytes, index),
    ensures
        0 <= index <= bytes.len(),
{
    reveal_with_fuel(is_char_boundary, 1);
}

/// On ASCII text, bytes and characters are counted alike.
pub proof fn lemma_ascii_byte_slice(s: Seq<char>, from: int, to: int)
    requires
        is_ascii_chars(s),
        0 <= from <= to <= s.len(),
    ensures
        byte_slice(s, from, to) == s.subrange(from, to),
        is_char_boundary(encode_utf8(s), from),
{
    broadcast use vstd::utf8::group_utf8_lib;

    let part = s.subrange(from, to);
    vstd::utf8::is_ascii_chars_encode_utf8(s);
    assert(is_ascii_chars(part));
    vstd::utf8::is_ascii_chars_encode_utf8(part);
    assert(encode_utf8(part) =~= encode_utf8(s).subrange(from, to)) by {
        assert forall|i: int| 0 <= i < part.len() implies encode_utf8(part)[i] == encode_utf8(
            s,
        ).subrange(from, to)[i] by {
            assert(part[i] == s[from + i]);
        }
    }
    if from == s.len() {
        vstd::utf8::is_char_boundary_start_end_of_seq(encode_utf8(s));
    } else {
        vstd::utf8::is_char_boundary_iff_not_is_continuation_byte(encode_utf8(s), from);
        let b = encode_utf8(s)[from];
        assert(b == s[from] as u8);
        assert(b < 0x80);
    }
}

/// The hash of every key is sixteen ASCII characters without a dot.
pub proof fn lemma_key_hash_shape(key: Seq<char>)
    ensures
        key_hash(key).len() == 16,
        is_ascii_chars(key_hash(key)),
        plain_name(key_hash(key)),
        is_char_boundary(encode_utf8(key_hash(key)), 2),
        is_char_boundary(encode_utf8(key_hash(key)), 4),
{
    let h = key_hash(key);
    assert forall|i: int| 0 <= i < h.len() implies '\0' <= #[trigger] h[i] <= '\u{7f}' && h[i]
        != '.' by {}
    lemma_ascii_byte_slice(h, 2, 4);
    lemma_ascii_byte_slice(h, 4, 6);
}

/// Every entry lives at `<root>/<hh>/<hh>/<hash>`, where the two short names
/// are the first and the second pair of characters of the hash of its key.
pub proof fn law_disk_layout(root: Seq<char>, key: Seq<char>)
    ensures
        entry_dir(root, key) == seq![
            root,
            key_hash(key).subrange(0, 2),
            key_hash(key).subrange(2, 4),
            key_hash(key),
        ],
        key_hash(key).len() == 16,
        entry_dir(root, key).last() == key_hash(key),
{
    lemma_key_hash_shape(key);
    lemma_ascii_byte_slice(key_hash(key), 0, 2);
    lemma_ascii_byte_slice(key_hash(key), 2, 4);
    assert(entry_dir(root, key) =~= seq![
        root,
        key_hash(key).subrange(0, 2),
        key_hash(key).subrange(2, 4),
        key_hash(key),
    ]);
}

} // verus!
