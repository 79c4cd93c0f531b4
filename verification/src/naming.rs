//! What names and numbers stand for: the hash of a key, digits, tags, the components
//! of a path, and the texts of errors.

use crate::error::{ErrorKind, StoreError};
use crate::layout::{entry_dir, fnv1a, fnv_round, key_hash, lemma_key_hash_shape};
use crate::paths::{is_name, path_of, segments};
use crate::record::{be_byte, be_bytes};
use crate::text::{decimal, digit, hex16};
use vstd::arithmetic::div_mod::{
    lemma_mod_multiples_vanish, lemma_mul_mod_noop_left, lemma_small_mod,
};
use vstd::prelude::*;
use vstd::utf8::encode_utf8;

verus! {

/// The hash starts at the FNV offset basis. Every further byte is mixed in by
/// exclusive or, and the result is multiplied by the FNV prime, modulo two to
/// the power of 64.
pub proof fn law_every_byte_is_hashed(bytes: Seq<u8>, byte: u8)
    ensures
        fnv1a(Seq::empty()) == 0xcbf29ce484222325u64,
        fnv1a(bytes.push(byte)) == ((fnv1a(bytes) ^ (byte as u64)) * 0x100000001b3)
            % 0x1_0000_0000_0000_0000,
{
    assert(bytes.push(byte).drop_last() =~= bytes);
    lemma_prime_product(fnv1a(bytes) ^ (byte as u64));
}

/// Multiplying by the FNV prime can be undone: it is odd, and so has an inverse.
proof fn lemma_prime_product(x: u64)
    ensures
        x.wrapping_mul(0x100000001b3) == (x * 0x100000001b3) % 0x1_0000_0000_0000_0000,
        (x.wrapping_mul(0x100000001b3) * 0xce965057aff6957b) % 0x1_0000_0000_0000_0000 == x,
{
    let m: int = 0x1_0000_0000_0000_0000;
    let p: int = 0x100000001b3;
    let q: int = 0xce965057aff6957b;
    let k: int = 887285111055;
    lemma_mul_mod_noop_left(x * p, q, m);
    assert(p * q == m * k + 1);
    assert((x * p) * q == m * (k * x) + x) by (nonlinear_arith)
        requires
            p * q == m * k + 1,
    ;
    lemma_mod_multiples_vanish(k * x, x as int, m);
    lemma_small_mod(x as nat, m as nat);
}

/// Different states, or different bytes, never lead to the same state.
proof fn lemma_round_injective(h: u64, a: u8, g: u64, b: u8)
    requires
        fnv_round(h, a) == fnv_round(g, b),
        h == g || a == b,
    ensures
        h == g,
        a == b,
{
    lemma_prime_product(h ^ (a as u64));
    lemma_prime_product(g ^ (b as u64));
    assert(h ^ (a as u64) == g ^ (b as u64));
    assert((h == g || a == b) && h ^ (a as u64) == g ^ (b as u64) ==> h == g && a == b)
        by (bit_vector);
}

/// Byte strings of one length that differ in one place have different hashes.
proof fn lemma_hashes_apart(a: Seq<u8>, b: Seq<u8>, i: int)
    requires
        a.len() == b.len(),
        0 <= i < a.len(),
        a[i] != b[i],
        forall|j: int| 0 <= j < a.len() && j != i ==> a[j] == b[j],
    ensures
        fnv1a(a) != fnv1a(b),
    decreases a.len(),
{
    let n = a.len() - 1;
    if fnv1a(a) == fnv1a(b) {
        if i == n {
            assert(a.drop_last() =~= b.drop_last());
        } else {
            lemma_hashes_apart(a.drop_last(), b.drop_last(), i);
        }
        lemma_round_injective(fnv1a(a.drop_last()), a[n], fnv1a(b.drop_last()), b[n]);
    }
}

/// Keys of one length that differ in a single byte, wherever it is, never have
/// the same hash, and so never share a directory.
pub proof fn law_one_byte_tells_keys_apart(
    root: Seq<char>,
    a: Seq<char>,
    b: Seq<char>,
    i: int,
)
    requires
        encode_utf8(a).len() == encode_utf8(b).len(),
        0 <= i < encode_utf8(a).len(),
        encode_utf8(a)[i] != encode_utf8(b)[i],
        forall|j: int|
            0 <= j < encode_utf8(a).len() && j != i ==> encode_utf8(a)[j] == encode_utf8(b)[j],
    ensures
        key_hash(a) != key_hash(b),
        entry_dir(root, a).last() != entry_dir(root, b).last(),
        entry_dir(root, a) != entry_dir(root, b),
{
    lemma_hashes_apart(encode_utf8(a), encode_utf8(b), i);
    law_hex_stands_for_number(fnv1a(encode_utf8(a)));
    law_hex_stands_for_number(fnv1a(encode_utf8(b)));
    assert(entry_dir(root, a).last() == key_hash(a));
    assert(entry_dir(root, b).last() == key_hash(b));
}

/// The name of an entry is its hash, the whole of it: names are equal only where
/// the 64-bit hashes of the keys' bytes are.
pub proof fn law_name_is_the_whole_hash(a: Seq<char>, b: Seq<char>)
    ensures
        key_hash(a) == key_hash(b) <==> fnv1a(encode_utf8(a)) == fnv1a(encode_utf8(b)),
        number(key_hash(a), 16) == fnv1a(encode_utf8(a)),
        key_hash(a).len() == 16,
{
    law_hex_stands_for_number(fnv1a(encode_utf8(a)));
    law_hex_stands_for_number(fnv1a(encode_utf8(b)));
    lemma_key_hash_shape(a);
}

/// What a digit is worth.
pub open spec fn worth(c: char) -> int {
    if '0' <= c <= '9' {
        c as int - '0' as int
    } else {
        c as int - 'a' as int + 10
    }
}

/// A digit of numbers in this base, in lower case.
pub open spec fn is_digit(c: char, base: int) -> bool {
    ('0' <= c <= '9' || 'a' <= c <= 'z') && worth(c) < base
}

/// The number that digits stand for, the most significant one first.
pub open spec fn number(digits: Seq<char>, base: int) -> int
    decreases digits.len(),
{
    if digits.len() == 0 {
        0
    } else {
        number(digits.drop_last(), base) * base + worth(digits.last())
    }
}

/// The number that bytes stand for, the most significant one first.
pub open spec fn byte_number(bytes: Seq<u8>) -> int
    decreases bytes.len(),
{
    if bytes.len() == 0 {
        0
    } else {
        byte_number(bytes.drop_last()) * 256 + bytes.last()
    }
}

/// A digit is worth what it stands for.
proof fn lemma_digit(d: int)
    requires
        0 <= d < 16,
    ensures
        worth(digit(d)) == d,
        is_digit(digit(d), 16),
        d < 10 ==> is_digit(digit(d), 10),
        d > 0 ==> digit(d) != '0',
{
}

/// Sixteen lower-case hex digits stand for the number that they were made from.
pub proof fn law_hex_stands_for_number(h: u64)
    ensures
        hex16(h).len() == 16,
        number(hex16(h), 16) == h,
        forall|i: int| 0 <= i < 16 ==> is_digit(#[trigger] hex16(h)[i], 16),
{
    lemma_hex_prefix(h, 15);
    assert(hex16(h).take(16) =~= hex16(h));
    assert(h >> 0u64 == h) by (bit_vector);
    assert forall|i: int| 0 <= i < 16 implies is_digit(#[trigger] hex16(h)[i], 16) by {
        let s = (60 - 4 * i) as u64;
        let nibble = (h >> s) & 0xf;
        assert(nibble < 16) by (bit_vector)
            requires
                nibble == (h >> s) & 0xf,
        ;
        lemma_digit(nibble as int);
    }
}

/// The first digits stand for the first bits.
proof fn lemma_hex_prefix(h: u64, i: nat)
    requires
        i < 16,
    ensures
        number(hex16(h).take(i as int + 1), 16) == h >> ((60 - 4 * i) as u64),
    decreases i,
{
    let s = (60 - 4 * i) as u64;
    let nibble = (h >> s) & 0xf;
    assert(nibble < 16) by (bit_vector)
        requires
            nibble == (h >> s) & 0xf,
    ;
    lemma_digit(nibble as int);
    let upto = hex16(h).take(i as int + 1);
    assert(upto.drop_last() =~= hex16(h).take(i as int));
    assert(upto.last() == digit(nibble as int));
    if i == 0 {
        assert((h >> 60u64) & 0xf == h >> 60u64) by (bit_vector);
        assert(number(hex16(h).take(0), 16) == 0);
    } else {
        lemma_hex_prefix(h, (i - 1) as nat);
        let t = (s + 4) as u64;
        assert(h >> s == (h >> t) * 16 + ((h >> s) & 0xf)) by (bit_vector)
            requires
                s <= 56,
                t == s + 4,
        ;
    }
}

/// Decimal digits stand for the number that they were made from, and there are no
/// more of them than needed.
pub proof fn law_decimal_stands_for_number(n: nat)
    ensures
        number(decimal(n), 10) == n,
        decimal(n).len() > 0,
        decimal(n).len() == 1 || decimal(n)[0] != '0',
        n > 0 ==> decimal(n)[0] != '0',
        forall|i: int| 0 <= i < decimal(n).len() ==> is_digit(#[trigger] decimal(n)[i], 10),
    decreases n,
{
    if n < 10 {
        lemma_digit(n as int);
        assert(decimal(n).drop_last() =~= Seq::<char>::empty());
        assert(number(decimal(n).drop_last(), 10) == 0);
    } else {
        law_decimal_stands_for_number(n / 10);
        lemma_digit((n % 10) as int);
        assert(decimal(n).drop_last() =~= decimal(n / 10));
        assert forall|i: int| 0 <= i < decimal(n).len() implies is_digit(
            #[trigger] decimal(n)[i],
            10,
        ) by {
            if i < decimal(n).len() - 1 {
                assert(decimal(n)[i] == decimal(n / 10)[i]);
            }
        }
    }
}

/// The tag of a write is its id in eight bytes, the most significant one first.
pub proof fn law_tag_stands_for_id(id: u64)
    ensures
        be_bytes(id).len() == 8,
        byte_number(be_bytes(id)) == id,
{
    lemma_byte_prefix(id, 7);
    assert(be_bytes(id).take(8) =~= be_bytes(id));
    assert(id >> 0u64 == id) by (bit_vector);
}

/// The first bytes stand for the first bits.
proof fn lemma_byte_prefix(x: u64, i: nat)
    requires
        i < 8,
    ensures
        byte_number(be_bytes(x).take(i as int + 1)) == x >> ((56 - 8 * i) as u64),
    decreases i,
{
    let s = (56 - 8 * i) as u64;
    let low = (x >> s) & 0xff;
    assert(low < 256) by (bit_vector)
        requires
            low == (x >> s) & 0xff,
    ;
    let upto = be_bytes(x).take(i as int + 1);
    assert(upto.drop_last() =~= be_bytes(x).take(i as int));
    assert(upto.last() == be_byte(x, i as int));
    assert(upto.last() == low);
    if i == 0 {
        assert((x >> 56u64) & 0xff == x >> 56u64) by (bit_vector);
        assert(byte_number(be_bytes(x).take(0)) == 0);
    } else {
        lemma_byte_prefix(x, (i - 1) as nat);
        let t = (s + 8) as u64;
        assert(x >> s == (x >> t) * 256 + ((x >> s) & 0xff)) by (bit_vector)
            requires
                s <= 48,
                t == s + 8,
        ;
    }
}

/// Two paths with a separator between them.
pub open spec fn joined(a: Seq<char>, b: Seq<char>) -> Seq<char> {
    a + seq!['/'] + b
}

/// What stands between the separators of two joined paths is what stands between
/// those of the first, then of the second.
proof fn lemma_segments_joined(a: Seq<char>, b: Seq<char>)
    ensures
        segments(b).len() > 0,
        segments(joined(a, b)) == segments(a) + segments(b),
    decreases b.len(),
{
    let path = joined(a, b);
    if b.len() == 0 {
        assert(path.drop_last() =~= a);
        assert(segments(path) =~= segments(a) + segments(b));
    } else {
        let front = b.drop_last();
        lemma_segments_joined(a, front);
        assert(path.drop_last() =~= joined(a, front));
        assert(path.last() == b.last());
        assert(segments(path) =~= segments(a) + segments(b));
    }
}

/// A text without a separator is one segment.
proof fn lemma_one_segment(s: Seq<char>)
    requires
        !s.contains('/'),
    ensures
        segments(s) == seq![s],
    decreases s.len(),
{
    if s.len() > 0 {
        let front = s.drop_last();
        assert forall|i: int| 0 <= i < front.len() implies front[i] != '/' by {
            assert(s.contains(s[i]));
        }
        lemma_one_segment(front);
        assert(s.contains(s.last()));
        assert(front.push(s.last()) =~= s);
        assert(segments(s) =~= seq![s]);
    } else {
        assert(s =~= Seq::<char>::empty());
        assert(segments(s) =~= seq![s]);
    }
}

/// Every path has a first segment.
proof fn lemma_some_segment(s: Seq<char>)
    ensures
        segments(s).len() > 0,
    decreases s.len(),
{
    if s.len() > 0 {
        lemma_some_segment(s.drop_last());
    }
}

/// The components of a path are what stands between its separators, in order,
/// without what is empty or a single dot. Where the path starts, at the root or
/// here, shows in how it begins.
pub proof fn law_path_components(a: Seq<char>, b: Seq<char>, name: Seq<char>)
    requires
        !name.contains('/'),
    ensures
        path_of(joined(a, b)).names == path_of(a).names + path_of(b).names,
        path_of(name).names == if name.len() == 0 || name == seq!['.'] {
            Seq::<Seq<char>>::empty()
        } else {
            seq![name]
        },
        path_of(a).absolute <==> a.len() > 0 && a[0] == '/',
        a.len() > 0 ==> path_of(joined(a, b)).from_here == path_of(a).from_here,
        path_of(name).from_here <==> name == seq!['.'],
        path_of(joined(Seq::empty(), b)).absolute && !path_of(joined(Seq::empty(), b)).from_here,
{
    let pred = |s: Seq<char>| is_name(s);
    lemma_segments_joined(a, b);
    lemma_some_segment(a);
    Seq::filter_distributes_over_add(segments(a), segments(b), pred);
    lemma_one_segment(name);
    reveal(Seq::filter);
    let one = seq![name];
    assert(one.drop_last() =~= Seq::<Seq<char>>::empty());
    assert(one.drop_last().filter(pred) =~= Seq::<Seq<char>>::empty());
    assert(one.last() == name);
    assert(path_of(name).names =~= if name.len() == 0 || name == seq!['.'] {
        Seq::<Seq<char>>::empty()
    } else {
        seq![name]
    });
    if a.len() > 0 {
        assert(joined(a, b)[0] == a[0]);
        assert((segments(a) + segments(b))[0] == segments(a)[0]);
    }
    assert(joined(Seq::empty(), b)[0] == '/');
    if name.len() > 0 && name[0] == '/' {
        assert(name.contains(name[0]));
    }
}

/// Repeated separators, a dot in between and a separator at the end do not make
/// another path.
pub proof fn law_spellings_of_one_path(a: Seq<char>, b: Seq<char>)
    requires
        a.len() > 0,
    ensures
        path_of(joined(joined(a, Seq::empty()), b)) == path_of(joined(a, b)),
        path_of(joined(joined(a, seq!['.']), b)) == path_of(joined(a, b)),
        path_of(joined(a, Seq::empty())) == path_of(a),
        path_of(joined(a, seq!['.'])) == path_of(a),
{
    let none = Seq::<char>::empty();
    let dot = seq!['.'];
    law_path_components(a, b, none);
    law_path_components(a, none, none);
    law_path_components(a, dot, dot);
    law_path_components(joined(a, none), b, none);
    law_path_components(joined(a, dot), b, none);
    assert(joined(a, b)[0] == a[0]);
    assert(joined(a, none)[0] == a[0]);
    assert(joined(a, dot)[0] == a[0]);
    assert(joined(joined(a, none), b)[0] == a[0]);
    assert(joined(joined(a, dot), b)[0] == a[0]);
    assert(path_of(a).names + Seq::<Seq<char>>::empty() =~= path_of(a).names);
    assert(path_of(joined(joined(a, none), b)) =~= path_of(joined(a, b)));
    assert(path_of(joined(joined(a, dot), b)) =~= path_of(joined(a, b)));
    assert(path_of(joined(a, none)) =~= path_of(a));
    assert(path_of(joined(a, dot)) =~= path_of(a));
}

/// The text of an error says what was exceeded, and gives every number that the error
/// carries in decimal.
pub proof fn law_errors_tell_their_numbers(used: usize, size: usize, limit: usize)
    ensures
        exists|l: Seq<char>|
            #![trigger number(l, 10)]
            number(l, 10) == limit && (StoreError::ObjectTooLarge {
                limit,
                on_finish: false,
            }).explanation() == "object exceeds max_object_bytes="@ + l,
        exists|l: Seq<char>|
            #![trigger number(l, 10)]
            number(l, 10) == limit && (StoreError::ObjectTooLarge {
                limit,
                on_finish: true,
            }).explanation() == "object exceeds max_object_bytes="@ + l + " on finish"@,
        exists|l: Seq<char>|
            #![trigger number(l, 10)]
            number(l, 10) == limit && (StoreError::TooManyPartialWrites { limit }).explanation()
                == "partial writes exceed max_partial_writes="@ + l,
        exists|u: Seq<char>, n: Seq<char>, l: Seq<char>|
            #![trigger number(u, 10), number(n, 10), number(l, 10)]
            number(u, 10) == used && number(n, 10) == size && number(l, 10) == limit && (
            StoreError::DiskCapacityExceeded { used, size, limit }).explanation() == "disk usage "@
                + u + " + "@ + n + " exceeds max_disk_bytes="@ + l,
        exists|u: Seq<char>, n: Seq<char>|
            #![trigger number(u, 10), number(n, 10)]
            number(u, 10) == used && number(n, 10) == size && (StoreError::SeekOutOfRange {
                start: used,
                len: size,
            }).explanation() == "Seek start "@ + u + " exceeds body length "@ + n,
{
    law_decimal_stands_for_number(used as nat);
    law_decimal_stands_for_number(size as nat);
    law_decimal_stands_for_number(limit as nat);
    let u = decimal(used as nat);
    let n = decimal(size as nat);
    let l = decimal(limit as nat);
    assert(number(u, 10) == used && number(n, 10) == size && number(l, 10) == limit);
    assert((StoreError::ObjectTooLarge { limit, on_finish: false }).explanation()
        =~= "object exceeds max_object_bytes="@ + l);
}

/// An error keeps its class whatever numbers it carries. A step on disk reports the
/// class and the words that it was given.
pub proof fn law_errors_keep_their_class(
    used: usize,
    size: usize,
    limit: usize,
    on_finish: bool,
    kind: ErrorKind,
    context: &'static str,
)
    ensures
        (StoreError::ObjectTooLarge { limit, on_finish }).kind_spec() == ErrorKind::ObjectTooLarge,
        (StoreError::DiskCapacityExceeded { used, size, limit }).kind_spec()
            == ErrorKind::DiskCapacityExceeded,
        (StoreError::TooManyPartialWrites { limit }).kind_spec()
            == ErrorKind::TooManyPartialWrites,
        (StoreError::SeekOutOfRange { start: used, len: size }).kind_spec()
            == ErrorKind::InternalError,
        StoreError::SeekUnsupported.kind_spec() == ErrorKind::InternalError,
        StoreError::MetaNotSerialized.kind_spec() == ErrorKind::InternalError,
        (StoreError::Disk { kind, context }).kind_spec() == kind,
        (StoreError::Disk { kind, context }).explanation() == context@,
{
}

} // verus!
