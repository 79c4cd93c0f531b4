//! What each operation changes in a store, what it leaves alone, and what the
//! next one makes of it.

use crate::disk::{meta_steps, part_file, EntryPart};
use crate::error::StoreError;
use crate::files::{
    alike, carried_out, holds_entry, law_in_place_stays_in_dir, law_remove_entry,
    law_replace_meta, law_reported_persist_is_there, run, succeeded, under, Files,
};
use crate::hit::{DiskHitHandler, DiskReader};
use crate::laws::{
    delivered, honest_reads, law_body_is_what_was_written, law_body_only_grows,
    law_tag_attaches_to_its_write,
};
use crate::layout::{entry_dir, key_hash, law_disk_layout};
use crate::metrics::StoreMetrics;
use crate::naming::{byte_number, law_tag_stands_for_id};
use crate::probe::{
    law_open_finds_complete_entries, law_open_reads_what_was_written,
    law_publish_shows_no_half_entry, probed, OpenView, OutcomeView,
};
use crate::reading::law_disk_reader_gives_all;
use crate::record::{be_bytes, MetaBytes, MetaView, ObjectView, PartialView};
use crate::state::{
    lemma_meta_updated_inv, lemma_registered_inv, new_writer, PurgeType, Settings, StoreState,
    WriterView,
};
use crate::storage::{attached_by_tag, found_in_memory, served_from_disk, HitSource, Lookup};
use vstd::prelude::*;

verus! {

/// Some write of `key` is in progress.
pub open spec fn being_written(s: StoreState, key: Seq<char>) -> bool {
    exists|id: u64| s.writers(key).contains_key(id)
}

/// A key is being written exactly when there is a write to list.
proof fn lemma_being_written(s: StoreState, key: Seq<char>)
    ensures
        being_written(s, key) <==> s.writers(key) != Map::<u64, PartialView>::empty(),
{
    if !being_written(s, key) {
        assert(s.writers(key) =~= Map::<u64, PartialView>::empty());
    }
}

/// A write that was just admitted is found: unless there is a complete object, a
/// lookup of its key starts a reader at the beginning of a write in progress of
/// that key. Where it is the only one, the reader follows this write and gets the
/// metadata that it was admitted with, each half as what it is. Where the lookup
/// picks another one, it gives the metadata of that.
pub proof fn law_admitted_write_is_found(
    s: StoreState,
    settings: Settings,
    key: Seq<char>,
    id: u64,
    meta: MetaView,
    found: Lookup,
)
    requires
        !s.cached.contains_key(key),
        found_in_memory(s.admitted().registered(key, id, meta), settings, key, found),
    ensures
        ({
            &&& found matches Lookup::Found { meta: m, source }
            &&& source matches HitSource::Stream { write_id, reader }
            &&& reader@ == 0
            &&& write_id == id ==> m.internal@ == meta.internal && m.header@ == meta.header
            &&& write_id != id ==> {
                &&& s.writers(key).contains_key(write_id)
                &&& m.internal@ == s.writers(key)[write_id].meta.internal
                &&& m.header@ == s.writers(key)[write_id].meta.header
            }
            &&& !being_written(s, key) ==> write_id == id
        }),
{
    let t = s.admitted().registered(key, id, meta);
    assert(t.writers(key).contains_key(id));
    lemma_being_written(t, key);
}

/// A reader that shows the tag of a write that was admitted, which is its id in
/// eight bytes, follows that write from its beginning, with the metadata that it
/// was admitted with, whatever else is in memory.
pub proof fn law_admitted_write_is_found_by_tag(
    s: StoreState,
    key: Seq<char>,
    id: u64,
    meta: MetaView,
    tag: Seq<u8>,
    found: Lookup,
)
    requires
        s.inv(),
        tag == be_bytes(id),
        attached_by_tag(s.admitted().registered(key, id, meta), key, tag, found),
    ensures
        ({
            &&& tag.len() == 8
            &&& byte_number(tag) == id
            &&& found matches Lookup::Found { meta: m, source }
            &&& source matches HitSource::Stream { write_id, reader }
            &&& write_id == id
            &&& reader@ == 0
            &&& m.internal@ == meta.internal
            &&& m.header@ == meta.header
        }),
{
    let t = s.admitted().registered(key, id, meta);
    assert(s.admitted().inv()) by {
        assert forall|k: Seq<char>, i: u64| #[trigger]
            s.admitted().writers(k).contains_key(i) implies s.admitted().writers(k)[i].tag
            == be_bytes(i) by {
            assert(s.writers(k).contains_key(i));
        }
    }
    lemma_registered_inv(s.admitted(), key, id, meta);
    assert(t.writers(key).contains_key(id));
    law_tag_attaches_to_its_write(t, key, id, found);
    law_tag_stands_for_id(id);
}

/// The tag that a handler gives out leads to its own write, with the metadata that
/// the handler was asked for with. A plain lookup of the key joins that write too,
/// where it is the only one and there is no complete object.
pub proof fn law_readers_join_the_handler(
    s: StoreState,
    settings: Settings,
    key: Seq<char>,
    meta: MetaView,
    w: WriterView,
    attached: Lookup,
    found: Lookup,
)
    requires
        s.inv(),
        s.admission(settings, key, Some(meta)) == Ok::<WriterView, StoreError>(w),
        attached_by_tag(s.after_admission(settings, key, Some(meta)), key, w.tag(), attached),
        found_in_memory(s.after_admission(settings, key, Some(meta)), settings, key, found),
    ensures
        ({
            &&& attached matches Lookup::Found { meta: m, source }
            &&& source matches HitSource::Stream { write_id, reader }
            &&& write_id == w.write_id
            &&& reader@ == 0
            &&& m.internal@ == meta.internal
            &&& m.header@ == meta.header
        }),
        !s.cached.contains_key(key) && !being_written(s, key) ==> {
            &&& found matches Lookup::Found { meta: m, source }
            &&& source matches HitSource::Stream { write_id, reader }
            &&& write_id == w.write_id
            &&& reader@ == 0
            &&& m.internal@ == meta.internal
            &&& m.header@ == meta.header
        },
{
    law_admitted_write_is_found_by_tag(s, key, w.write_id, meta, w.tag(), attached);
    if !s.cached.contains_key(key) && !being_written(s, key) {
        law_admitted_write_is_found(s, settings, key, w.write_id, meta, found);
    }
}

/// A complete object is what a lookup serves, before any write in progress: its
/// metadata, each half as what it is, and its body from the beginning.
pub proof fn law_complete_object_comes_first(
    s: StoreState,
    settings: Settings,
    key: Seq<char>,
    object: ObjectView,
    found: Lookup,
)
    requires
        found_in_memory(s.stored(key, object), settings, key, found),
    ensures
        ({
            &&& found matches Lookup::Found { meta: m, source }
            &&& m.internal@ == object.meta.internal
            &&& m.header@ == object.meta.header
            &&& source matches HitSource::Memory(reader)
            &&& reader@.body == object.body
            &&& reader@.position == 0
            &&& reader@.remaining() == object.body
        }),
{
    let t = s.stored(key, object);
    assert(t.cached[key] == object);
    if let Lookup::Found { source: HitSource::Memory(reader), .. } = found {
        assert(reader@.remaining() =~= object.body);
    }
}

/// What memory does not hold is looked for in one place on disk: below the root,
/// in directories named after the first four digits of the key's hash, under the
/// whole hash.
pub proof fn law_the_rest_is_looked_for_on_disk(
    s: StoreState,
    settings: Settings,
    key: Seq<char>,
    found: Lookup,
)
    requires
        found_in_memory(s, settings, key, found),
    ensures
        found is OnDisk <==> !s.cached.contains_key(key) && !being_written(s, key),
        found is Found <==> s.cached.contains_key(key) || being_written(s, key),
        found matches Lookup::OnDisk { dir } ==> dir@ == seq![
            settings.disk_root,
            key_hash(key).subrange(0, 2),
            key_hash(key).subrange(2, 4),
            key_hash(key),
        ],
{
    lemma_being_written(s, key);
    law_disk_layout(settings.disk_root, key);
}

/// Whatever the tag, a reader attaches to a write in progress of the key, never to
/// a complete object and never to the disk.
pub proof fn law_tag_finds_only_writes(
    s: StoreState,
    key: Seq<char>,
    tag: Seq<u8>,
    found: Lookup,
)
    requires
        attached_by_tag(s, key, tag, found),
    ensures
        match found {
            Lookup::Found { meta, source: HitSource::Stream { write_id, reader } } => {
                &&& s.writers(key).contains_key(write_id)
                &&& s.writers(key)[write_id].tag == tag
                &&& meta@ == s.writers(key)[write_id].meta
                &&& reader@ == 0
            },
            Lookup::Miss => forall|id: u64| #[trigger]
                s.writers(key).contains_key(id) ==> s.writers(key)[id].tag != tag,
            _ => false,
        },
{
    if found is Miss {
        assert forall|id: u64| #[trigger] s.writers(key).contains_key(id) implies s.writers(
            key,
        )[id].tag != tag by {
            assert(!s.has_tag(key, tag));
        }
    }
}

/// A write is turned away exactly when there is a cap and as many writes as it
/// allows; that is found out first and changes nothing. One whose metadata could not
/// be serialized fails and only uses up an id. Any other is admitted. It takes one
/// place and one id, is listed under its key with its metadata and its tag, and
/// changes nothing else.
pub proof fn law_admission(s: StoreState, settings: Settings, key: Seq<char>, meta: MetaView)
    requires
        s.partial_count < usize::MAX,
        s.write_counter < u64::MAX,
        s.metrics.partial_writes < i64::MAX,
    ensures
        settings.max_partial_writes is Some && s.partial_count >= settings.max_partial_writes->0
            ==> forall|m: Option<MetaView>| #[trigger]
            s.admission(settings, key, m) == Err::<WriterView, StoreError>(
                StoreError::TooManyPartialWrites { limit: settings.max_partial_writes->0 },
            ) && s.after_admission(settings, key, m) == s,
        settings.max_partial_writes is None || s.partial_count < settings.max_partial_writes->0 ==> {
            let id = s.write_counter;
            let t = s.after_admission(settings, key, Some(meta));
            &&& s.admission(settings, key, None) == Err::<WriterView, StoreError>(
                StoreError::MetaNotSerialized,
            )
            &&& s.after_admission(settings, key, None) == (StoreState {
                write_counter: (id + 1) as u64,
                ..s
            })
            &&& s.admission(settings, key, Some(meta)) is Ok
            &&& t.partial_count == s.partial_count + 1
            &&& t.write_counter == id + 1
            &&& t.writers(key).contains_key(id)
            &&& t.writers(key)[id].meta == meta
            &&& byte_number(t.writers(key)[id].tag) == id
            &&& t.writers(key)[id].tag.len() == 8
            &&& forall|other: u64|
                other != id ==> (#[trigger] t.writers(key).contains_key(other) <==> s.writers(
                    key,
                ).contains_key(other)) && (s.writers(key).contains_key(other) ==> t.writers(
                    key,
                )[other] == s.writers(key)[other])
            &&& t.cached == s.cached
            &&& t.disk_bytes_used == s.disk_bytes_used
            &&& t.metrics == (StoreMetrics {
                partial_writes: (s.metrics.partial_writes + 1) as i64,
                ..s.metrics
            })
        },
{
    law_tag_stands_for_id(s.write_counter);
}

/// The handler of a new write starts with an empty body. It knows the key, the id
/// and the metadata that it was asked for with, works under the limits of the
/// store, and will write to the directory where a lookup of the key looks.
pub proof fn law_new_handler(
    s: StoreState,
    settings: Settings,
    key: Seq<char>,
    meta: MetaView,
    w: WriterView,
    found: Lookup,
)
    requires
        !s.cached.contains_key(key),
        !being_written(s, key),
        found_in_memory(s, settings, key, found),
        s.admission(settings, key, Some(meta)) == Ok::<WriterView, StoreError>(w),
    ensures
        ({
            &&& w.body.len() == 0
            &&& !w.cleaned
            &&& w.key == key && w.write_id == s.write_counter
            &&& w.meta.internal == meta.internal && w.meta.header == meta.header
            &&& w.max_object_bytes == settings.max_object_bytes
            &&& w.max_disk_bytes == settings.max_disk_bytes
            &&& w.atomic_publish == settings.atomic_publish
            &&& found matches Lookup::OnDisk { dir }
            &&& w.dir == dir@
        }),
{
    lemma_being_written(s, key);
}

/// The body of `w` is within both limits, on top of what is on the disk account.
pub open spec fn fits(s: StoreState, w: WriterView) -> bool {
    &&& w.max_object_bytes is Some ==> w.body.len() <= w.max_object_bytes->0
    &&& w.max_disk_bytes is Some ==> s.disk_bytes_used + w.body.len() <= w.max_disk_bytes->0
}

/// A write finishes exactly when its body is within the limits. Its object, with
/// the metadata and the body of the write, then is in memory under its key, and its
/// size is on the disk account if there is a limit to it. A body that is over a
/// limit is refused with the limit that it is over, that for objects first, and
/// leaves memory and the account as they are. What goes to disk is what is in memory.
pub proof fn law_finish(s: StoreState, w: WriterView)
    requires
        w.body.len() <= usize::MAX,
        w.max_disk_bytes == Some(usize::MAX) ==> s.disk_bytes_used + w.body.len() <= usize::MAX,
    ensures
        s.finish_refusal(w) is None <==> fits(s, w),
        w.max_object_bytes is Some && w.body.len() > w.max_object_bytes->0 ==> s.finish_refusal(w)
            == Some(StoreError::ObjectTooLarge { limit: w.max_object_bytes->0, on_finish: true }),
        (w.max_object_bytes is None || w.body.len() <= w.max_object_bytes->0) && !fits(s, w)
            ==> s.finish_refusal(w) == Some(
            StoreError::DiskCapacityExceeded {
                used: s.disk_bytes_used,
                size: w.body.len() as usize,
                limit: w.max_disk_bytes->0,
            },
        ),
        ({
            let t = s.finished(w);
            &&& fits(s, w) ==> {
                &&& t.cached.contains_key(w.key)
                &&& t.cached[w.key].meta == w.meta
                &&& t.cached[w.key].body == w.body
                &&& t.cached.dom() == s.cached.dom().insert(w.key)
                &&& t.metrics.keys == t.cached.len() as i64
                &&& w.job().object == t.cached[w.key]
                &&& w.job().key == w.key
            }
            &&& !fits(s, w) ==> t.cached == s.cached && t.metrics.keys == s.metrics.keys
            &&& forall|k: Seq<char>|
                k != w.key && s.cached.contains_key(k) ==> #[trigger] t.cached[k] == s.cached[k]
            &&& t.disk_bytes_used == s.disk_bytes_used + if fits(s, w) && w.max_disk_bytes is Some {
                w.body.len() as int
            } else {
                0
            }
            &&& t.write_counter == s.write_counter
        }),
{
    let t = s.finished(w);
    if fits(s, w) {
        assert(t.cached.dom() =~= s.cached.dom().insert(w.key));
    }
}

/// Whether it finishes, is refused or is given up, a write leaves its place once: it
/// is no longer listed, one more write can be admitted, and the other writes, of
/// its key too, go on as they were. Done a second time, this changes nothing.
pub proof fn law_write_leaves_once(s: StoreState, w: WriterView, other: u64)
    requires
        other != w.write_id,
    ensures
        !w.cleaned && s.partial_count > 0 ==> {
            &&& s.cleaned_up(w).partial_count == s.partial_count - 1
            &&& s.finished(w).partial_count == s.partial_count - 1
        },
        !w.cleaned ==> {
            &&& !s.cleaned_up(w).writers(w.key).contains_key(w.write_id)
            &&& !s.finished(w).writers(w.key).contains_key(w.write_id)
        },
        w.cleaned ==> s.cleaned_up(w) == s,
        s.cleaned_up(w).writers(w.key).contains_key(other) <==> s.writers(w.key).contains_key(other),
        s.finished(w).writers(w.key).contains_key(other) <==> s.writers(w.key).contains_key(other),
        s.writers(w.key).contains_key(other) ==> {
            &&& s.cleaned_up(w).writers(w.key)[other] == s.writers(w.key)[other]
            &&& s.finished(w).writers(w.key)[other] == s.writers(w.key)[other]
        },
        s.cleaned_up(w).cached == s.cached,
        s.cleaned_up(w).disk_bytes_used == s.disk_bytes_used,
        s.cleaned_up(w).write_counter == s.write_counter,
        !w.cleaned && s.writers(w.key).contains_key(w.write_id) && s.metrics.partial_writes > 0
            ==> s.cleaned_up(w).metrics == (StoreMetrics {
            partial_writes: (s.metrics.partial_writes - 1) as i64,
            ..s.metrics
        }),
        !s.writers(w.key).contains_key(w.write_id) ==> s.cleaned_up(w).metrics == s.metrics,
{
    let key = w.key;
    if s.partials.contains_key(key) {
        let rest = s.partials[key].remove(w.write_id);
        if rest == Map::<u64, PartialView>::empty() {
            assert(!rest.contains_key(other));
        }
    }
}

/// An object that was written to disk leaves memory, which is counted. The other
/// objects, the writes in progress and the disk account stay as they are. After a
/// failure to write it, everything does.
pub proof fn law_demotion(s: StoreState, key: Seq<char>, other: Seq<char>)
    requires
        other != key,
        s.metrics.demotions < u64::MAX,
        s.metrics.keys > 0,
    ensures
        ({
            let t = s.persist_reported(key, true);
            &&& s.persist_reported(key, false) == s
            &&& !t.cached.contains_key(key)
            &&& t.cached.contains_key(other) <==> s.cached.contains_key(other)
            &&& s.cached.contains_key(other) ==> t.cached[other] == s.cached[other]
            &&& t.partials == s.partials
            &&& t.disk_bytes_used == s.disk_bytes_used
            &&& t.partial_count == s.partial_count
            &&& t.write_counter == s.write_counter
            &&& s.cached.contains_key(key) ==> t.metrics == (StoreMetrics {
                demotions: (s.metrics.demotions + 1) as u64,
                keys: (s.metrics.keys - 1) as i64,
                ..s.metrics
            })
            &&& !s.cached.contains_key(key) ==> t == s
        }),
{
}

/// What is left of an account of `used` bytes without `len` of them.
pub open spec fn left_over(used: int, len: int) -> int {
    if used > len {
        used - len
    } else {
        0
    }
}

/// A purge takes off the disk account the size of the body file, else that of the
/// body in memory, and no more than there is. It does so for a key that is only on
/// disk as well. Without a limit on the account it takes nothing off.
pub proof fn law_purge_account(
    s: StoreState,
    limit: Option<usize>,
    key: Seq<char>,
    purge_type: PurgeType,
    disk_len: Option<u64>,
)
    requires
        disk_len is Some ==> disk_len->0 <= usize::MAX,
        s.cached.contains_key(key) ==> s.cached[key].body.len() <= usize::MAX,
    ensures
        ({
            let t = s.purged(limit, key, purge_type, disk_len);
            &&& limit is None ==> t.disk_bytes_used == s.disk_bytes_used
            &&& limit is Some && disk_len is Some ==> t.disk_bytes_used == left_over(
                s.disk_bytes_used as int,
                disk_len->0 as int,
            )
            &&& limit is Some && disk_len is None && s.cached.contains_key(key)
                ==> t.disk_bytes_used == left_over(
                s.disk_bytes_used as int,
                s.cached[key].body.len() as int,
            )
            &&& disk_len is None && !s.cached.contains_key(key) ==> t.disk_bytes_used
                == s.disk_bytes_used
            &&& s.metrics.disk_bytes == s.disk_bytes_used as i64 ==> t.metrics.disk_bytes
                == t.disk_bytes_used as i64
        }),
{
}

/// A purge brings the disk account back to what it was before the object was
/// finished, whether the object is still in memory or has gone to disk, and
/// whatever is finished or written to disk for another key in between. The bytes
/// can then be used again.
pub proof fn law_purge_undoes_finish_on_account(
    s: StoreState,
    w: WriterView,
    v: WriterView,
    next: WriterView,
    purge_type: PurgeType,
)
    requires
        w.max_disk_bytes is Some,
        v.max_disk_bytes == w.max_disk_bytes,
        next.max_disk_bytes == w.max_disk_bytes,
        v.key != w.key,
        fits(s, w),
        fits(s.finished(w), v),
        fits(s, next),
        w.body.len() <= u64::MAX,
    ensures
        ({
            let len = Some(w.body.len() as u64);
            let in_memory = s.finished(w);
            let on_disk = s.finished(w).persist_reported(w.key, true);
            let busy = s.finished(w).finished(v).persist_reported(w.key, true).persist_reported(
                v.key,
                true,
            );
            let freed = on_disk.purged(w.max_disk_bytes, w.key, purge_type, len);
            &&& in_memory.disk_bytes_used == s.disk_bytes_used + w.body.len()
            &&& on_disk.disk_bytes_used == s.disk_bytes_used + w.body.len()
            &&& in_memory.purged(w.max_disk_bytes, w.key, purge_type, len).disk_bytes_used
                == s.disk_bytes_used
            &&& in_memory.purged(w.max_disk_bytes, w.key, purge_type, None).disk_bytes_used
                == s.disk_bytes_used
            &&& freed.disk_bytes_used == s.disk_bytes_used
            &&& busy.purged(w.max_disk_bytes, w.key, purge_type, len).disk_bytes_used
                == s.disk_bytes_used + v.body.len()
            &&& freed.finish_refusal(next) is None
        }),
{
    law_finish(s, w);
    let in_memory = s.finished(w);
    let on_disk = in_memory.demoted(w.key);
    law_finish(in_memory, v);
    let busy = in_memory.finished(v).demoted(w.key).demoted(v.key);
    let len = Some(w.body.len() as u64);
    law_purge_account(in_memory, w.max_disk_bytes, w.key, purge_type, len);
    law_purge_account(in_memory, w.max_disk_bytes, w.key, purge_type, None);
    law_purge_account(on_disk, w.max_disk_bytes, w.key, purge_type, len);
    law_purge_account(busy, w.max_disk_bytes, w.key, purge_type, len);
    law_finish(on_disk.purged(w.max_disk_bytes, w.key, purge_type, len), next);
}

/// A purge finds a key that memory holds as an object or is writing. Nothing of the
/// key is left in memory; other keys, places and ids are not touched. It counts
/// under its reason, once. Purged again, the key is not found.
pub proof fn law_purge(
    s: StoreState,
    limit: Option<usize>,
    key: Seq<char>,
    purge_type: PurgeType,
    disk_len: Option<u64>,
    other: Seq<char>,
)
    requires
        s.inv(),
        other != key,
        s.metrics.evictions < u64::MAX,
        s.metrics.invalidations < u64::MAX,
    ensures
        ({
            let t = s.purged(limit, key, purge_type, disk_len);
            &&& s.purge_finds(key) <==> s.cached.contains_key(key) || being_written(s, key)
            &&& !t.purge_finds(key)
            &&& !t.cached.contains_key(key)
            &&& !being_written(t, key)
            &&& t.cached.contains_key(other) <==> s.cached.contains_key(other)
            &&& s.cached.contains_key(other) ==> t.cached[other] == s.cached[other]
            &&& t.writers(other) == s.writers(other)
            &&& t.partial_count == s.partial_count
            &&& t.write_counter == s.write_counter
            &&& t.metrics.evictions == s.metrics.evictions + if purge_type
                == PurgeType::Eviction {
                1int
            } else {
                0
            }
            &&& t.metrics.invalidations == s.metrics.invalidations + if purge_type
                == PurgeType::Invalidation {
                1int
            } else {
                0
            }
            &&& t.metrics.hits == s.metrics.hits
            &&& t.metrics.misses == s.metrics.misses
            &&& t.metrics.demotions == s.metrics.demotions
            &&& t.metrics.stream_attach == s.metrics.stream_attach
            &&& t.metrics.stream_attach_miss == s.metrics.stream_attach_miss
        }),
{
    lemma_being_written(s, key);
    let t = s.purged(limit, key, purge_type, disk_len);
    assert(!t.partials.contains_key(key));
    if s.partials.contains_key(key) {
        assert(s.partials[key] != Map::<u64, PartialView>::empty());
    }
}

/// New metadata is what a lookup gives from then on, by key or by tag, from a
/// complete object with its old body or from a write in progress. The update is
/// owed where memory holds the key, and touches nothing but metadata.
pub proof fn law_updated_meta_is_served(
    s: StoreState,
    settings: Settings,
    key: Seq<char>,
    meta: MetaView,
    id: u64,
    found: Lookup,
    attached: Lookup,
)
    requires
        s.inv(),
        found_in_memory(s.meta_updated(key, meta), settings, key, found),
        s.writers(key).contains_key(id) ==> attached_by_tag(
            s.meta_updated(key, meta),
            key,
            be_bytes(id),
            attached,
        ),
    ensures
        s.meta_updatable(key) <==> s.cached.contains_key(key) || being_written(s, key),
        found matches Lookup::Found { meta: m, .. } ==> m.internal@ == meta.internal && m.header@
            == meta.header,
        s.cached.contains_key(key) ==> {
            &&& found matches Lookup::Found { source, .. }
            &&& source matches HitSource::Memory(reader)
            &&& reader@.remaining() == s.cached[key].body
        },
        !s.cached.contains_key(key) && being_written(s, key) ==> {
            &&& found matches Lookup::Found { source, .. }
            &&& source matches HitSource::Stream { write_id, reader }
            &&& s.writers(key).contains_key(write_id)
            &&& reader@ == 0
        },
        s.writers(key).contains_key(id) ==> {
            &&& attached matches Lookup::Found { meta: m, source }
            &&& source matches HitSource::Stream { write_id, reader }
            &&& write_id == id
            &&& m.internal@ == meta.internal
            &&& m.header@ == meta.header
        },
        s.meta_updated(key, meta).metrics == s.metrics,
        s.meta_updated(key, meta).partial_count == s.partial_count,
        s.meta_updated(key, meta).write_counter == s.write_counter,
        s.meta_updated(key, meta).disk_bytes_used == s.disk_bytes_used,
{
    let t = s.meta_updated(key, meta);
    lemma_being_written(s, key);
    lemma_being_written(t, key);
    lemma_meta_updated_inv(s, key, meta);
    assert forall|i: u64| #[trigger] t.writers(key).contains_key(i) <==> s.writers(key).contains_key(
        i,
    ) by {}
    if s.writers(key).contains_key(id) {
        assert(t.writers(key).contains_key(id));
        law_tag_attaches_to_its_write(t, key, id, attached);
    }
    if s.cached.contains_key(key) {
        if let Lookup::Found { source: HitSource::Memory(reader), .. } = found {
            assert(reader@.remaining() =~= s.cached[key].body);
        }
    }
}

/// New metadata is what opening the entry on disk gives from then on, with the old
/// body. Where there is no body, there still is no entry.
pub proof fn law_updated_meta_is_read_from_disk(
    files: Files,
    dir: Seq<Seq<char>>,
    object: ObjectView,
)
    ensures
        ({
            let after = run(files, meta_steps(dir), object);
            let body = part_file(dir, EntryPart::Body);
            &&& files.contains_key(body) ==> probed(after, OpenView::start(dir), 8)
                == OutcomeView::Found(object.meta) && after[body] == files[body]
            &&& !files.contains_key(body) ==> probed(after, OpenView::start(dir), 8)
                == OutcomeView::Absent
        }),
{
    let after = run(files, meta_steps(dir), object);
    let body = part_file(dir, EntryPart::Body);
    if files.contains_key(body) {
        let now = ObjectView { meta: object.meta, body: files[body] };
        law_replace_meta(files, dir, now);
        law_replace_meta(files, dir, object);
        assert(run(files, meta_steps(dir), now) == after);
        law_open_reads_what_was_written(after, dir, now);
    } else {
        law_replace_meta(files, dir, object);
        law_open_finds_complete_entries(after, dir);
    }
}

/// The steps that a purge and an update hand back work on the entry where a lookup of
/// the key looks for it: once carried out, the purged entry is gone, and the updated
/// one has the new metadata and the old body.
pub proof fn law_plans_work_where_lookup_looks(
    s: StoreState,
    settings: Settings,
    key: Seq<char>,
    files: Files,
    object: ObjectView,
    found: Lookup,
)
    requires
        !s.cached.contains_key(key),
        !being_written(s, key),
        found_in_memory(s, settings, key, found),
    ensures
        ({
            let purged = run(files, settings.purge_steps(key), object);
            let updated = run(files, settings.update_steps(key), object);
            &&& found matches Lookup::OnDisk { dir }
            &&& probed(purged, OpenView::start(dir@), 8) == OutcomeView::Absent
            &&& forall|path: Seq<Seq<char>>| #[trigger]
                under(dir@, path) ==> !purged.contains_key(path)
            &&& forall|path: Seq<Seq<char>>|
                !under(dir@, path) ==> #[trigger] alike(purged, files, path)
            &&& files.contains_key(dir@.push("body.bin"@)) ==> {
                &&& probed(updated, OpenView::start(dir@), 8) == OutcomeView::Found(object.meta)
                &&& updated[dir@.push("body.bin"@)] == files[dir@.push("body.bin"@)]
                &&& updated[dir@.push("meta_internal.bin"@)] == object.meta.internal
                &&& updated[dir@.push("meta_header.bin"@)] == object.meta.header
            }
        }),
{
    let dir = entry_dir(settings.disk_root, key);
    lemma_being_written(s, key);
    law_remove_entry(files, dir, object);
    let purged = run(files, settings.purge_steps(key), object);
    law_open_finds_complete_entries(purged, dir);
    let body = part_file(dir, EntryPart::Body);
    assert(body.take(dir.len() as int) =~= dir);
    assert(under(dir, body));
    law_updated_meta_is_read_from_disk(files, dir, object);
    law_replace_meta(files, dir, object);
    law_open_finds_complete_entries(run(files, settings.update_steps(key), object), dir);
}

/// From admission to disk: the pieces that a handler was given, written to disk as
/// its plan says and reported as written, are what every store with the same root
/// reads there, with the metadata that the handler was asked for with, each half as
/// what it is, in files of fixed names.
pub proof fn law_written_body_is_served_from_disk(
    t: StoreState,
    settings: Settings,
    key: Seq<char>,
    id: u64,
    meta: MetaView,
    writes: Seq<Seq<u8>>,
    oks: Seq<bool>,
    course: Seq<Files>,
    found: Lookup,
    sizes: Seq<nat>,
)
    requires
        writes.flatten().len() <= usize::MAX,
        settings.max_object_bytes is Some ==> writes.flatten().len()
            <= settings.max_object_bytes->0,
        ({
            let job = new_writer(settings, key, id, meta).all_wrote(writes).job();
            carried_out(job.steps, job.object, oks, course) && succeeded(job.steps, oks)
        }),
        !t.cached.contains_key(key),
        !being_written(t, key),
        found_in_memory(t, settings, key, found),
        writes.flatten().len() <= u64::MAX,
        honest_reads(DiskReader::whole(), writes.flatten(), sizes),
        sizes.len() > 0,
        sizes.last() == 0,
    ensures
        ({
            let files = course.last();
            &&& found matches Lookup::OnDisk { dir }
            &&& probed(files, OpenView::start(dir@), 8) == OutcomeView::Found(meta)
            &&& files[dir@.push("body.bin"@)] == writes.flatten()
            &&& files[dir@.push("meta_internal.bin"@)] == meta.internal
            &&& files[dir@.push("meta_header.bin"@)] == meta.header
            &&& delivered(DiskReader::whole(), files[dir@.push("body.bin"@)], sizes)
                == writes.flatten()
        }),
{
    let new = new_writer(settings, key, id, meta);
    let w = new.all_wrote(writes);
    let dir = entry_dir(settings.disk_root, key);
    law_body_is_what_was_written(new, writes);
    law_reported_persist_is_there(dir, w.object(), w.atomic_publish, oks, course);
    law_open_reads_what_was_written(course.last(), dir, w.object());
    assert(holds_entry(course.last(), dir, w.object()));
    assert(course.last().contains_key(part_file(dir, EntryPart::MetaInternal)));
    assert(course.last().contains_key(part_file(dir, EntryPart::MetaHeader)));
    law_disk_reader_gives_all(writes.flatten(), sizes);
    law_the_rest_is_looked_for_on_disk(t, settings, key, found);
}

/// A store that publishes atomically never shows half an entry: wherever the plan of
/// a finished write stops, and whatever fails on the way, the directory of its key
/// holds what it held, the complete new entry, or no entry. A store that does not
/// writes in that directory and nowhere else.
pub proof fn law_publishing_as_set(
    settings: Settings,
    key: Seq<char>,
    id: u64,
    meta: MetaView,
    writes: Seq<Seq<u8>>,
    oks: Seq<bool>,
    course: Seq<Files>,
    path: Seq<Seq<char>>,
)
    requires
        ({
            let job = new_writer(settings, key, id, meta).all_wrote(writes).job();
            carried_out(job.steps, job.object, oks, course)
        }),
    ensures
        ({
            let dir = entry_dir(settings.disk_root, key);
            let body = part_file(dir, EntryPart::Body);
            let job = new_writer(settings, key, id, meta).all_wrote(writes).job();
            let before = probed(course[0], OpenView::start(dir), 8);
            let after = probed(course.last(), OpenView::start(dir), 8);
            &&& settings.atomic_publish ==> {
                ||| after == OutcomeView::Absent
                ||| after == before && course.last()[body] == course[0][body]
                ||| after == OutcomeView::Found(job.object.meta) && course.last()[body]
                    == job.object.body
            }
            &&& !settings.atomic_publish && !under(dir, path) ==> alike(
                course.last(),
                course[0],
                path,
            )
        }),
{
    let dir = entry_dir(settings.disk_root, key);
    let w = new_writer(settings, key, id, meta);
    law_body_only_grows(w, writes);
    let job = w.all_wrote(writes).job();
    if settings.atomic_publish {
        law_publish_shows_no_half_entry(dir, job.object, oks, course);
    } else if !under(dir, path) {
        law_in_place_stays_in_dir(dir, job.object, oks, course, path);
    }
}

/// A lookup that found nothing counts as a miss, once, and so does a tag that
/// matched nothing, which is also counted as such. What was found counts as a hit
/// once its metadata has been decoded, and by tag also as attached. An error on disk
/// and metadata that cannot be decoded count as neither.
pub proof fn law_counting_lookups(
    s: StoreState,
    key: Seq<char>,
    tag: Seq<u8>,
    opened: Result<Option<MetaView>, StoreError>,
    tagged: bool,
)
    requires
        s.metrics.hits < u64::MAX,
        s.metrics.misses < u64::MAX,
        s.metrics.stream_attach < u64::MAX,
        s.metrics.stream_attach_miss < u64::MAX,
    ensures
        (exists|id: u64| #[trigger]
            s.writers(key).contains_key(id) && s.writers(key)[id].tag == tag) ==> s.tag_looked_up(
            key,
            tag,
        ) == s,
        !(exists|id: u64| #[trigger]
            s.writers(key).contains_key(id) && s.writers(key)[id].tag == tag) ==> s.tag_looked_up(
            key,
            tag,
        ) == (StoreState {
            metrics: StoreMetrics {
                misses: (s.metrics.misses + 1) as u64,
                stream_attach_miss: (s.metrics.stream_attach_miss + 1) as u64,
                ..s.metrics
            },
            ..s
        }),
        opened matches Ok(Some(_)) ==> s.disk_looked_up(opened) == s,
        opened matches Ok(None) ==> s.disk_looked_up(opened) == (StoreState {
            metrics: StoreMetrics { misses: (s.metrics.misses + 1) as u64, ..s.metrics },
            ..s
        }),
        opened is Err ==> s.disk_looked_up(opened) == s,
        s.decoded(tagged, false) == s,
        s.decoded(false, true) == (StoreState {
            metrics: StoreMetrics { hits: (s.metrics.hits + 1) as u64, ..s.metrics },
            ..s
        }),
        s.decoded(true, true) == (StoreState {
            metrics: StoreMetrics {
                hits: (s.metrics.hits + 1) as u64,
                stream_attach: (s.metrics.stream_attach + 1) as u64,
                ..s.metrics
            },
            ..s
        }),
{
}

/// What opening an entry came to is what a lookup on disk gives: its metadata, each
/// half as what it is, with a reader of all of its body; or nothing; or the error.
pub proof fn law_lookup_on_disk(
    opened: Result<Option<MetaView>, StoreError>,
    found: Result<Option<(MetaBytes, DiskHitHandler)>, StoreError>,
    file: Seq<u8>,
    sizes: Seq<nat>,
)
    requires
        served_from_disk(opened, found),
        file.len() <= u64::MAX,
        honest_reads(DiskReader::whole(), file, sizes),
        sizes.len() > 0,
        sizes.last() == 0,
    ensures
        match found {
            Ok(Some((m, reader))) => {
                &&& opened matches Ok(Some(meta))
                &&& m.internal@ == meta.internal
                &&& m.header@ == meta.header
                &&& delivered(reader@, file, sizes) == file
            },
            Ok(None) => opened matches Ok(None),
            Err(e) => opened matches Err(f) && e == f,
        },
        opened matches Ok(Some(_)) ==> found matches Ok(Some(_)),
{
    law_disk_reader_gives_all(file, sizes);
}

/// Every lookup counts once, as a hit or as a miss. One by tag also counts as
/// attached, or as one whose tag matched nothing. Nothing else changes.
pub proof fn law_lookups_are_counted_once(m: StoreMetrics)
    requires
        m.hits < u64::MAX,
        m.misses < u64::MAX,
        m.stream_attach < u64::MAX,
        m.stream_attach_miss < u64::MAX,
    ensures
        m.hit() == (StoreMetrics { hits: (m.hits + 1) as u64, ..m }),
        m.missed() == (StoreMetrics { misses: (m.misses + 1) as u64, ..m }),
        m.attached() == (StoreMetrics {
            hits: (m.hits + 1) as u64,
            stream_attach: (m.stream_attach + 1) as u64,
            ..m
        }),
        m.attach_missed() == (StoreMetrics {
            misses: (m.misses + 1) as u64,
            stream_attach_miss: (m.stream_attach_miss + 1) as u64,
            ..m
        }),
{
}

/// A new store holds nothing, has counted nothing, and shows which features are on.
pub proof fn law_new_store_is_empty(settings: Settings, key: Seq<char>, found: Lookup)
    requires
        found_in_memory(StoreState::fresh(settings), settings, key, found),
    ensures
        ({
            let s = StoreState::fresh(settings);
            &&& found is OnDisk
            &&& !s.purge_finds(key)
            &&& !s.meta_updatable(key)
            &&& s.write_counter == 0
            &&& s.partial_count == 0
            &&& s.disk_bytes_used == 0
            &&& s.metrics.hits == 0 && s.metrics.misses == 0
            &&& s.metrics.evictions == 0 && s.metrics.invalidations == 0
            &&& s.metrics.stream_attach == 0 && s.metrics.stream_attach_miss == 0
            &&& s.metrics.demotions == 0
            &&& s.metrics.keys == 0
            &&& s.metrics.partial_writes == 0
            &&& s.metrics.disk_bytes == 0
            &&& s.metrics.atomic_publish_enabled == 1 <==> settings.atomic_publish
            &&& s.metrics.atomic_publish_enabled == 0 <==> !settings.atomic_publish
            &&& s.metrics.io_uring_enabled == 1 <==> settings.io_uring_enabled
            &&& s.metrics.io_uring_enabled == 0 <==> !settings.io_uring_enabled
        }),
{
    lemma_being_written(StoreState::fresh(settings), key);
    assert(!being_written(StoreState::fresh(settings), key));
}

} // verus!
