//! What the operations of the store add up to.

use crate::disk::{part_file, persist_steps, remove_steps, EntryPart};
use crate::files::{
    law_persist_writes_entry, law_remove_entry, run, under, Files,
};
use crate::hit::{stream_chunk, stream_position, CompleteReader, DiskReader, EOF_MARK};
use crate::layout::{entry_dir, key_hash, lemma_key_hash_shape, tmp_sibling};
use crate::probe::{
    law_open_finds_complete_entries, law_open_reads_what_was_written, probed, OpenView, OutcomeView,
};
use crate::record::{be_bytes, lemma_be_bytes_injective, MetaView, ObjectView, PartialView};
use crate::state::{
    lemma_no_new_writers, new_writer, over, purged_len, saturating_sum, PurgeType, Settings, StoreState,
    WriterView,
};
use crate::storage::{attached_by_tag, found_in_memory, HitSource, Lookup};
use crate::uring::{reply_to, PendingOperation, UringState};
use vstd::prelude::*;

verus! {

/// Writes that are all accepted add up to their concatenation.
pub proof fn law_body_is_what_was_written(w: WriterView, writes: Seq<Seq<u8>>)
    requires
        w.body.len() == 0,
        writes.flatten().len() <= usize::MAX,
        !over(w.max_object_bytes, writes.flatten().len()),
    ensures
        w.all_wrote(writes) == (WriterView { body: writes.flatten(), ..w }),
    decreases writes.len(),
{
    if writes.len() == 0 {
        assert(w.body =~= writes.flatten());
    } else {
        let front = writes.drop_last();
        lemma_flatten_last(writes);
        law_body_is_what_was_written(w, front);
    }
}

/// The concatenation of all but the last, then the last.
proof fn lemma_flatten_last(parts: Seq<Seq<u8>>)
    requires
        parts.len() > 0,
    ensures
        parts.flatten() == parts.drop_last().flatten() + parts.last(),
{
    assert(parts =~= parts.drop_last().push(parts.last()));
    parts.drop_last().lemma_flatten_push(parts.last());
}

/// No series of writes, refused or not, takes a body past `max_object_bytes`.
/// (No body in memory passes the largest size, which is left out as a limit.)
pub proof fn law_object_limit_holds(w: WriterView, writes: Seq<Seq<u8>>)
    requires
        w.max_object_bytes is Some,
        w.max_object_bytes->0 < usize::MAX,
        w.body.len() <= w.max_object_bytes->0,
    ensures
        w.all_wrote(writes).body.len() <= w.max_object_bytes->0,
        w.all_wrote(writes).max_object_bytes == w.max_object_bytes,
    decreases writes.len(),
{
    if writes.len() > 0 {
        law_object_limit_holds(w, writes.drop_last());
    }
}

/// Whatever is written, a body only grows: what a reader has seen of it stays
/// where it is.
pub proof fn law_body_only_grows(w: WriterView, writes: Seq<Seq<u8>>)
    ensures
        w.body.is_prefix_of(w.all_wrote(writes).body),
        w.all_wrote(writes) == (WriterView { body: w.all_wrote(writes).body, ..w }),
    decreases writes.len(),
{
    if writes.len() > 0 {
        law_body_only_grows(w, writes.drop_last());
    }
}

/// A body that is over `max_object_bytes` or does not fit in what is left of
/// `max_disk_bytes` is refused: memory and the disk account stay as they are,
/// and the write is released. This happens for no other body.
pub proof fn law_refused_finish_changes_nothing(s: StoreState, w: WriterView)
    ensures
        s.finish_refusal(w) is Some <==> over(w.max_object_bytes, w.body.len()) || over(
            w.max_disk_bytes,
            saturating_sum(s.disk_bytes_used as nat, w.body.len()),
        ),
        s.finish_refusal(w) is Some ==> {
            &&& s.finished(w).cached == s.cached
            &&& s.finished(w).disk_bytes_used == s.disk_bytes_used
            &&& s.finished(w) == s.cleaned_up(w)
        },
{
}

/// A finished object is found in memory, and reading it to the end gives back
/// the metadata and the body that were written.
pub proof fn law_finished_object_is_read_back(
    s: StoreState,
    settings: Settings,
    w: WriterView,
    found: Lookup,
)
    requires
        s.finish_refusal(w) is None,
        found_in_memory(s.finished(w), settings, w.key, found),
    ensures
        ({
            &&& found matches Lookup::Found { meta, source }
            &&& meta@ == w.meta
            &&& source matches HitSource::Memory(reader)
            &&& reader@.remaining() == w.body
            &&& reader@.drained().remaining() == Seq::<u8>::empty()
        }),
{
    let reader = CompleteReader::of(w.body);
    assert(s.finished(w).cached[w.key] == w.object());
    assert(reader.remaining() =~= w.body);
}

/// From admission to lookup: what a handler was given piece by piece is what a
/// reader gets, with the metadata that the handler was asked for with.
pub proof fn law_written_body_is_served(
    s: StoreState,
    settings: Settings,
    key: Seq<char>,
    id: u64,
    meta: MetaView,
    writes: Seq<Seq<u8>>,
    found: Lookup,
)
    requires
        writes.flatten().len() <= usize::MAX,
        !over(settings.max_object_bytes, writes.flatten().len()),
        !over(
            settings.max_disk_bytes,
            saturating_sum(s.disk_bytes_used as nat, writes.flatten().len()),
        ),
        found_in_memory(
            s.finished(new_writer(settings, key, id, meta).all_wrote(writes)),
            settings,
            key,
            found,
        ),
    ensures
        ({
            &&& found matches Lookup::Found { meta: m, source }
            &&& m@ == meta
            &&& source matches HitSource::Memory(reader)
            &&& reader@.remaining() == writes.flatten()
        }),
{
    let w = new_writer(settings, key, id, meta);
    law_body_is_what_was_written(w, writes);
    law_finished_object_is_read_back(s, settings, w.all_wrote(writes), found);
}

/// A seek within the body makes a reader give exactly the bytes from `start` to
/// `end`, or to the end of the body if that comes first.
pub proof fn law_seek_selects_range(r: CompleteReader, start: usize, end: Option<usize>)
    requires
        start < r.body.len(),
    ensures
        end is None ==> r.seeked(start, end).remaining() == r.body.skip(start as int),
        end is Some && start <= end->0 <= r.body.len() ==> r.seeked(start, end).remaining()
            == r.body.subrange(start as int, end->0 as int),
        end is Some && end->0 > r.body.len() ==> r.seeked(start, end).remaining() == r.body.skip(
            start as int,
        ),
        end is Some && end->0 < start ==> r.seeked(start, end).remaining() == Seq::<u8>::empty(),
{
    assert(r.body.skip(start as int) =~= r.body.subrange(start as int, r.body.len() as int));
    if end is Some && start == end->0 {
        assert(r.body.subrange(start as int, start as int) =~= Seq::<u8>::empty());
    }
}

/// What a reader of a write in progress sees: the last announcement, and the
/// body at that moment.
pub struct Sight {
    pub available: usize,
    pub body: Seq<u8>,
}

/// Where a reader is after all of `sights`.
pub open spec fn followed_to(sights: Seq<Sight>) -> nat
    decreases sights.len(),
{
    if sights.len() == 0 {
        0
    } else {
        stream_position(
            followed_to(sights.drop_last()),
            sights.last().available,
            sights.last().body,
        )
    }
}

/// What a reader has been given after all of `sights`.
pub open spec fn followed(sights: Seq<Sight>) -> Seq<u8>
    decreases sights.len(),
{
    if sights.len() == 0 {
        Seq::empty()
    } else {
        followed(sights.drop_last()) + stream_chunk(
            followed_to(sights.drop_last()),
            sights.last().available,
            sights.last().body,
        )
    }
}

/// The body only ever grows.
pub open spec fn growing(sights: Seq<Sight>) -> bool {
    forall|i: int, j: int|
        0 <= i <= j < sights.len() ==> (#[trigger] sights[i]).body.is_prefix_of(
            (#[trigger] sights[j]).body,
        )
}

/// A reader that follows a write in progress is given the body from its start,
/// in order, without gaps or repetitions. Once it has seen the announcement
/// that the body is complete, it has been given all of it.
pub proof fn law_reader_follows_writer(sights: Seq<Sight>)
    requires
        growing(sights),
        sights.len() > 0,
    ensures
        followed_to(sights) <= sights.last().body.len(),
        followed(sights) == sights.last().body.take(followed_to(sights) as int),
        sights.last().available == EOF_MARK ==> followed(sights) == sights.last().body,
    decreases sights.len(),
{
    let front = sights.drop_last();
    let last = sights.last();
    let p = followed_to(front);
    if front.len() > 0 {
        assert forall|i: int, j: int| 0 <= i <= j < front.len() implies (
        #[trigger] front[i]).body.is_prefix_of((#[trigger] front[j]).body) by {
            assert(front[i] == sights[i] && front[j] == sights[j]);
        }
        law_reader_follows_writer(front);
        assert(sights[front.len() - 1].body.is_prefix_of(sights[sights.len() - 1].body));
        assert(front.last().body.take(p as int) =~= last.body.take(p as int));
    } else {
        assert(followed(front) =~= last.body.take(0));
    }
    let q = followed_to(sights);
    assert(last.body.take(p as int) + stream_chunk(p, last.available, last.body)
        =~= last.body.take(q as int));
    if last.available == EOF_MARK {
        assert(last.body.take(q as int) =~= last.body);
    }
}

/// `n` bytes are what a read of `file` at the position of `r` may give: not more
/// than was asked for, and nothing only if nothing was asked for or the file
/// has ended.
pub open spec fn honest_read(r: DiskReader, file: Seq<u8>, n: nat) -> bool {
    &&& n <= r.next_len()
    &&& n > 0 ==> r.position + n <= file.len()
    &&& n == 0 ==> r.next_len() == 0 || r.position >= file.len()
}

/// Every one of the reads may give what it does.
pub open spec fn honest_reads(r: DiskReader, file: Seq<u8>, sizes: Seq<nat>) -> bool
    decreases sizes.len(),
{
    sizes.len() == 0 || honest_reads(r, file, sizes.drop_last()) && honest_read(
        advanced_by(r, sizes.drop_last()),
        file,
        sizes.last(),
    )
}

/// The reader after reads of these sizes.
pub open spec fn advanced_by(r: DiskReader, sizes: Seq<nat>) -> DiskReader
    decreases sizes.len(),
{
    if sizes.len() == 0 {
        r
    } else {
        advanced_by(r, sizes.drop_last()).advanced(sizes.last())
    }
}

/// The bytes of `file` from `from` to `to`; none when that is no stretch of it.
pub open spec fn stretch(file: Seq<u8>, from: int, to: int) -> Seq<u8> {
    if 0 <= from < to <= file.len() {
        file.subrange(from, to)
    } else {
        Seq::empty()
    }
}

/// What a reader of `file` has been given after reads of these sizes.
pub open spec fn delivered(r: DiskReader, file: Seq<u8>, sizes: Seq<nat>) -> Seq<u8>
    decreases sizes.len(),
{
    if sizes.len() == 0 {
        Seq::empty()
    } else {
        let at = advanced_by(r, sizes.drop_last()).position as int;
        delivered(r, file, sizes.drop_last()) + stretch(file, at, at + sizes.last())
    }
}

/// Where a range ends in a file.
pub open spec fn range_end(r: DiskReader, file: Seq<u8>) -> nat {
    if r.end is Some && r.end->0 < file.len() {
        r.end->0 as nat
    } else {
        file.len()
    }
}

/// A reader of a file is given its bytes from where it starts, in order, without
/// gaps or repetitions, and never past the end of its range. Once a read gives
/// nothing, it has been given the whole of the range. A reader that starts past
/// the end of its range, or of the file, is given nothing.
pub proof fn law_disk_reader_reads_range(r: DiskReader, file: Seq<u8>, sizes: Seq<nat>)
    requires
        file.len() <= u64::MAX,
        honest_reads(r, file, sizes),
    ensures
        advanced_by(r, sizes).end == r.end,
        r.position <= range_end(r, file) ==> r.position <= advanced_by(r, sizes).position
            <= range_end(r, file),
        r.position > range_end(r, file) ==> advanced_by(r, sizes).position == r.position,
        delivered(r, file, sizes) == stretch(
            file,
            r.position as int,
            advanced_by(r, sizes).position as int,
        ),
        sizes.len() > 0 && sizes.last() == 0 ==> delivered(r, file, sizes) == stretch(
            file,
            r.position as int,
            range_end(r, file) as int,
        ),
    decreases sizes.len(),
{
    if sizes.len() > 0 {
        let front = sizes.drop_last();
        law_disk_reader_reads_range(r, file, front);
        let at = advanced_by(r, front);
        let n = sizes.last();
        assert(honest_read(at, file, n));
        assert(stretch(file, r.position as int, at.position as int) + stretch(
            file,
            at.position as int,
            at.position + n,
        ) =~= stretch(file, r.position as int, at.position + n));
    }
}

/// What one store has written to disk, every store with the same root finds
/// there, unless it has something newer in memory: it reads back the metadata,
/// and the whole body, in pieces of whatever sizes.
pub proof fn law_persisted_object_is_read_back(
    t: StoreState,
    settings: Settings,
    key: Seq<char>,
    object: ObjectView,
    atomic: bool,
    files: Files,
    found: Lookup,
    sizes: Seq<nat>,
)
    requires
        !t.cached.contains_key(key),
        t.writers(key) == Map::<u64, PartialView>::empty(),
        found_in_memory(t, settings, key, found),
        object.body.len() <= u64::MAX,
        honest_reads(DiskReader::whole(), object.body, sizes),
        sizes.len() > 0,
        sizes.last() == 0,
    ensures
        ({
            let dir = entry_dir(settings.disk_root, key);
            let after = run(files, persist_steps(dir, atomic), object);
            &&& found matches Lookup::OnDisk { dir: at }
            &&& at@ == dir
            &&& probed(after, OpenView::start(dir), 8) == OutcomeView::Found(object.meta)
            &&& after[part_file(dir, EntryPart::Body)] == object.body
            &&& delivered(DiskReader::whole(), after[part_file(dir, EntryPart::Body)], sizes)
                == object.body
        }),
{
    let dir = entry_dir(settings.disk_root, key);
    let after = run(files, persist_steps(dir, atomic), object);
    law_persist_writes_entry(files, dir, object, atomic);
    law_open_reads_what_was_written(after, dir, object);
    law_disk_reader_reads_range(DiskReader::whole(), object.body, sizes);
    assert(stretch(object.body, 0, object.body.len() as int) =~= object.body);
}

/// Once an object has been written to disk, memory lets go of it, and the next
/// lookup goes to the directory that it was written to.
pub proof fn law_demoted_object_is_looked_up_on_disk(
    s: StoreState,
    settings: Settings,
    w: WriterView,
    found: Lookup,
)
    requires
        s.finish_refusal(w) is None,
        w.dir == entry_dir(settings.disk_root, w.key),
        s.finished(w).writers(w.key) == Map::<u64, PartialView>::empty(),
        found_in_memory(s.finished(w).demoted(w.key), settings, w.key, found),
    ensures
        !s.finished(w).demoted(w.key).cached.contains_key(w.key),
        found matches Lookup::OnDisk { dir } && dir@ == w.dir,
{
    let t = s.finished(w);
    assert(t.demoted(w.key).writers(w.key) == t.writers(w.key));
}

/// Entries whose keys have different hashes do not share a file, not even while
/// one of them is being published.
pub proof fn law_entries_apart(root: Seq<char>, a: Seq<char>, b: Seq<char>, path: Seq<Seq<char>>)
    requires
        key_hash(a) != key_hash(b),
        under(entry_dir(root, a), path),
    ensures
        !under(entry_dir(root, b), path),
        !under(tmp_sibling(entry_dir(root, b)), path),
{
    let dir_a = entry_dir(root, a);
    let dir_b = entry_dir(root, b);
    lemma_key_hash_shape(a);
    lemma_key_hash_shape(b);
    reveal_strlit(".tmp");
    assert(dir_a.len() == 4 && dir_b.len() == 4 && tmp_sibling(dir_b).len() == 4);
    assert(dir_a[3] == key_hash(a) && dir_b[3] == key_hash(b));
    assert(path.take(4)[3] == key_hash(a));
    assert(tmp_sibling(dir_b)[3].len() == 20);
}

/// A purged key is gone: a lookup does not find it in memory, and once the
/// purge has been carried out on disk, not there either.
pub proof fn law_purged_key_is_gone(
    s: StoreState,
    settings: Settings,
    key: Seq<char>,
    purge_type: PurgeType,
    disk_len: Option<u64>,
    files: Files,
    object: ObjectView,
    found: Lookup,
)
    requires
        found_in_memory(
            s.purged(settings.max_disk_bytes, key, purge_type, disk_len),
            settings,
            key,
            found,
        ),
    ensures
        ({
            let dir = entry_dir(settings.disk_root, key);
            &&& found matches Lookup::OnDisk { dir: at }
            &&& at@ == dir
            &&& probed(run(files, remove_steps(dir), object), OpenView::start(dir), 8)
                == OutcomeView::Absent
        }),
{
    let dir = entry_dir(settings.disk_root, key);
    let t = s.purged(settings.max_disk_bytes, key, purge_type, disk_len);
    assert(!t.partials.contains_key(key));
    law_remove_entry(files, dir, object);
    let after = run(files, remove_steps(dir), object);
    law_open_finds_complete_entries(after, dir);
    let path = part_file(dir, EntryPart::Body);
    assert(path.take(dir.len() as int) =~= dir);
    assert(under(dir, path));
}

/// A purge takes off the disk account what finishing the object put on it,
/// whether the object is still in memory or has gone to disk.
pub proof fn law_purge_frees_what_finish_charged(
    s: StoreState,
    w: WriterView,
    purge_type: PurgeType,
    disk_len: Option<u64>,
)
    requires
        w.max_disk_bytes is Some,
        s.finish_refusal(w) is None,
        s.disk_bytes_used + w.body.len() <= usize::MAX,
        disk_len is None || disk_len->0 == w.body.len(),
    ensures
        s.finished(w).purged(w.max_disk_bytes, w.key, purge_type, disk_len).disk_bytes_used
            == s.disk_bytes_used,
        s.finished(w).purged(
            w.max_disk_bytes,
            w.key,
            purge_type,
            disk_len,
        ).metrics.disk_bytes == s.disk_bytes_used as i64 || w.body.len() == 0,
{
    let t = s.finished(w);
    assert(t.cached[w.key].body == w.body);
    assert(purged_len(t, w.max_disk_bytes, w.key, disk_len) == w.body.len());
}

/// A write that is admitted and then cleaned up leaves nothing behind but the
/// used id: no entry, no place taken, gauges as before. Cleaning up again
/// changes nothing.
pub proof fn law_cleanup_undoes_admission_once(
    s: StoreState,
    settings: Settings,
    key: Seq<char>,
    meta: MetaView,
    later: StoreState,
)
    requires
        s.inv(),
        !s.writers(key).contains_key(s.write_counter),
    ensures
        ({
            let id = s.write_counter;
            let w = new_writer(settings, key, id, meta);
            &&& s.admitted().registered(key, id, meta).cleaned_up(w) == (StoreState {
                write_counter: id.wrapping_add(1),
                ..s
            })
            &&& later.cleaned_up(WriterView { cleaned: true, ..w }) == later
        }),
{
    let id = s.write_counter;
    let w = new_writer(settings, key, id, meta);
    let t = s.admitted().registered(key, id, meta);
    let u = t.cleaned_up(w);
    assert(t.partials[key].remove(id) =~= s.writers(key));
    assert(u.partials =~= s.partials) by {
        if s.partials.contains_key(key) {
            assert(s.partials[key] != Map::<u64, PartialView>::empty());
        }
    }
    assert(u =~= (StoreState { write_counter: id.wrapping_add(1), ..s }));
}

/// With a cap on writes in progress, a write is admitted exactly when there is
/// room for it, and the cap is never passed.
pub proof fn law_writer_limit_holds(s: StoreState, limit: usize)
    requires
        s.partial_count <= limit,
    ensures
        s.full(Some(limit)) <==> s.partial_count == limit,
        !s.full(Some(limit)) ==> s.admitted().partial_count == s.partial_count + 1
            && s.admitted().partial_count <= limit,
        forall|key: Seq<char>, id: u64|
            s.partial_count > 0 ==> (#[trigger] s.released(key, id)).partial_count
                == s.partial_count - 1,
{
}

/// With a cap on the bytes on disk, finishing a write never passes it.
pub proof fn law_disk_limit_holds(s: StoreState, w: WriterView)
    requires
        w.max_disk_bytes is Some,
        s.disk_bytes_used <= w.max_disk_bytes->0,
    ensures
        s.finished(w).disk_bytes_used <= w.max_disk_bytes->0,
{
}

/// A reader that shows the tag of a write attaches to that write and no other.
pub proof fn law_tag_attaches_to_its_write(
    s: StoreState,
    key: Seq<char>,
    id: u64,
    found: Lookup,
)
    requires
        s.inv(),
        s.writers(key).contains_key(id),
        attached_by_tag(s, key, be_bytes(id), found),
    ensures
        ({
            &&& found matches Lookup::Found { meta, source }
            &&& meta@ == s.writers(key)[id].meta
            &&& source matches HitSource::Stream { write_id, reader }
            &&& write_id == id
            &&& reader@ == 0
        }),
{
    assert(s.has_tag(key, be_bytes(id)));
    if let Lookup::Found { meta, source } = found {
        if let HitSource::Stream { write_id, reader } = source {
            lemma_be_bytes_injective(write_id, id);
        }
    }
}

/// A reader whose tag is that of no write in progress of the key gets nothing.
pub proof fn law_foreign_tag_is_a_miss(
    s: StoreState,
    key: Seq<char>,
    tag: Seq<u8>,
    found: Lookup,
)
    requires
        s.inv(),
        forall|id: u64| #[trigger] s.writers(key).contains_key(id) ==> be_bytes(id) != tag,
        attached_by_tag(s, key, tag, found),
    ensures
        found is Miss,
{
}

/// An update of metadata replaces it wherever memory holds the key, and leaves
/// bodies and tags alone.
pub proof fn law_update_meta_keeps_bodies(s: StoreState, key: Seq<char>, meta: MetaView)
    ensures
        s.meta_updated(key, meta).cached.dom() == s.cached.dom(),
        s.cached.contains_key(key) ==> s.meta_updated(key, meta).cached[key] == (ObjectView {
            meta,
            body: s.cached[key].body,
        }),
        s.meta_updated(key, meta).writers(key).dom() == s.writers(key).dom(),
        forall|id: u64| #[trigger]
            s.writers(key).contains_key(id) ==> s.meta_updated(key, meta).writers(key)[id] == (
            PartialView { meta, tag: s.writers(key)[id].tag }),
{
    assert(s.meta_updated(key, meta).cached.dom() =~= s.cached.dom());
    assert(s.meta_updated(key, meta).writers(key).dom() =~= s.writers(key).dom());
}

/// No operation on one key changes what memory holds for another.
pub proof fn law_other_keys_untouched(
    s: StoreState,
    settings: Settings,
    w: WriterView,
    purge_type: PurgeType,
    disk_len: Option<u64>,
    other: Seq<char>,
)
    requires
        other != w.key,
    ensures
        same_for(s, s.admitted().registered(w.key, w.write_id, w.meta), other),
        same_for(s, s.cleaned_up(w), other),
        same_for(s, s.finished(w), other),
        same_for(s, s.demoted(w.key), other),
        same_for(s, s.purged(settings.max_disk_bytes, w.key, purge_type, disk_len), other),
        same_for(s, s.meta_updated(w.key, w.meta), other),
{
}

/// Memory holds the same for `key` in both.
pub open spec fn same_for(s: StoreState, t: StoreState, key: Seq<char>) -> bool {
    &&& s.cached.contains_key(key) <==> t.cached.contains_key(key)
    &&& s.cached.contains_key(key) ==> s.cached[key] == t.cached[key]
    &&& s.writers(key) == t.writers(key)
}

/// Every write in progress has an id that was handed out before.
pub open spec fn ids_handed_out(s: StoreState) -> bool {
    forall|key: Seq<char>, id: u64| #[trigger]
        s.writers(key).contains_key(id) ==> id < s.write_counter
}

/// As long as the ids last, a new write gets one that no write in progress has,
/// and every operation keeps it that way.
pub proof fn law_write_ids_are_fresh(
    s: StoreState,
    key: Seq<char>,
    meta: MetaView,
    w: WriterView,
    max_disk_bytes: Option<usize>,
    purge_type: PurgeType,
    disk_len: Option<u64>,
)
    requires
        ids_handed_out(s),
        s.write_counter < u64::MAX,
    ensures
        forall|k: Seq<char>| !(#[trigger] s.writers(k)).contains_key(s.write_counter),
        ids_handed_out(s.id_spent()),
        ids_handed_out(s.admitted().registered(key, s.write_counter, meta)),
        ids_handed_out(s.cleaned_up(w)),
        ids_handed_out(s.finished(w)),
        ids_handed_out(s.demoted(key)),
        ids_handed_out(s.purged(max_disk_bytes, key, purge_type, disk_len)),
        ids_handed_out(s.meta_updated(key, meta)),
{
    let registered = s.admitted().registered(key, s.write_counter, meta);
    lemma_no_new_writers(s, w, key, max_disk_bytes, purge_type, disk_len, meta);
    assert forall|k: Seq<char>, id: u64| #[trigger] registered.writers(k).contains_key(id) implies id
        < registered.write_counter by {
        assert(s.writers(k).contains_key(id) || id == s.write_counter);
    }
}

/// The gauge of keys shows how many objects are in memory.
pub open spec fn keys_gauge_accurate(s: StoreState) -> bool {
    s.cached.dom().finite() && s.metrics.keys == s.cached.len()
}

/// Every operation that changes what is in memory keeps the gauge of keys
/// accurate.
pub proof fn law_keys_gauge_is_accurate(
    s: StoreState,
    w: WriterView,
    key: Seq<char>,
    max_disk_bytes: Option<usize>,
    purge_type: PurgeType,
    disk_len: Option<u64>,
    meta: MetaView,
)
    requires
        keys_gauge_accurate(s),
        s.cached.len() < i64::MAX,
    ensures
        keys_gauge_accurate(s.finished(w)),
        keys_gauge_accurate(s.demoted(key)),
        keys_gauge_accurate(s.purged(max_disk_bytes, key, purge_type, disk_len)),
        keys_gauge_accurate(s.meta_updated(key, meta)),
{
    assert(s.cached.insert(w.key, w.object()).dom() =~= s.cached.dom().insert(
        w.key,
    ));
    assert(s.cached.remove(key).dom() =~= s.cached.dom().remove(key));
    assert(s.meta_updated(key, meta).cached.dom() =~= s.cached.dom());
    if !s.cached.contains_key(key) {
        assert(s.cached.remove(key) =~= s.cached);
    }
}

/// Every operation that was handed to the ring is answered by its completion,
/// once, with what the ring reported; other completions do not interfere.
pub proof fn law_operation_is_answered_once(
    s: UringState,
    id: u64,
    op: PendingOperation,
    other: u64,
    result: i32,
    buf: Seq<u8>,
)
    ensures
        s.submitted(id, op).reply(id, result, buf) == Some(reply_to(op, result, buf)),
        other != id ==> s.submitted(id, op).completed(other).reply(id, result, buf) == Some(
            reply_to(op, result, buf),
        ),
        s.submitted(id, op).completed(id).reply(id, result, buf) is None,
{
}

} // verus!
