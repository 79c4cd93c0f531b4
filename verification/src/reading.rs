//! What readers are given, in terms of what was announced, asked for and stored.

use crate::error::StoreError;
use crate::hit::{
    handed_on, stream_chunk, stream_position, stream_read, CompleteReader, DiskReader, ReadView,
};
use crate::laws::{
    advanced_by, delivered, followed, followed_to, growing, honest_reads,
    law_disk_reader_reads_range, law_reader_follows_writer, law_seek_selects_range, Sight,
};
use crate::state::WriterView;
use vstd::prelude::*;

verus! {

/// The smaller of two numbers.
pub open spec fn least(a: int, b: int) -> int {
    if a < b {
        a
    } else {
        b
    }
}

/// One read gives a reader of a write in progress all that was announced and is
/// there, from where the reader is, and takes it exactly there. Only where there
/// is nothing more does it stay: it has come to the end if the body was announced
/// as complete, and waits otherwise.
pub proof fn law_read_gives_all_that_is_announced(position: nat, available: usize, body: Seq<u8>)
    requires
        body.len() <= usize::MAX,
    ensures
        ({
            let upto = least(available as int, body.len() as int);
            &&& position < upto ==> {
                &&& stream_position(position, available, body) == upto
                &&& stream_chunk(position, available, body) == body.subrange(position as int, upto)
                &&& stream_read(position, available, body) == ReadView::Chunk(
                    body.subrange(position as int, upto),
                )
            }
            &&& position >= upto ==> {
                &&& stream_position(position, available, body) == position
                &&& stream_chunk(position, available, body) == Seq::<u8>::empty()
                &&& available == usize::MAX ==> stream_read(position, available, body)
                    == ReadView::End
                &&& available < usize::MAX ==> stream_read(position, available, body)
                    == ReadView::Wait
            }
        }),
{
}

/// A reader never falls behind: after any series of reads it has been given, of
/// every body that it saw, at least what was announced of it then.
pub proof fn law_reader_keeps_up(sights: Seq<Sight>, i: int)
    requires
        0 <= i < sights.len(),
        forall|j: int| 0 <= j < sights.len() ==> (#[trigger] sights[j]).body.len() <= usize::MAX,
    ensures
        followed_to(sights) >= least(sights[i].available as int, sights[i].body.len() as int),
        growing(sights) ==> sights[i].body.take(
            least(sights[i].available as int, sights[i].body.len() as int),
        ).is_prefix_of(followed(sights)),
    decreases sights.len(),
{
    let n = sights.len() - 1;
    let front = sights.drop_last();
    law_read_gives_all_that_is_announced(
        followed_to(front),
        sights[n].available,
        sights[n].body,
    );
    if i < n {
        assert forall|j: int| 0 <= j < front.len() implies (#[trigger] front[j]).body.len()
            <= usize::MAX by {
            assert(front[j] == sights[j]);
        }
        law_reader_keeps_up(front, i);
        assert(front[i] == sights[i]);
    }
    if growing(sights) {
        law_reader_follows_writer(sights);
        assert(sights[i].body.is_prefix_of(sights[n].body));
        let upto = least(sights[i].available as int, sights[i].body.len() as int);
        assert(sights[i].body.take(upto) =~= followed(sights).take(upto));
    }
}

/// What a writer writes reaches its readers at once: told of the write, a reader
/// that is anywhere in the body gets the rest of it, up to and with the new data.
/// After the last write it then learns that this was all.
pub proof fn law_write_reaches_readers(w: WriterView, data: Seq<u8>, eof: bool, position: nat)
    requires
        w.body.len() + data.len() < usize::MAX,
        w.max_object_bytes is Some ==> w.body.len() + data.len() <= w.max_object_bytes->0,
        position <= w.body.len(),
    ensures
        ({
            let v = w.wrote(data);
            &&& v.body == w.body + data
            &&& w.write_answer(data.len(), eof) == Ok::<usize, StoreError>(v.announced(eof))
            &&& stream_position(position, v.announced(eof), v.body) == w.body.len() + data.len()
            &&& stream_chunk(position, v.announced(eof), v.body) == (w.body + data).skip(
                position as int,
            )
            &&& v.announced(eof) == usize::MAX <==> eof
            &&& stream_read(v.body.len(), v.announced(eof), v.body) == if eof {
                ReadView::End
            } else {
                ReadView::Wait
            }
        }),
{
    let v = w.wrote(data);
    law_read_gives_all_that_is_announced(position, v.announced(eof), v.body);
    law_read_gives_all_that_is_announced(v.body.len(), v.announced(eof), v.body);
    assert((w.body + data).skip(position as int) =~= (w.body + data).subrange(
        position as int,
        (w.body.len() + data.len()) as int,
    ));
    if position == v.body.len() {
        assert((w.body + data).skip(position as int) =~= Seq::<u8>::empty());
    }
}

/// A write is taken as a whole exactly when the body then is no longer than
/// `max_object_bytes`; else it changes nothing, and the answer tells the limit.
pub proof fn law_write_is_taken_or_refused(w: WriterView, data: Seq<u8>)
    requires
        w.body.len() + data.len() <= usize::MAX,
    ensures
        w.refuses(data.len()) <==> w.max_object_bytes is Some && w.body.len() + data.len()
            > w.max_object_bytes->0,
        w.max_object_bytes is None || w.body.len() + data.len() <= w.max_object_bytes->0
            ==> w.wrote(data) == (WriterView { body: w.body + data, ..w }),
        w.max_object_bytes is Some && w.body.len() + data.len() > w.max_object_bytes->0
            ==> w.wrote(data) == w,
        forall|eof: bool|
            (#[trigger] w.write_answer(data.len(), eof)) is Ok <==> w.max_object_bytes is None
                || w.body.len() + data.len() <= w.max_object_bytes->0,
        forall|eof: bool|
            (#[trigger] w.write_answer(data.len(), eof)) matches Err(e) ==> e
                == (StoreError::ObjectTooLarge {
                limit: w.max_object_bytes->0,
                on_finish: false,
            }),
{
}

/// The bytes of `body` from `start` to `end`, or to its end where that comes first
/// or no end is given.
pub open spec fn asked_for(body: Seq<u8>, start: int, end: Option<usize>) -> Seq<u8> {
    let stop = if end is Some {
        least(end->0 as int, body.len() as int)
    } else {
        body.len() as int
    };
    if start < stop {
        body.subrange(start, stop)
    } else {
        Seq::empty()
    }
}

/// A body on disk is served in ranges: after a seek, a reader that is read to the
/// end gives exactly the bytes of the file that were asked for, whatever it did
/// before and in whatever pieces they come.
pub proof fn law_disk_seek_selects_range(
    r: DiskReader,
    file: Seq<u8>,
    start: usize,
    end: Option<usize>,
    sizes: Seq<nat>,
)
    requires
        file.len() <= u64::MAX,
        honest_reads(r.seeked(start, end), file, sizes),
        sizes.len() > 0,
        sizes.last() == 0,
    ensures
        delivered(r.seeked(start, end), file, sizes) == asked_for(file, start as int, end),
{
    law_disk_reader_reads_range(r.seeked(start, end), file, sizes);
}

/// A body in memory is served in ranges: after a seek, a reader gives exactly the
/// bytes that were asked for, whatever it did before, and then nothing more. A
/// seek past the end is refused and changes nothing.
pub proof fn law_memory_seek_selects_range(r: CompleteReader, start: usize, end: Option<usize>)
    ensures
        start < r.body.len() ==> {
            let t = r.seeked(start, end);
            &&& t.remaining() == asked_for(r.body, start as int, end)
            &&& t.drained().remaining() == Seq::<u8>::empty()
            &&& t.body == r.body
            &&& t.drained().body == r.body
        },
        start >= r.body.len() ==> r.seeked(start, end) == r,
        r.seek_refusal(start) is None <==> start < r.body.len(),
        r.seek_refusal(start) matches Some(e) ==> e == (StoreError::SeekOutOfRange {
            start,
            len: r.body.len() as usize,
        }),
{
    if start < r.body.len() {
        law_seek_selects_range(r, start, end);
        assert(r.body.skip(start as int) =~= r.body.subrange(start as int, r.body.len() as int));
        if end is Some && end->0 == start {
            assert(r.body.subrange(start as int, start as int) =~= Seq::<u8>::empty());
        }
    }
}

/// A reader of a body in memory gives all of it at once, and then nothing. A body
/// without bytes has nothing to give.
pub proof fn law_memory_reader_gives_all_once(body: Seq<u8>)
    ensures
        CompleteReader::of(body).remaining() == body,
        CompleteReader::of(body).drained().remaining() == Seq::<u8>::empty(),
        CompleteReader::of(body).body == body,
        body.len() > 0 ==> CompleteReader::of(body).next_chunk() == Some(body),
        body.len() == 0 ==> CompleteReader::of(body).next_chunk() is None,
        CompleteReader::of(body).drained().next_chunk() is None,
{
    assert(CompleteReader::of(body).remaining() =~= body);
}

/// A read gives what was asked for, all at once, and the next one nothing.
pub proof fn law_memory_read_after_seek(r: CompleteReader, start: usize, end: Option<usize>)
    requires
        start < r.body.len(),
    ensures
        ({
            let t = r.seeked(start, end);
            &&& asked_for(r.body, start as int, end).len() > 0 ==> t.next_chunk() == Some(
                asked_for(r.body, start as int, end),
            )
            &&& asked_for(r.body, start as int, end).len() == 0 ==> t.next_chunk() is None
            &&& t.drained().next_chunk() is None
        }),
{
    law_memory_seek_selects_range(r, start, end);
}

/// An object weighs as much as its body has bytes, whatever is read of it.
pub proof fn law_weight_is_size_of_body(body: Seq<u8>, start: usize, end: Option<usize>)
    ensures
        CompleteReader::of(body).weight() == body.len(),
        CompleteReader::of(body).seeked(start, end).weight() == body.len(),
        CompleteReader::of(body).drained().weight() == body.len(),
        CompleteReader::of(body).seeked(start, end).drained().weight() == body.len(),
{
}

/// It makes no difference to a reader whether a body is in memory or on disk.
pub proof fn law_disk_serves_what_memory_does(
    body: Seq<u8>,
    start: usize,
    end: Option<usize>,
    sizes: Seq<nat>,
)
    requires
        start < body.len() <= u64::MAX,
        honest_reads(DiskReader::whole().seeked(start, end), body, sizes),
        sizes.len() > 0,
        sizes.last() == 0,
    ensures
        delivered(DiskReader::whole().seeked(start, end), body, sizes) == CompleteReader::of(
            body,
        ).seeked(start, end).remaining(),
{
    law_disk_seek_selects_range(DiskReader::whole(), body, start, end, sizes);
    law_memory_seek_selects_range(CompleteReader::of(body), start, end);
}

/// Without a seek, a reader of a file that is read to the end gives all of it.
pub proof fn law_disk_reader_gives_all(file: Seq<u8>, sizes: Seq<nat>)
    requires
        file.len() <= u64::MAX,
        honest_reads(DiskReader::whole(), file, sizes),
        sizes.len() > 0,
        sizes.last() == 0,
    ensures
        delivered(DiskReader::whole(), file, sizes) == file,
{
    law_disk_reader_reads_range(DiskReader::whole(), file, sizes);
    assert(file.subrange(0, file.len() as int) =~= file);
    if file.len() == 0 {
        assert(file =~= Seq::<u8>::empty());
    }
}

/// A file is read in pieces of 64 KiB: a read asks for as much, or for the rest of
/// the range where that is less, and never for anything past it. A read moves the
/// reader by what it gave, and leaves the end of the range where it is.
pub proof fn law_pieces_of_a_file(r: DiskReader, start: usize, end: Option<usize>, n: nat)
    requires
        r.position + n <= u64::MAX,
    ensures
        r.seeked(start, None).next_len() == 65536,
        end is Some && start <= end->0 ==> r.seeked(start, end).next_len() == least(
            65536,
            end->0 - start,
        ),
        end is Some && start > end->0 ==> r.seeked(start, end).next_len() == 0,
        DiskReader::whole().next_len() == 65536,
        DiskReader::whole().position == 0,
        DiskReader::whole().wanted() == Some((0u64, 65536nat)),
        end is None || start < end->0 ==> {
            &&& r.seeked(start, end).wanted() matches Some((offset, len))
            &&& offset == start
            &&& len == r.seeked(start, end).next_len()
            &&& len > 0
        },
        end is Some && start >= end->0 ==> r.seeked(start, end).wanted() is None,
        r.advanced(n).wanted() matches Some((offset, _)) ==> offset == r.position + n,
        r.seeked(start, end).position == start,
        r.advanced(n).position == r.position + n,
        r.advanced(n).end == r.end,
{
}

/// Reading a file comes to its end: as long as something of the range is left in
/// the file, the next read asks for at least one byte.
pub proof fn law_disk_reader_makes_progress(
    r: DiskReader,
    file: Seq<u8>,
    start: usize,
    end: Option<usize>,
    sizes: Seq<nat>,
)
    requires
        file.len() <= u64::MAX,
        honest_reads(r.seeked(start, end), file, sizes),
        delivered(r.seeked(start, end), file, sizes) != asked_for(file, start as int, end),
    ensures
        advanced_by(r.seeked(start, end), sizes).next_len() > 0,
        advanced_by(r.seeked(start, end), sizes).position < file.len(),
{
    law_disk_reader_reads_range(r.seeked(start, end), file, sizes);
}

/// What a read of a file brought is handed on as it is: when the bytes that the
/// reader asked for have come from the file, the reader gives just these, and goes on
/// behind them. When nothing came, it gives nothing and stays.
pub proof fn law_reader_hands_on_what_was_read(
    r: DiskReader,
    file: Seq<u8>,
    buf: Seq<u8>,
    n: nat,
)
    requires
        r.wanted() is Some,
        n <= buf.len(),
        r.position + n <= file.len() <= u64::MAX,
        buf.take(n as int) == file.subrange(r.position as int, r.position + n),
    ensures
        n > 0 ==> {
            &&& handed_on(buf, n) == Some(file.subrange(r.position as int, r.position + n))
            &&& r.advanced(n).position == r.position + n
        },
        n == 0 ==> handed_on(buf, n) is None && r.advanced(n) == r,
{
}

} // verus!
