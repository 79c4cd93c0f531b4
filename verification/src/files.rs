//! What the steps of a plan do to the files on disk.

use crate::disk::{
    atomic_steps, close_step, create_step, in_place_steps, meta_steps, part_file, part_name,
    persist_steps, remove_steps, write_step, EntryPart, OpView, RunView, StepView,
};
use crate::error::StoreError;
use crate::layout::{tmp_sibling, TMP_SUFFIX};
use crate::record::ObjectView;
use vstd::prelude::*;

verus! {

/// The files on disk, by path.
pub type Files = Map<Seq<Seq<char>>, Seq<u8>>;

/// What the file for `part` of `object` holds.
pub open spec fn part_content(object: ObjectView, part: EntryPart) -> Seq<u8> {
    match part {
        EntryPart::Body => object.body,
        EntryPart::MetaInternal => object.meta.internal,
        EntryPart::MetaHeader => object.meta.header,
    }
}

/// `path` lies somewhere below the directory `dir`.
pub open spec fn under(dir: Seq<Seq<char>>, path: Seq<Seq<char>>) -> bool {
    path.len() > dir.len() && path.take(dir.len() as int) == dir
}

/// The path below `to` that stands for `path` below `from`.
pub open spec fn moved(path: Seq<Seq<char>>, from: Seq<Seq<char>>, to: Seq<Seq<char>>) -> Seq<
    Seq<char>,
> {
    to + path.skip(from.len() as int)
}

/// The files after one operation on behalf of `object`.
pub open spec fn apply(files: Files, op: OpView, object: ObjectView) -> Files {
    match op {
        OpView::CreateDirAll { .. } | OpView::Flush { .. } | OpView::SyncAll { .. }
        | OpView::SyncDir { .. } => files,
        OpView::RemoveDirAll { dir } => files.remove_keys(
            Set::new(|p: Seq<Seq<char>>| under(dir, p)),
        ),
        OpView::RemoveFile { path } => files.remove(path),
        OpView::CreateFile { path } => files.insert(path, Seq::empty()),
        OpView::WriteAll { path, part } => files.insert(
            path,
            files[path] + part_content(object, part),
        ),
        OpView::WriteFile { path, part } => files.insert(path, part_content(object, part)),
        OpView::Rename { from, to } => Map::new(
            |p: Seq<Seq<char>>|
                if under(to, p) {
                    files.contains_key(moved(p, to, from))
                } else {
                    files.contains_key(p) && !under(from, p)
                },
            |p: Seq<Seq<char>>|
                if under(to, p) {
                    files[moved(p, to, from)]
                } else {
                    files[p]
                },
        ),
    }
}

/// The files after all of `steps`, in order, when every one of them succeeds.
pub open spec fn run(files: Files, steps: Seq<StepView>, object: ObjectView) -> Files
    decreases steps.len(),
{
    if steps.len() == 0 {
        files
    } else {
        apply(run(files, steps.drop_last(), object), steps.last().op, object)
    }
}

/// `path` may be changed by `op`, whether it succeeds, fails or is cut short.
pub open spec fn touches(op: OpView, path: Seq<Seq<char>>) -> bool {
    match op {
        OpView::CreateDirAll { .. } | OpView::Flush { .. } | OpView::SyncAll { .. }
        | OpView::SyncDir { .. } => false,
        OpView::RemoveDirAll { dir } => under(dir, path),
        OpView::RemoveFile { path: p } => path == p,
        OpView::CreateFile { path: p } => path == p,
        OpView::WriteAll { path: p, .. } => path == p,
        OpView::WriteFile { path: p, .. } => path == p,
        OpView::Rename { from, to } => under(from, path) || under(to, path),
    }
}

/// The files for `object` are in `dir`, complete.
pub open spec fn holds_entry(files: Files, dir: Seq<Seq<char>>, object: ObjectView) -> bool {
    forall|part: EntryPart| #[trigger]
        files.contains_key(part_file(dir, part)) && files[part_file(dir, part)] == part_content(
            object,
            part,
        )
}

/// `path` is the file of some part of the entry in `dir`.
pub open spec fn is_part(dir: Seq<Seq<char>>, path: Seq<Seq<char>>) -> bool {
    exists|part: EntryPart| path == #[trigger] part_file(dir, part)
}

/// Nothing lies below `dir`.
pub open spec fn vacant(files: Files, dir: Seq<Seq<char>>) -> bool {
    forall|p: Seq<Seq<char>>| #[trigger] under(dir, p) ==> !files.contains_key(p)
}

/// The files at `path` are alike.
pub open spec fn alike(a: Files, b: Files, path: Seq<Seq<char>>) -> bool {
    &&& a.contains_key(path) <==> b.contains_key(path)
    &&& a.contains_key(path) ==> a[path] == b[path]
}

/// One more step.
proof fn lemma_run_next(files: Files, steps: Seq<StepView>, object: ObjectView, k: int)
    requires
        0 <= k < steps.len(),
    ensures
        run(files, steps.take(k + 1), object) == apply(
            run(files, steps.take(k), object),
            steps[k].op,
            object,
        ),
{
    assert(steps.take(k + 1).drop_last() =~= steps.take(k));
}

/// A path that no step touches stays as it is.
proof fn lemma_untouched(
    files: Files,
    steps: Seq<StepView>,
    object: ObjectView,
    path: Seq<Seq<char>>,
)
    requires
        forall|i: int| 0 <= i < steps.len() ==> !touches((#[trigger] steps[i]).op, path),
    ensures
        alike(run(files, steps, object), files, path),
    decreases steps.len(),
{
    if steps.len() > 0 {
        let before = steps.drop_last();
        assert forall|i: int| 0 <= i < before.len() implies !touches(
            (#[trigger] before[i]).op,
            path,
        ) by {
            assert(before[i] == steps[i]);
        }
        lemma_untouched(files, before, object, path);
        assert(!touches(steps[steps.len() - 1].op, path));
    }
}

/// The three names differ.
pub proof fn lemma_part_names()
    ensures
        forall|a: EntryPart, b: EntryPart| a != b ==> #[trigger] part_name(a) != #[trigger] part_name(
            b,
        ),
{
    reveal_strlit("body.bin");
    reveal_strlit("meta_internal.bin");
    reveal_strlit("meta_header.bin");
    assert(part_name(EntryPart::Body).len() == 8);
    assert(part_name(EntryPart::MetaInternal).len() == 17);
    assert(part_name(EntryPart::MetaHeader).len() == 15);
}

/// The files of an entry are different, and lie below its directory.
proof fn lemma_part_files(dir: Seq<Seq<char>>)
    ensures
        forall|a: EntryPart, b: EntryPart|
            a != b ==> #[trigger] part_file(dir, a) != #[trigger] part_file(dir, b),
        forall|a: EntryPart| #[trigger] under(dir, part_file(dir, a)),
{
    lemma_part_names();
    assert forall|a: EntryPart, b: EntryPart| a != b implies #[trigger] part_file(dir, a)
        != #[trigger] part_file(dir, b) by {
        assert(part_file(dir, a).last() == part_name(a));
        assert(part_file(dir, b).last() == part_name(b));
    }
    assert forall|a: EntryPart| #[trigger] under(dir, part_file(dir, a)) by {
        assert(part_file(dir, a).take(dir.len() as int) =~= dir);
    }
}

/// A directory and the one next to it in which it is prepared have nothing in
/// common.
proof fn lemma_tmp_apart(dir: Seq<Seq<char>>)
    requires
        dir.len() > 0,
    ensures
        tmp_sibling(dir).len() == dir.len(),
        forall|p: Seq<Seq<char>>| !(#[trigger] under(dir, p) && under(tmp_sibling(dir), p)),
{
    reveal_strlit(".tmp");
    assert(TMP_SUFFIX@.len() == 4);
    assert(tmp_sibling(dir).last().len() == dir.last().len() + 4);
    assert(tmp_sibling(dir) != dir);
}

/// Making, filling and closing a file leaves it with its part.
proof fn lemma_fill(
    files: Files,
    steps: Seq<StepView>,
    object: ObjectView,
    k: int,
    dir: Seq<Seq<char>>,
    part: EntryPart,
    tmp: bool,
)
    requires
        0 <= k,
        k + 3 <= steps.len(),
        steps[k] == create_step(dir, part, tmp),
        steps[k + 1] == write_step(dir, part, tmp),
        steps[k + 2] == close_step(dir, part, tmp),
    ensures
        run(files, steps.take(k + 3), object) == run(files, steps.take(k), object).insert(
            part_file(dir, part),
            part_content(object, part),
        ),
{
    lemma_run_next(files, steps, object, k);
    lemma_run_next(files, steps, object, k + 1);
    lemma_run_next(files, steps, object, k + 2);
    let path = part_file(dir, part);
    let start = run(files, steps.take(k), object);
    assert(Seq::<u8>::empty() + part_content(object, part) =~= part_content(object, part));
    assert(run(files, steps.take(k + 3), object) =~= start.insert(
        path,
        part_content(object, part),
    ));
}

/// `files` with the three parts of `object` in `dir`.
pub open spec fn with_parts(files: Files, dir: Seq<Seq<char>>, object: ObjectView) -> Files {
    files.insert(part_file(dir, EntryPart::Body), object.body).insert(
        part_file(dir, EntryPart::MetaInternal),
        object.meta.internal,
    ).insert(part_file(dir, EntryPart::MetaHeader), object.meta.header)
}

/// Writing an entry in place sets its three files and changes nothing else.
pub proof fn law_in_place_persist(files: Files, dir: Seq<Seq<char>>, object: ObjectView)
    ensures
        run(files, in_place_steps(dir), object) == with_parts(files, dir, object),
        holds_entry(run(files, in_place_steps(dir), object), dir, object),
{
    let steps = in_place_steps(dir);
    assert(steps.take(0) =~= Seq::<StepView>::empty());
    lemma_run_next(files, steps, object, 0);
    lemma_fill(files, steps, object, 1, dir, EntryPart::Body, false);
    lemma_fill(files, steps, object, 4, dir, EntryPart::MetaInternal, false);
    lemma_fill(files, steps, object, 7, dir, EntryPart::MetaHeader, false);
    assert(steps.take(10) =~= steps);
    lemma_part_files(dir);
    lemma_with_parts(files, dir, object);
}

/// The three parts are where they were put.
proof fn lemma_with_parts(files: Files, dir: Seq<Seq<char>>, object: ObjectView)
    ensures
        holds_entry(with_parts(files, dir, object), dir, object),
{
    lemma_part_files(dir);
    let all = with_parts(files, dir, object);
    assert forall|part: EntryPart| #[trigger]
        all.contains_key(part_file(dir, part)) && all[part_file(dir, part)] == part_content(
            object,
            part,
        ) by {
        match part {
            EntryPart::Body => {},
            EntryPart::MetaInternal => {},
            EntryPart::MetaHeader => {},
        }
    }
}

/// What atomic publishing has done when the new entry is ready to be renamed.
proof fn lemma_atomic_prepared(files: Files, dir: Seq<Seq<char>>, object: ObjectView)
    requires
        dir.len() > 0,
    ensures
        run(files, atomic_steps(dir).take(13), object) == with_parts(
            apply(files, OpView::RemoveDirAll { dir: tmp_sibling(dir) }, object),
            tmp_sibling(dir),
            object,
        ),
{
    let steps = atomic_steps(dir);
    let tmp = tmp_sibling(dir);
    assert(steps.take(0) =~= Seq::<StepView>::empty());
    lemma_run_next(files, steps, object, 0);
    lemma_run_next(files, steps, object, 1);
    lemma_run_next(files, steps, object, 2);
    lemma_fill(files, steps, object, 3, tmp, EntryPart::Body, true);
    lemma_fill(files, steps, object, 6, tmp, EntryPart::MetaInternal, true);
    lemma_fill(files, steps, object, 9, tmp, EntryPart::MetaHeader, true);
    lemma_run_next(files, steps, object, 12);
}

/// Publishing atomically leaves in `dir` the three files of the object and no
/// others, leaves nothing in the temporary directory, and changes nothing else.
pub proof fn law_atomic_publish(files: Files, dir: Seq<Seq<char>>, object: ObjectView)
    requires
        dir.len() > 0,
    ensures
        ({
            let after = run(files, atomic_steps(dir), object);
            &&& holds_entry(after, dir, object)
            &&& vacant(after, tmp_sibling(dir))
            &&& forall|p: Seq<Seq<char>>| #[trigger]
                after.contains_key(p) && under(dir, p) ==> is_part(dir, p)
            &&& forall|p: Seq<Seq<char>>|
                !under(dir, p) && !under(tmp_sibling(dir), p) ==> #[trigger] alike(after, files, p)
        }),
{
    let steps = atomic_steps(dir);
    let tmp = tmp_sibling(dir);
    let after = run(files, steps, object);
    lemma_tmp_apart(dir);
    lemma_part_files(dir);
    lemma_part_files(tmp);
    lemma_atomic_prepared(files, dir, object);
    lemma_run_next(files, steps, object, 13);
    lemma_run_next(files, steps, object, 14);
    assert(steps.take(15) =~= steps);
    let clean = apply(files, OpView::RemoveDirAll { dir: tmp }, object);
    let prepared = with_parts(clean, tmp, object);
    lemma_with_parts(clean, tmp, object);
    let emptied = apply(prepared, OpView::RemoveDirAll { dir }, object);
    assert forall|part: EntryPart| #[trigger]
        after.contains_key(part_file(dir, part)) && after[part_file(dir, part)] == part_content(
            object,
            part,
        ) by {
        assert(moved(part_file(dir, part), dir, tmp) =~= part_file(tmp, part));
        assert(under(tmp, part_file(tmp, part)));
        assert(prepared.contains_key(part_file(tmp, part)));
        assert(!under(dir, part_file(tmp, part)));
        assert(under(dir, part_file(dir, part)));
    }
    assert forall|p: Seq<Seq<char>>| #[trigger] after.contains_key(p) && under(dir, p) implies is_part(
        dir,
        p,
    ) by {
        let q = moved(p, dir, tmp);
        assert(emptied.contains_key(q));
        assert(q.take(tmp.len() as int) =~= tmp);
        assert(under(tmp, q));
        assert(!clean.contains_key(q));
        let part = if q == part_file(tmp, EntryPart::Body) {
            EntryPart::Body
        } else if q == part_file(tmp, EntryPart::MetaInternal) {
            EntryPart::MetaInternal
        } else {
            EntryPart::MetaHeader
        };
        assert(q == part_file(tmp, part));
        assert(p =~= dir + q.skip(tmp.len() as int));
        assert(p =~= part_file(dir, part));
    }
    assert forall|p: Seq<Seq<char>>|
        !under(dir, p) && !under(tmp_sibling(dir), p) implies #[trigger] alike(after, files, p) by {
        assert(!is_part(tmp, p)) by {
            if is_part(tmp, p) {
                let part = choose|part: EntryPart| p == part_file(tmp, part);
                assert(under(tmp, part_file(tmp, part)));
            }
        }
        assert(p != part_file(tmp, EntryPart::Body));
        assert(p != part_file(tmp, EntryPart::MetaInternal));
        assert(p != part_file(tmp, EntryPart::MetaHeader));
    }
}

/// Until the old entry is removed, atomic publishing touches nothing in the
/// directory of the entry, not even with a step that fails half way.
pub proof fn law_prepared_apart(dir: Seq<Seq<char>>, i: int, path: Seq<Seq<char>>)
    requires
        dir.len() > 0,
        0 <= i < 13,
        under(dir, path),
    ensures
        !touches(atomic_steps(dir)[i].op, path),
{
    lemma_tmp_apart(dir);
    lemma_part_files(tmp_sibling(dir));
    let steps = atomic_steps(dir);
    assert(under(tmp_sibling(dir), part_file(tmp_sibling(dir), EntryPart::Body)));
    assert(under(tmp_sibling(dir), part_file(tmp_sibling(dir), EntryPart::MetaInternal)));
    assert(under(tmp_sibling(dir), part_file(tmp_sibling(dir), EntryPart::MetaHeader)));
}

/// However an entry is written, its three files are there afterwards, and files
/// outside its directory and the temporary one are as before.
pub proof fn law_persist_writes_entry(
    files: Files,
    dir: Seq<Seq<char>>,
    object: ObjectView,
    atomic: bool,
)
    requires
        dir.len() > 0,
    ensures
        ({
            let after = run(files, persist_steps(dir, atomic), object);
            &&& holds_entry(after, dir, object)
            &&& forall|p: Seq<Seq<char>>|
                !under(dir, p) && !under(tmp_sibling(dir), p) ==> #[trigger] alike(after, files, p)
        }),
{
    if atomic {
        law_atomic_publish(files, dir, object);
    } else {
        law_in_place_persist(files, dir, object);
        lemma_part_files(dir);
        assert(under(dir, part_file(dir, EntryPart::Body)));
        assert(under(dir, part_file(dir, EntryPart::MetaInternal)));
        assert(under(dir, part_file(dir, EntryPart::MetaHeader)));
    }
}

/// Removing an entry leaves nothing in its directory, and changes nothing else.
pub proof fn law_remove_entry(files: Files, dir: Seq<Seq<char>>, object: ObjectView)
    ensures
        ({
            let after = run(files, remove_steps(dir), object);
            &&& vacant(after, dir)
            &&& forall|p: Seq<Seq<char>>| !under(dir, p) ==> #[trigger] alike(after, files, p)
        }),
{
    let steps = remove_steps(dir);
    lemma_part_files(dir);
    assert(under(dir, part_file(dir, EntryPart::Body)));
    assert(under(dir, part_file(dir, EntryPart::MetaInternal)));
    assert(under(dir, part_file(dir, EntryPart::MetaHeader)));
    assert(steps.take(0) =~= Seq::<StepView>::empty());
    lemma_run_next(files, steps, object, 0);
    lemma_run_next(files, steps, object, 1);
    lemma_run_next(files, steps, object, 2);
    lemma_run_next(files, steps, object, 3);
    assert(steps.take(4) =~= steps);
}

/// Replacing the metadata of an entry sets its two metadata files, and leaves
/// the body and everything else alone. Where there was a body, the entry is
/// then complete, with the new metadata.
pub proof fn law_replace_meta(files: Files, dir: Seq<Seq<char>>, object: ObjectView)
    ensures
        run(files, meta_steps(dir), object) == files.insert(
            part_file(dir, EntryPart::MetaInternal),
            object.meta.internal,
        ).insert(part_file(dir, EntryPart::MetaHeader), object.meta.header),
        alike(run(files, meta_steps(dir), object), files, part_file(dir, EntryPart::Body)),
        files.contains_key(part_file(dir, EntryPart::Body)) && files[part_file(
            dir,
            EntryPart::Body,
        )] == object.body ==> holds_entry(run(files, meta_steps(dir), object), dir, object),
{
    let steps = meta_steps(dir);
    lemma_part_files(dir);
    assert(steps.take(0) =~= Seq::<StepView>::empty());
    lemma_run_next(files, steps, object, 0);
    lemma_run_next(files, steps, object, 1);
    lemma_run_next(files, steps, object, 2);
    assert(steps.take(3) =~= steps);
    let after = run(files, steps, object);
    let body = part_file(dir, EntryPart::Body);
    if files.contains_key(body) && files[body] == object.body {
        assert forall|part: EntryPart| #[trigger]
            after.contains_key(part_file(dir, part)) && after[part_file(dir, part)] == part_content(
                object,
                part,
            ) by {
            match part {
                EntryPart::Body => {},
                EntryPart::MetaInternal => {},
                EntryPart::MetaHeader => {},
            }
        }
    }
}

/// `after` is what one operation can make of `files`. When it succeeds, its
/// effect is complete, and a directory is only ever moved to a free name. When
/// it fails, it may have done anything to what it touches; but a removal that
/// fails has only removed, a move that fails has moved nothing, and a file that
/// was to be replaced is still there.
pub open spec fn effect(
    files: Files,
    op: OpView,
    object: ObjectView,
    ok: bool,
    after: Files,
) -> bool {
    if ok {
        &&& after == apply(files, op, object)
        &&& op matches OpView::Rename { to, .. } ==> vacant(files, to)
    } else {
        &&& forall|p: Seq<Seq<char>>| !touches(op, p) ==> #[trigger] alike(after, files, p)
        &&& op is RemoveDirAll ==> forall|p: Seq<Seq<char>>| #[trigger]
            after.contains_key(p) ==> alike(after, files, p)
        &&& op is Rename ==> after == files
        &&& op matches OpView::WriteFile { path, .. } ==> files.contains_key(path)
            ==> after.contains_key(path)
    }
}

/// Step `i` can have changed the files as `course` has it.
pub open spec fn taken(
    steps: Seq<StepView>,
    object: ObjectView,
    oks: Seq<bool>,
    course: Seq<Files>,
    i: int,
) -> bool {
    effect(course[i], steps[i].op, object, oks[i], course[i + 1])
}

/// `course` is how the files can change while `steps` are taken with the
/// outcomes `oks`. The plan stops at the first failure that matters.
pub open spec fn carried_out(
    steps: Seq<StepView>,
    object: ObjectView,
    oks: Seq<bool>,
    course: Seq<Files>,
) -> bool {
    &&& oks.len() <= steps.len()
    &&& course.len() == oks.len() + 1
    &&& forall|i: int| 0 <= i < oks.len() ==> #[trigger] taken(steps, object, oks, course, i)
    &&& forall|i: int|
        0 <= i < oks.len() - 1 ==> (#[trigger] steps[i]).outcome(oks[i]) is Ok
}

/// All of `steps` were taken, and none failed that matters.
pub open spec fn succeeded(steps: Seq<StepView>, oks: Seq<bool>) -> bool {
    &&& oks.len() == steps.len()
    &&& forall|i: int| 0 <= i < oks.len() ==> (#[trigger] steps[i]).outcome(oks[i]) is Ok
}

/// A plan reports success exactly when all its steps were taken and none failed
/// that matters.
pub proof fn law_plan_result(steps: Seq<StepView>, oks: Seq<bool>)
    requires
        oks.len() <= steps.len(),
        forall|i: int| 0 <= i < oks.len() - 1 ==> (#[trigger] steps[i]).outcome(oks[i]) is Ok,
    ensures
        RunView::start(steps).all_reported(oks).at == oks.len(),
        RunView::start(steps).all_reported(oks).steps == steps,
        RunView::start(steps).all_reported(oks).result() == Some(Ok::<(), StoreError>(()))
            <==> succeeded(steps, oks),
    decreases oks.len(),
{
    if oks.len() > 0 {
        let front = oks.drop_last();
        law_plan_result(steps, front);
        let n = oks.len() - 1;
        assert forall|i: int| 0 <= i < front.len() implies (#[trigger] steps[i]).outcome(
            front[i],
        ) is Ok by {
            assert(steps[i].outcome(oks[i]) is Ok);
        }
        if steps[n].outcome(oks[n]) is Ok {
            assert forall|i: int| 0 <= i < oks.len() implies (#[trigger] steps[i]).outcome(
                oks[i],
            ) is Ok by {}
        }
    }
}

/// A path that none of the first `k` steps touches is as it was.
proof fn lemma_course_untouched(
    steps: Seq<StepView>,
    object: ObjectView,
    oks: Seq<bool>,
    course: Seq<Files>,
    path: Seq<Seq<char>>,
    k: int,
)
    requires
        carried_out(steps, object, oks, course),
        0 <= k <= oks.len(),
        forall|i: int| 0 <= i < k ==> !touches((#[trigger] steps[i]).op, path),
    ensures
        alike(course[k], course[0], path),
    decreases k,
{
    if k > 0 {
        lemma_course_untouched(steps, object, oks, course, path, k - 1);
        assert(taken(steps, object, oks, course, k - 1));
        assert(!touches(steps[k - 1].op, path));
        if !oks[k - 1] {
            assert(alike(course[k], course[k - 1], path));
        }
    }
}

/// Making, filling and closing a file, with success, leaves it with its part and
/// the other files as they were.
proof fn lemma_course_fill(
    steps: Seq<StepView>,
    object: ObjectView,
    oks: Seq<bool>,
    course: Seq<Files>,
    k: int,
    dir: Seq<Seq<char>>,
    part: EntryPart,
    tmp: bool,
)
    requires
        carried_out(steps, object, oks, course),
        succeeded(steps, oks),
        0 <= k,
        k + 3 <= steps.len(),
        steps[k] == create_step(dir, part, tmp),
        steps[k + 1] == write_step(dir, part, tmp),
        steps[k + 2] == close_step(dir, part, tmp),
    ensures
        course[k + 3] == course[k].insert(part_file(dir, part), part_content(object, part)),
{
    assert(taken(steps, object, oks, course, k));
    assert(taken(steps, object, oks, course, k + 1));
    assert(taken(steps, object, oks, course, k + 2));
    assert(steps[k].outcome(oks[k]) is Ok);
    assert(steps[k + 1].outcome(oks[k + 1]) is Ok);
    assert(steps[k + 2].outcome(oks[k + 2]) is Ok);
    assert(Seq::<u8>::empty() + part_content(object, part) =~= part_content(object, part));
    assert(course[k + 3] =~= course[k].insert(part_file(dir, part), part_content(object, part)));
}

/// When writing an entry is reported as a success, the entry is there, whatever
/// became of the steps that are only tried. Whether it succeeds or not, nothing
/// outside the directory of the entry and the temporary one has changed.
pub proof fn law_reported_persist_is_there(
    dir: Seq<Seq<char>>,
    object: ObjectView,
    atomic: bool,
    oks: Seq<bool>,
    course: Seq<Files>,
)
    requires
        dir.len() > 0,
        carried_out(persist_steps(dir, atomic), object, oks, course),
    ensures
        succeeded(persist_steps(dir, atomic), oks) ==> holds_entry(course.last(), dir, object),
        forall|p: Seq<Seq<char>>|
            !under(dir, p) && !under(tmp_sibling(dir), p) ==> #[trigger] alike(
                course.last(),
                course[0],
                p,
            ),
{
    let steps = persist_steps(dir, atomic);
    let tmp = tmp_sibling(dir);
    lemma_part_files(dir);
    lemma_part_files(tmp);
    assert forall|p: Seq<Seq<char>>| !under(dir, p) && !under(tmp, p) implies #[trigger] alike(
        course.last(),
        course[0],
        p,
    ) by {
        assert forall|i: int| 0 <= i < oks.len() implies !touches((#[trigger] steps[i]).op, p) by {
            assert(under(dir, part_file(dir, EntryPart::Body)));
            assert(under(dir, part_file(dir, EntryPart::MetaInternal)));
            assert(under(dir, part_file(dir, EntryPart::MetaHeader)));
            assert(under(tmp, part_file(tmp, EntryPart::Body)));
            assert(under(tmp, part_file(tmp, EntryPart::MetaInternal)));
            assert(under(tmp, part_file(tmp, EntryPart::MetaHeader)));
        }
        lemma_course_untouched(steps, object, oks, course, p, oks.len() as int);
    }
    if succeeded(steps, oks) {
        if atomic {
            lemma_course_atomic(dir, object, oks, course);
        } else {
            lemma_course_fill(steps, object, oks, course, 1, dir, EntryPart::Body, false);
            lemma_course_fill(steps, object, oks, course, 4, dir, EntryPart::MetaInternal, false);
            lemma_course_fill(steps, object, oks, course, 7, dir, EntryPart::MetaHeader, false);
            lemma_with_parts(course[1], dir, object);
        }
    }
}

/// The atomic half of [`law_reported_persist_is_there`].
proof fn lemma_course_atomic(
    dir: Seq<Seq<char>>,
    object: ObjectView,
    oks: Seq<bool>,
    course: Seq<Files>,
)
    requires
        dir.len() > 0,
        carried_out(atomic_steps(dir), object, oks, course),
        succeeded(atomic_steps(dir), oks),
    ensures
        holds_entry(course.last(), dir, object),
{
    let steps = atomic_steps(dir);
    let tmp = tmp_sibling(dir);
    lemma_tmp_apart(dir);
    lemma_part_files(dir);
    lemma_part_files(tmp);
    lemma_course_fill(steps, object, oks, course, 3, tmp, EntryPart::Body, true);
    lemma_course_fill(steps, object, oks, course, 6, tmp, EntryPart::MetaInternal, true);
    lemma_course_fill(steps, object, oks, course, 9, tmp, EntryPart::MetaHeader, true);
    lemma_with_parts(course[3], tmp, object);
    assert(taken(steps, object, oks, course, 12));
    assert(taken(steps, object, oks, course, 13));
    assert(taken(steps, object, oks, course, 14));
    assert(steps[14].outcome(oks[14]) is Ok);
    let last = course[15];
    assert forall|part: EntryPart| #[trigger]
        last.contains_key(part_file(dir, part)) && last[part_file(dir, part)] == part_content(
            object,
            part,
        ) by {
        let from = part_file(tmp, part);
        assert(under(tmp, from));
        assert(!under(dir, from));
        assert(course[12].contains_key(from));
        assert(!touches(steps[12].op, from) && !touches(steps[13].op, from));
        assert(alike(course[13], course[12], from));
        assert(alike(course[14], course[13], from));
        assert(moved(part_file(dir, part), dir, tmp) =~= from);
        assert(under(dir, part_file(dir, part)));
    }
}

/// Until the old entry is removed, atomic publishing leaves it alone, whatever
/// succeeds or fails.
pub proof fn law_failed_publish_keeps_old_entry(
    dir: Seq<Seq<char>>,
    object: ObjectView,
    oks: Seq<bool>,
    course: Seq<Files>,
    path: Seq<Seq<char>>,
)
    requires
        dir.len() > 0,
        carried_out(atomic_steps(dir), object, oks, course),
        oks.len() <= 13,
        under(dir, path),
    ensures
        alike(course.last(), course[0], path),
{
    let steps = atomic_steps(dir);
    assert forall|i: int| 0 <= i < oks.len() implies !touches((#[trigger] steps[i]).op, path) by {
        law_prepared_apart(dir, i, path);
    }
    lemma_course_untouched(steps, object, oks, course, path, oks.len() as int);
}

/// All files of an entry are in `dir`.
pub open spec fn all_parts(files: Files, dir: Seq<Seq<char>>) -> bool {
    forall|part: EntryPart| files.contains_key(#[trigger] part_file(dir, part))
}

/// Wherever atomic publishing stops, and whatever failed before that, the
/// directory of the entry holds what it held, or the complete new entry, or
/// lacks a file, so that it is no entry.
pub proof fn law_publish_all_or_nothing(
    dir: Seq<Seq<char>>,
    object: ObjectView,
    oks: Seq<bool>,
    course: Seq<Files>,
)
    requires
        dir.len() > 0,
        carried_out(atomic_steps(dir), object, oks, course),
    ensures
        ({
            ||| !all_parts(course.last(), dir)
            ||| forall|part: EntryPart| #[trigger]
                alike(course.last(), course[0], part_file(dir, part))
            ||| holds_entry(course.last(), dir, object)
        }),
{
    let steps = atomic_steps(dir);
    let old_entry = course[0];
    lemma_part_files(dir);
    if oks.len() <= 13 {
        assert forall|part: EntryPart| #[trigger]
            alike(course.last(), old_entry, part_file(dir, part)) by {
            assert(under(dir, part_file(dir, part)));
            law_failed_publish_keeps_old_entry(dir, object, oks, course, part_file(dir, part));
        }
    } else {
        let ready = course[13];
        let removed = course[14];
        assert forall|part: EntryPart| #[trigger]
            alike(ready, old_entry, part_file(dir, part)) by {
            let path = part_file(dir, part);
            assert(under(dir, path));
            assert forall|i: int| 0 <= i < 13 implies !touches((#[trigger] steps[i]).op, path) by {
                law_prepared_apart(dir, i, path);
            }
            lemma_course_untouched(steps, object, oks, course, path, 13);
        }
        assert(taken(steps, object, oks, course, 13));
        assert(!all_parts(removed, dir) || forall|part: EntryPart| #[trigger]
            alike(removed, old_entry, part_file(dir, part))) by {
            if oks[13] {
                let path = part_file(dir, EntryPart::Body);
                assert(under(dir, path));
                assert(!removed.contains_key(path));
            } else if all_parts(removed, dir) {
                assert forall|part: EntryPart| #[trigger]
                    alike(removed, old_entry, part_file(dir, part)) by {
                    let path = part_file(dir, part);
                    assert(removed.contains_key(path));
                    assert(alike(removed, ready, path));
                    assert(alike(ready, old_entry, path));
                }
            }
        }
        if oks.len() == 15 {
            assert(taken(steps, object, oks, course, 14));
            if oks[14] {
                assert forall|i: int| 0 <= i < oks.len() implies (#[trigger] steps[i]).outcome(
                    oks[i],
                ) is Ok by {}
                assert(succeeded(steps, oks));
                lemma_course_atomic(dir, object, oks, course);
            } else {
                assert(course[15] == removed);
            }
        }
    }
}

/// Whatever fails while an entry is removed, nothing outside its directory has
/// changed; and if the directory could be removed, nothing is left in it.
pub proof fn law_removal_stays_in_entry(
    dir: Seq<Seq<char>>,
    object: ObjectView,
    oks: Seq<bool>,
    course: Seq<Files>,
)
    requires
        carried_out(remove_steps(dir), object, oks, course),
    ensures
        forall|p: Seq<Seq<char>>| !under(dir, p) ==> #[trigger] alike(course.last(), course[0], p),
        oks.len() == 4 && oks[3] ==> vacant(course.last(), dir),
{
    let steps = remove_steps(dir);
    lemma_part_files(dir);
    assert forall|p: Seq<Seq<char>>| !under(dir, p) implies #[trigger] alike(
        course.last(),
        course[0],
        p,
    ) by {
        assert forall|i: int| 0 <= i < oks.len() implies !touches((#[trigger] steps[i]).op, p) by {
            assert(under(dir, part_file(dir, EntryPart::Body)));
            assert(under(dir, part_file(dir, EntryPart::MetaInternal)));
            assert(under(dir, part_file(dir, EntryPart::MetaHeader)));
        }
        lemma_course_untouched(steps, object, oks, course, p, oks.len() as int);
    }
    if oks.len() == 4 && oks[3] {
        assert(taken(steps, object, oks, course, 3));
    }
}

/// Whatever fails while metadata is replaced, only the two metadata files can
/// have changed, and a file that was there is still there.
pub proof fn law_meta_update_stays_in_meta(
    dir: Seq<Seq<char>>,
    object: ObjectView,
    oks: Seq<bool>,
    course: Seq<Files>,
    path: Seq<Seq<char>>,
)
    requires
        carried_out(meta_steps(dir), object, oks, course),
    ensures
        path != part_file(dir, EntryPart::MetaInternal) && path != part_file(
            dir,
            EntryPart::MetaHeader,
        ) ==> alike(course.last(), course[0], path),
        course[0].contains_key(path) ==> course.last().contains_key(path),
{
    let steps = meta_steps(dir);
    if path != part_file(dir, EntryPart::MetaInternal) && path != part_file(
        dir,
        EntryPart::MetaHeader,
    ) {
        assert forall|i: int| 0 <= i < oks.len() implies !touches((#[trigger] steps[i]).op, path) by {}
        lemma_course_untouched(steps, object, oks, course, path, oks.len() as int);
    }
    if oks.len() > 0 {
        assert(taken(steps, object, oks, course, 0));
        if !oks[0] {
            assert(alike(course[1], course[0], path));
        }
    }
    if oks.len() > 1 {
        assert(taken(steps, object, oks, course, 1));
        if !oks[1] && !touches(steps[1].op, path) {
            assert(alike(course[2], course[1], path));
        }
    }
    if oks.len() > 2 {
        assert(taken(steps, object, oks, course, 2));
        if !oks[2] && !touches(steps[2].op, path) {
            assert(alike(course[3], course[2], path));
        }
    }
}

/// Whatever fails while an entry is written in place, nothing outside its directory
/// has changed.
pub proof fn law_in_place_stays_in_dir(
    dir: Seq<Seq<char>>,
    object: ObjectView,
    oks: Seq<bool>,
    course: Seq<Files>,
    path: Seq<Seq<char>>,
)
    requires
        carried_out(in_place_steps(dir), object, oks, course),
        !under(dir, path),
    ensures
        alike(course.last(), course[0], path),
{
    let steps = in_place_steps(dir);
    lemma_part_files(dir);
    assert forall|i: int| 0 <= i < oks.len() implies !touches((#[trigger] steps[i]).op, path) by {
        assert(under(dir, part_file(dir, EntryPart::Body)));
        assert(under(dir, part_file(dir, EntryPart::MetaInternal)));
        assert(under(dir, part_file(dir, EntryPart::MetaHeader)));
    }
    lemma_course_untouched(steps, object, oks, course, path, oks.len() as int);
}

} // verus!
