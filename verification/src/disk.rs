//! What the store does on disk, as lists of steps for an executor: publishing
//! an entry, replacing its metadata, removing it.

use crate::error::{ErrorKind, StoreError};
use crate::layout::{
    plain_name, tmp_sibling, DiskPath, BODY_FILE, META_HEADER_FILE, META_INTERNAL_FILE,
};
use vstd::prelude::*;

verus! {

/// One of the files of an entry.
#[derive(Debug, Clone, Copy, PartialEq, Eq, Structural)]
pub enum EntryPart {
    Body,
    MetaInternal,
    MetaHeader,
}

/// Something to do on disk.
#[derive(Debug, PartialEq, Eq)]
pub enum DiskOp {
    /// Make a directory and those above it, unless they are there.
    CreateDirAll { dir: DiskPath },
    /// Remove a directory with all that it holds.
    RemoveDirAll { dir: DiskPath },
    /// Remove a file.
    RemoveFile { path: DiskPath },
    /// Make a file, or empty the one that is there, and keep it open.
    CreateFile { path: DiskPath },
    /// Append a part of the entry to the open file.
    WriteAll { path: DiskPath, part: EntryPart },
    /// Flush what is buffered for the open file, and close it.
    Flush { path: DiskPath },
    /// Make the open file durable, and close it.
    SyncAll { path: DiskPath },
    /// Replace a file by one that holds a part of the entry.
    WriteFile { path: DiskPath, part: EntryPart },
    /// Make the names in a directory durable.
    SyncDir { dir: DiskPath },
    /// Move a directory, with all that it holds, to a name that is free.
    Rename { from: DiskPath, to: DiskPath },
}

/// A [`DiskOp`], with paths as sequences of names.
pub enum OpView {
    CreateDirAll { dir: Seq<Seq<char>> },
    RemoveDirAll { dir: Seq<Seq<char>> },
    RemoveFile { path: Seq<Seq<char>> },
    CreateFile { path: Seq<Seq<char>> },
    WriteAll { path: Seq<Seq<char>>, part: EntryPart },
    Flush { path: Seq<Seq<char>> },
    SyncAll { path: Seq<Seq<char>> },
    WriteFile { path: Seq<Seq<char>>, part: EntryPart },
    SyncDir { dir: Seq<Seq<char>> },
    Rename { from: Seq<Seq<char>>, to: Seq<Seq<char>> },
}

impl View for DiskOp {
    type V = OpView;

    open spec fn view(&self) -> OpView {
        match self {
            DiskOp::CreateDirAll { dir } => OpView::CreateDirAll { dir: dir@ },
            DiskOp::RemoveDirAll { dir } => OpView::RemoveDirAll { dir: dir@ },
            DiskOp::RemoveFile { path } => OpView::RemoveFile { path: path@ },
            DiskOp::CreateFile { path } => OpView::CreateFile { path: path@ },
            DiskOp::WriteAll { path, part } => OpView::WriteAll { path: path@, part: *part },
            DiskOp::Flush { path } => OpView::Flush { path: path@ },
            DiskOp::SyncAll { path } => OpView::SyncAll { path: path@ },
            DiskOp::WriteFile { path, part } => OpView::WriteFile { path: path@, part: *part },
            DiskOp::SyncDir { dir } => OpView::SyncDir { dir: dir@ },
            DiskOp::Rename { from, to } => OpView::Rename { from: from@, to: to@ },
        }
    }
}

/// What a failed step means for the whole.
#[derive(Debug, Clone, Copy, PartialEq, Eq)]
pub enum OnFailure {
    /// Go on: the step was best effort.
    Ignore,
    /// Stop with this error.
    Fail { kind: ErrorKind, context: &'static str },
}

/// One step of a plan.
#[derive(Debug, PartialEq, Eq)]
pub struct DiskStep {
    pub op: DiskOp,
    pub on_failure: OnFailure,
}

/// A [`DiskStep`], with paths as sequences of names.
pub struct StepView {
    pub op: OpView,
    pub on_failure: OnFailure,
}

impl View for DiskStep {
    type V = StepView;

    open spec fn view(&self) -> StepView {
        StepView { op: self.op@, on_failure: self.on_failure }
    }
}

impl StepView {
    /// What comes of the step, given whether its operation succeeded.
    pub open spec fn outcome(self, ok: bool) -> Result<(), StoreError> {
        match self.on_failure {
            OnFailure::Fail { kind, context } if !ok => Err(StoreError::Disk { kind, context }),
            _ => Ok(()),
        }
    }
}

impl DiskStep {
    /// Whether to go on after this step, given whether its operation
    /// succeeded.
    pub fn settle(&self, ok: bool) -> (r: Result<(), StoreError>)
        ensures
            r == self@.outcome(ok),
    {
        match self.on_failure {
            OnFailure::Fail { kind, context } => {
                if ok {
                    Ok(())
                } else {
                    Err(StoreError::Disk { kind, context })
                }
            },
            OnFailure::Ignore => Ok(()),
        }
    }
}

/// Steps to be taken in order.
#[derive(Debug, PartialEq, Eq)]
pub struct DiskPlan {
    pub steps: Vec<DiskStep>,
}

impl View for DiskPlan {
    type V = Seq<StepView>;

    open spec fn view(&self) -> Seq<StepView> {
        self.steps@.map_values(|s: DiskStep| s@)
    }
}

/// The name of the file that holds `part`.
pub open spec fn part_name(part: EntryPart) -> Seq<char> {
    match part {
        EntryPart::Body => BODY_FILE@,
        EntryPart::MetaInternal => META_INTERNAL_FILE@,
        EntryPart::MetaHeader => META_HEADER_FILE@,
    }
}

/// The file that holds `part` in the directory `dir` of an entry.
pub open spec fn part_file(dir: Seq<Seq<char>>, part: EntryPart) -> Seq<Seq<char>> {
    dir.push(part_name(part))
}

/// The file that holds `part` in the directory `dir` of an entry.
pub fn part_path(dir: &DiskPath, part: EntryPart) -> (path: DiskPath)
    ensures
        path@ == part_file(dir@, part),
{
    match part {
        EntryPart::Body => dir.join(BODY_FILE),
        EntryPart::MetaInternal => dir.join(META_INTERNAL_FILE),
        EntryPart::MetaHeader => dir.join(META_HEADER_FILE),
    }
}

/// What is reported when the file for `part` cannot be made.
pub open spec fn create_context(part: EntryPart, tmp: bool) -> &'static str {
    match (part, tmp) {
        (EntryPart::Body, false) => "create body file",
        (EntryPart::MetaInternal, false) => "create internal meta file",
        (EntryPart::MetaHeader, false) => "create header meta file",
        (EntryPart::Body, true) => "create tmp body file",
        (EntryPart::MetaInternal, true) => "create tmp internal meta file",
        (EntryPart::MetaHeader, true) => "create tmp header meta file",
    }
}

/// What is reported when `part` cannot be written.
pub open spec fn write_context(part: EntryPart, tmp: bool) -> &'static str {
    match (part, tmp) {
        (EntryPart::Body, false) => "write body file",
        (EntryPart::MetaInternal, false) => "write internal meta file",
        (EntryPart::MetaHeader, false) => "write header meta file",
        (EntryPart::Body, true) => "write tmp body file",
        (EntryPart::MetaInternal, true) => "write tmp internal meta file",
        (EntryPart::MetaHeader, true) => "write tmp header meta file",
    }
}

/// What is reported when the file for `part` cannot be flushed or made durable.
pub open spec fn close_context(part: EntryPart, tmp: bool) -> &'static str {
    match (part, tmp) {
        (EntryPart::Body, false) => "flush body file",
        (EntryPart::MetaInternal, false) => "flush internal meta file",
        (EntryPart::MetaHeader, false) => "flush header meta file",
        (EntryPart::Body, true) => "sync tmp body file",
        (EntryPart::MetaInternal, true) => "sync tmp internal meta file",
        (EntryPart::MetaHeader, true) => "sync tmp header meta file",
    }
}

/// A step that stops the plan when it fails.
pub open spec fn must(op: OpView, kind: ErrorKind, context: &'static str) -> StepView {
    StepView { op, on_failure: OnFailure::Fail { kind, context } }
}

/// A step whose failure does not matter.
pub open spec fn may(op: OpView) -> StepView {
    StepView { op, on_failure: OnFailure::Ignore }
}

/// Making the file for `part`.
pub open spec fn create_step(dir: Seq<Seq<char>>, part: EntryPart, tmp: bool) -> StepView {
    must(
        OpView::CreateFile { path: part_file(dir, part) },
        ErrorKind::FileCreateError,
        create_context(part, tmp),
    )
}

/// Writing `part` to its file.
pub open spec fn write_step(dir: Seq<Seq<char>>, part: EntryPart, tmp: bool) -> StepView {
    must(
        OpView::WriteAll { path: part_file(dir, part), part },
        ErrorKind::FileWriteError,
        write_context(part, tmp),
    )
}

/// Closing the file for `part`: it is made durable in a directory that will be
/// renamed, and only flushed elsewhere.
pub open spec fn close_step(dir: Seq<Seq<char>>, part: EntryPart, tmp: bool) -> StepView {
    must(
        if tmp {
            OpView::SyncAll { path: part_file(dir, part) }
        } else {
            OpView::Flush { path: part_file(dir, part) }
        },
        ErrorKind::FileWriteError,
        close_context(part, tmp),
    )
}

/// The steps that write an entry to `dir` in place.
pub open spec fn in_place_steps(dir: Seq<Seq<char>>) -> Seq<StepView> {
    seq![
        must(OpView::CreateDirAll { dir }, ErrorKind::FileCreateError, "create cache dir"),
        create_step(dir, EntryPart::Body, false),
        write_step(dir, EntryPart::Body, false),
        close_step(dir, EntryPart::Body, false),
        create_step(dir, EntryPart::MetaInternal, false),
        write_step(dir, EntryPart::MetaInternal, false),
        close_step(dir, EntryPart::MetaInternal, false),
        create_step(dir, EntryPart::MetaHeader, false),
        write_step(dir, EntryPart::MetaHeader, false),
        close_step(dir, EntryPart::MetaHeader, false),
    ]
}

/// The steps that write an entry next to `dir` and then rename it into place.
pub open spec fn atomic_steps(dir: Seq<Seq<char>>) -> Seq<StepView> {
    let tmp = tmp_sibling(dir);
    seq![
        must(
            OpView::CreateDirAll { dir: tmp.drop_last() },
            ErrorKind::FileCreateError,
            "create parent dir",
        ),
        may(OpView::RemoveDirAll { dir: tmp }),
        must(OpView::CreateDirAll { dir: tmp }, ErrorKind::FileCreateError, "create tmp cache dir"),
        create_step(tmp, EntryPart::Body, true),
        write_step(tmp, EntryPart::Body, true),
        close_step(tmp, EntryPart::Body, true),
        create_step(tmp, EntryPart::MetaInternal, true),
        write_step(tmp, EntryPart::MetaInternal, true),
        close_step(tmp, EntryPart::MetaInternal, true),
        create_step(tmp, EntryPart::MetaHeader, true),
        write_step(tmp, EntryPart::MetaHeader, true),
        close_step(tmp, EntryPart::MetaHeader, true),
        may(OpView::SyncDir { dir: tmp.drop_last() }),
        may(OpView::RemoveDirAll { dir }),
        must(
            OpView::Rename { from: tmp, to: dir },
            ErrorKind::FileWriteError,
            "rename tmp->final",
        ),
    ]
}

/// The steps that write an entry to `dir`.
pub open spec fn persist_steps(dir: Seq<Seq<char>>, atomic: bool) -> Seq<StepView> {
    if atomic {
        atomic_steps(dir)
    } else {
        in_place_steps(dir)
    }
}

/// The steps that replace the metadata of the entry in `dir`.
pub open spec fn meta_steps(dir: Seq<Seq<char>>) -> Seq<StepView> {
    seq![
        may(OpView::CreateDirAll { dir }),
        may(
            OpView::WriteFile {
                path: part_file(dir, EntryPart::MetaInternal),
                part: EntryPart::MetaInternal,
            },
        ),
        may(
            OpView::WriteFile {
                path: part_file(dir, EntryPart::MetaHeader),
                part: EntryPart::MetaHeader,
            },
        ),
    ]
}

/// The steps that remove the entry in `dir`.
pub open spec fn remove_steps(dir: Seq<Seq<char>>) -> Seq<StepView> {
    seq![
        may(OpView::RemoveFile { path: part_file(dir, EntryPart::Body) }),
        may(OpView::RemoveFile { path: part_file(dir, EntryPart::MetaHeader) }),
        may(OpView::RemoveFile { path: part_file(dir, EntryPart::MetaInternal) }),
        may(OpView::RemoveDirAll { dir }),
    ]
}

/// A step that stops the plan when it fails.
fn must_step(op: DiskOp, kind: ErrorKind, context: &'static str) -> (step: DiskStep)
    ensures
        step@ == must(op@, kind, context),
{
    DiskStep { op, on_failure: OnFailure::Fail { kind, context } }
}

/// A step whose failure does not matter.
fn may_step(op: DiskOp) -> (step: DiskStep)
    ensures
        step@ == may(op@),
{
    DiskStep { op, on_failure: OnFailure::Ignore }
}

/// Adds the steps that make, fill and close the file for `part`.
fn push_file_steps(plan: &mut DiskPlan, dir: &DiskPath, part: EntryPart, tmp: bool)
    ensures
        final(plan)@ == old(plan)@.push(create_step(dir@, part, tmp)).push(
            write_step(dir@, part, tmp),
        ).push(close_step(dir@, part, tmp)),
{
    let (create, write, close): (&'static str, &'static str, &'static str) = match (part, tmp) {
        (EntryPart::Body, false) => ("create body file", "write body file", "flush body file"),
        (EntryPart::MetaInternal, false) => (
            "create internal meta file",
            "write internal meta file",
            "flush internal meta file",
        ),
        (EntryPart::MetaHeader, false) => (
            "create header meta file",
            "write header meta file",
            "flush header meta file",
        ),
        (EntryPart::Body, true) => (
            "create tmp body file",
            "write tmp body file",
            "sync tmp body file",
        ),
        (EntryPart::MetaInternal, true) => (
            "create tmp internal meta file",
            "write tmp internal meta file",
            "sync tmp internal meta file",
        ),
        (EntryPart::MetaHeader, true) => (
            "create tmp header meta file",
            "write tmp header meta file",
            "sync tmp header meta file",
        ),
    };
    let path = part_path(dir, part);
    push_step(
        plan,
        must_step(DiskOp::CreateFile { path: path.clone() }, ErrorKind::FileCreateError, create),
    );
    push_step(
        plan,
        must_step(DiskOp::WriteAll { path: path.clone(), part }, ErrorKind::FileWriteError, write),
    );
    let closing = if tmp {
        DiskOp::SyncAll { path }
    } else {
        DiskOp::Flush { path }
    };
    push_step(plan, must_step(closing, ErrorKind::FileWriteError, close));
}

/// Adds a step.
fn push_step(plan: &mut DiskPlan, step: DiskStep)
    ensures
        final(plan)@ == old(plan)@.push(step@),
{
    plan.steps.push(step);
    assert(plan@ =~= old(plan)@.push(step@));
}

/// A plan without steps.
fn empty_plan() -> (plan: DiskPlan)
    ensures
        plan@ == Seq::<StepView>::empty(),
{
    let plan = DiskPlan { steps: Vec::new() };
    assert(plan@ =~= Seq::<StepView>::empty());
    plan
}

/// Plans the writing of an entry to `dir` in place: directory, body, internal
/// metadata, header.
pub fn persist_to_disk(dir: &DiskPath) -> (plan: DiskPlan)
    ensures
        plan@ == in_place_steps(dir@),
{
    let mut plan = empty_plan();
    push_step(
        &mut plan,
        must_step(
            DiskOp::CreateDirAll { dir: dir.clone() },
            ErrorKind::FileCreateError,
            "create cache dir",
        ),
    );
    push_file_steps(&mut plan, dir, EntryPart::Body, false);
    push_file_steps(&mut plan, dir, EntryPart::MetaInternal, false);
    push_file_steps(&mut plan, dir, EntryPart::MetaHeader, false);
    assert(plan@ =~= in_place_steps(dir@));
    plan
}

/// Plans the writing of an entry so that it appears in `dir` all at once: the
/// files are made durable in a directory next to it, which is then renamed.
pub fn persist_to_disk_atomic(dir: &DiskPath) -> (plan: DiskPlan)
    requires
        dir@.len() > 0,
        plain_name(dir@.last()),
    ensures
        plan@ == atomic_steps(dir@),
{
    let tmp = dir.tmp_sibling();
    let parent = tmp.parent();
    let mut plan = empty_plan();
    push_step(
        &mut plan,
        must_step(
            DiskOp::CreateDirAll { dir: parent.clone() },
            ErrorKind::FileCreateError,
            "create parent dir",
        ),
    );
    push_step(&mut plan, may_step(DiskOp::RemoveDirAll { dir: tmp.clone() }));
    push_step(
        &mut plan,
        must_step(
            DiskOp::CreateDirAll { dir: tmp.clone() },
            ErrorKind::FileCreateError,
            "create tmp cache dir",
        ),
    );
    push_file_steps(&mut plan, &tmp, EntryPart::Body, true);
    push_file_steps(&mut plan, &tmp, EntryPart::MetaInternal, true);
    push_file_steps(&mut plan, &tmp, EntryPart::MetaHeader, true);
    push_step(&mut plan, may_step(DiskOp::SyncDir { dir: parent }));
    push_step(&mut plan, may_step(DiskOp::RemoveDirAll { dir: dir.clone() }));
    push_step(
        &mut plan,
        must_step(
            DiskOp::Rename { from: tmp, to: dir.clone() },
            ErrorKind::FileWriteError,
            "rename tmp->final",
        ),
    );
    assert(plan@ =~= atomic_steps(dir@));
    plan
}

/// Plans the replacement of the metadata of the entry in `dir`, best effort.
pub fn replace_meta(dir: &DiskPath) -> (plan: DiskPlan)
    ensures
        plan@ == meta_steps(dir@),
{
    let mut plan = empty_plan();
    push_step(&mut plan, may_step(DiskOp::CreateDirAll { dir: dir.clone() }));
    push_step(
        &mut plan,
        may_step(
            DiskOp::WriteFile {
                path: part_path(dir, EntryPart::MetaInternal),
                part: EntryPart::MetaInternal,
            },
        ),
    );
    push_step(
        &mut plan,
        may_step(
            DiskOp::WriteFile {
                path: part_path(dir, EntryPart::MetaHeader),
                part: EntryPart::MetaHeader,
            },
        ),
    );
    assert(plan@ =~= meta_steps(dir@));
    plan
}

/// Plans the removal of the entry in `dir`, best effort.
pub fn remove_entry(dir: &DiskPath) -> (plan: DiskPlan)
    ensures
        plan@ == remove_steps(dir@),
{
    let mut plan = empty_plan();
    push_step(
        &mut plan,
        may_step(DiskOp::RemoveFile { path: part_path(dir, EntryPart::Body) }),
    );
    push_step(
        &mut plan,
        may_step(DiskOp::RemoveFile { path: part_path(dir, EntryPart::MetaHeader) }),
    );
    push_step(
        &mut plan,
        may_step(DiskOp::RemoveFile { path: part_path(dir, EntryPart::MetaInternal) }),
    );
    push_step(&mut plan, may_step(DiskOp::RemoveDirAll { dir: dir.clone() }));
    assert(plan@ =~= remove_steps(dir@));
    plan
}

/// A plan that is being carried out.
pub struct PlanRun {
    plan: DiskPlan,
    at: usize,
    failure: Option<StoreError>,
}

/// A [`PlanRun`] as a value.
#[verifier::ext_equal]
pub struct RunView {
    pub steps: Seq<StepView>,
    /// How many steps have been taken.
    pub at: nat,
    /// The failure that stopped the plan.
    pub failure: Option<StoreError>,
}

impl View for PlanRun {
    type V = RunView;

    closed spec fn view(&self) -> RunView {
        RunView { steps: self.plan@, at: self.at as nat, failure: self.failure }
    }
}

impl RunView {
    /// Before the first step.
    pub open spec fn start(steps: Seq<StepView>) -> RunView {
        RunView { steps, at: 0, failure: None }
    }

    /// There is a step to take.
    pub open spec fn running(self) -> bool {
        self.failure is None && self.at < self.steps.len()
    }

    /// After the next step was taken.
    pub open spec fn reported(self, ok: bool) -> RunView {
        RunView {
            at: self.at + 1,
            failure: match self.steps[self.at as int].outcome(ok) {
                Ok(()) => None,
                Err(e) => Some(e),
            },
            ..self
        }
    }

    /// After steps with these outcomes were taken.
    pub open spec fn all_reported(self, oks: Seq<bool>) -> RunView
        decreases oks.len(),
    {
        if oks.len() == 0 {
            self
        } else {
            self.all_reported(oks.drop_last()).reported(oks.last())
        }
    }

    /// The result of the whole plan, once there is one.
    pub open spec fn result(self) -> Option<Result<(), StoreError>> {
        match self.failure {
            Some(e) => Some(Err(e)),
            None => if self.at < self.steps.len() {
                None
            } else {
                Some(Ok(()))
            },
        }
    }
}

impl PlanRun {
    #[verifier::type_invariant]
    spec fn type_inv(self) -> bool {
        self.at <= self.plan.steps@.len()
    }

    /// Starts carrying out a plan.
    pub fn new(plan: DiskPlan) -> (run: PlanRun)
        ensures
            run@ == RunView::start(plan@),
    {
        PlanRun { plan, at: 0, failure: None }
    }

    /// The operation to perform next. There is none after the last one, or
    /// after a failure that matters.
    pub fn current(&self) -> (op: Option<&DiskOp>)
        ensures
            op is Some <==> self@.running(),
            op is Some ==> op->0@ == self@.steps[self@.at as int].op,
    {
        if self.failure.is_some() || self.at >= self.plan.steps.len() {
            return None;
        }
        assert(self@.steps[self.at as int] == self.plan.steps[self.at as int]@);
        Some(&self.plan.steps[self.at].op)
    }

    /// Takes note of whether the current operation succeeded.
    pub fn report(&mut self, ok: bool)
        requires
            old(self)@.running(),
        ensures
            final(self)@ == old(self)@.reported(ok),
    {
        proof {
            use_type_invariant(&*self);
        }
        let ghost before = self@;
        assert(before.steps[self.at as int] == self.plan.steps[self.at as int]@);
        assert(self.at < self.plan.steps.len());
        let settled = self.plan.steps[self.at].settle(ok);
        self.at = self.at + 1;
        if let Err(e) = settled {
            self.failure = Some(e);
        }
    }

    /// The result of the whole plan, once there is one.
    pub fn result(&self) -> (r: Option<Result<(), StoreError>>)
        ensures
            r == self@.result(),
    {
        match self.failure {
            Some(e) => Some(Err(e)),
            None => {
                if self.at < self.plan.steps.len() {
                    None
                } else {
                    Some(Ok(()))
                }
            },
        }
    }
}

/// Before an entry that was prepared is moved into place, each of its files has
/// been written and then made durable, and a failure of either would have stopped
/// the plan. So would a failure of the move.
pub proof fn law_entry_is_durable_before_it_appears(dir: Seq<Seq<char>>, part: EntryPart)
    requires
        dir.len() > 0,
    ensures
        ({
            let steps = atomic_steps(dir);
            let file = part_file(tmp_sibling(dir), part);
            &&& steps.last().op == (OpView::Rename { from: tmp_sibling(dir), to: dir })
            &&& steps.last().outcome(false) is Err
            &&& exists|i: int, j: int|
                #![trigger steps[i], steps[j]]
                0 <= i < j < steps.len() - 1 && steps[i].op == (OpView::WriteAll {
                    path: file,
                    part,
                }) && steps[j].op == (OpView::SyncAll { path: file }) && steps[i].outcome(
                    false,
                ) is Err && steps[j].outcome(false) is Err
        }),
{
    let steps = atomic_steps(dir);
    match part {
        EntryPart::Body => {
            assert(steps[4] == write_step(tmp_sibling(dir), part, true));
            assert(steps[5] == close_step(tmp_sibling(dir), part, true));
        },
        EntryPart::MetaInternal => {
            assert(steps[7] == write_step(tmp_sibling(dir), part, true));
            assert(steps[8] == close_step(tmp_sibling(dir), part, true));
        },
        EntryPart::MetaHeader => {
            assert(steps[10] == write_step(tmp_sibling(dir), part, true));
            assert(steps[11] == close_step(tmp_sibling(dir), part, true));
        },
    }
}

/// The error of this class.
pub open spec fn is_disk_error(r: Result<(), StoreError>, of: ErrorKind) -> bool {
    r matches Err(StoreError::Disk { kind, .. }) && kind == of
}

/// While an entry is written, a directory or file that cannot be made stops the
/// plan with an error of that class, and so does one that cannot be written, closed
/// or moved. Clearing the way and making names durable are only tried.
pub proof fn law_failures_while_writing(dir: Seq<Seq<char>>, atomic: bool, i: int)
    requires
        0 <= i < persist_steps(dir, atomic).len(),
    ensures
        ({
            let step = persist_steps(dir, atomic)[i];
            &&& step.outcome(true) is Ok
            &&& match step.op {
                OpView::CreateDirAll { .. } | OpView::CreateFile { .. } => is_disk_error(
                    step.outcome(false),
                    ErrorKind::FileCreateError,
                ),
                OpView::WriteAll { .. } | OpView::Flush { .. } | OpView::SyncAll { .. }
                | OpView::Rename { .. } => is_disk_error(
                    step.outcome(false),
                    ErrorKind::FileWriteError,
                ),
                OpView::RemoveDirAll { .. } | OpView::SyncDir { .. } => step.outcome(false) is Ok,
                _ => false,
            }
        }),
{
}

/// Removing an entry and replacing its metadata are best effort: every step is
/// tried, whatever becomes of the ones before, and none reports a failure.
pub proof fn law_best_effort(dir: Seq<Seq<char>>, i: int, ok: bool)
    ensures
        0 <= i < remove_steps(dir).len() ==> remove_steps(dir)[i].outcome(ok) is Ok,
        0 <= i < meta_steps(dir).len() ==> meta_steps(dir)[i].outcome(ok) is Ok,
{
}

/// A plan goes on as long as no step failed that matters. It stops at the first one
/// that did, with the error of that step.
pub proof fn law_plan_stops_at_first_failure(steps: Seq<StepView>, oks: Seq<bool>)
    requires
        0 < oks.len() <= steps.len(),
        forall|i: int| 0 <= i < oks.len() - 1 ==> (#[trigger] steps[i]).outcome(oks[i]) is Ok,
    ensures
        ({
            let now = RunView::start(steps).all_reported(oks);
            let last = steps[oks.len() - 1].outcome(oks.last());
            &&& last is Ok && oks.len() < steps.len() ==> now.running() && now.result() is None
                && now.steps[now.at as int] == steps[oks.len() as int]
            &&& last is Ok && oks.len() == steps.len() ==> !now.running() && now.result() == Some(
                Ok::<(), StoreError>(()),
            )
            &&& last matches Err(e) ==> !now.running() && now.result() == Some(
                Err::<(), StoreError>(e),
            )
        }),
{
    lemma_run_at(steps, oks.drop_last());
}

/// How far a plan has come.
proof fn lemma_run_at(steps: Seq<StepView>, oks: Seq<bool>)
    ensures
        RunView::start(steps).all_reported(oks).at == oks.len(),
        RunView::start(steps).all_reported(oks).steps == steps,
    decreases oks.len(),
{
    if oks.len() > 0 {
        lemma_run_at(steps, oks.drop_last());
    }
}

/// What a part of an entry is called in errors.
pub open spec fn part_label(part: EntryPart) -> Seq<char> {
    match part {
        EntryPart::Body => "body"@,
        EntryPart::MetaInternal => "internal meta"@,
        EntryPart::MetaHeader => "header meta"@,
    }
}

/// An error while a file is written says what was being done, and to which file.
pub proof fn law_failing_step_is_named(part: EntryPart, tmp: bool)
    ensures
        ({
            let file = (if tmp {
                "tmp "@
            } else {
                Seq::<char>::empty()
            }) + part_label(part) + " file"@;
            &&& create_context(part, tmp)@ == "create "@ + file
            &&& write_context(part, tmp)@ == "write "@ + file
            &&& close_context(part, tmp)@ == (if tmp {
                "sync "@
            } else {
                "flush "@
            }) + file
        }),
{
    reveal_strlit("tmp ");
    reveal_strlit(" file");
    reveal_strlit("create ");
    reveal_strlit("write ");
    reveal_strlit("sync ");
    reveal_strlit("flush ");
    reveal_strlit("body");
    reveal_strlit("internal meta");
    reveal_strlit("header meta");
    reveal_strlit("create body file");
    reveal_strlit("create internal meta file");
    reveal_strlit("create header meta file");
    reveal_strlit("create tmp body file");
    reveal_strlit("create tmp internal meta file");
    reveal_strlit("create tmp header meta file");
    reveal_strlit("write body file");
    reveal_strlit("write internal meta file");
    reveal_strlit("write header meta file");
    reveal_strlit("write tmp body file");
    reveal_strlit("write tmp internal meta file");
    reveal_strlit("write tmp header meta file");
    reveal_strlit("flush body file");
    reveal_strlit("flush internal meta file");
    reveal_strlit("flush header meta file");
    reveal_strlit("sync tmp body file");
    reveal_strlit("sync tmp internal meta file");
    reveal_strlit("sync tmp header meta file");
    let file = (if tmp {
        "tmp "@
    } else {
        Seq::<char>::empty()
    }) + part_label(part) + " file"@;
    match part {
        EntryPart::Body => {
            assert(create_context(part, tmp)@ =~= "create "@ + file);
            assert(write_context(part, tmp)@ =~= "write "@ + file);
        },
        EntryPart::MetaInternal => {
            assert(create_context(part, tmp)@ =~= "create "@ + file);
            assert(write_context(part, tmp)@ =~= "write "@ + file);
        },
        EntryPart::MetaHeader => {
            assert(create_context(part, tmp)@ =~= "create "@ + file);
            assert(write_context(part, tmp)@ =~= "write "@ + file);
        },
    }
    if tmp {
        assert(close_context(part, tmp)@ =~= "sync "@ + file);
    } else {
        assert(close_context(part, tmp)@ =~= "flush "@ + file);
    }
}

} // verus!
