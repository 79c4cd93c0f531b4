//! Opening an entry on disk: which file to look at next, what to make of the
//! answer, and when to try again.

use crate::disk::{atomic_steps, part_file, part_label, part_path, EntryPart};
use crate::error::{ErrorKind, StoreError};
use crate::files::{
    alike, all_parts, carried_out, holds_entry, law_publish_all_or_nothing, part_content, Files,
};
use crate::layout::DiskPath;
use crate::record::{copy_bytes, MetaBytes, MetaView, ObjectView};
use vstd::prelude::*;

verus! {

/// How far the opening of an entry has come.
#[derive(Debug, Clone, Copy, PartialEq, Eq, Structural)]
pub enum OpenStage {
    CheckBody,
    CheckHeader,
    CheckInternal,
    OpenInternal,
    ReadInternal,
    OpenHeader,
    ReadHeader,
    OpenBody,
}

/// What to do next on disk.
#[derive(Debug, PartialEq, Eq)]
pub enum OpenAction {
    /// See whether a file is there.
    Exists { path: DiskPath },
    /// Open a file for reading.
    OpenFile { path: DiskPath },
    /// Read the file that was opened last to its end.
    ReadToEnd { path: DiskPath },
}

/// An [`OpenAction`], with paths as sequences of names.
pub enum ActionView {
    Exists { path: Seq<Seq<char>> },
    OpenFile { path: Seq<Seq<char>> },
    ReadToEnd { path: Seq<Seq<char>> },
}

impl View for OpenAction {
    type V = ActionView;

    open spec fn view(&self) -> ActionView {
        match self {
            OpenAction::Exists { path } => ActionView::Exists { path: path@ },
            OpenAction::OpenFile { path } => ActionView::OpenFile { path: path@ },
            OpenAction::ReadToEnd { path } => ActionView::ReadToEnd { path: path@ },
        }
    }
}

/// What came of an [`OpenAction`].
#[derive(Debug, PartialEq, Eq)]
pub enum OpenEvent {
    /// Whether the file is there.
    Exists(bool),
    /// The file is open.
    Opened,
    /// What the file holds.
    Content(Vec<u8>),
    /// It did not work.
    Failed,
}

/// An [`OpenEvent`], with what was read as a sequence.
pub enum EventView {
    Exists(bool),
    Opened,
    Content(Seq<u8>),
    Failed,
}

impl View for OpenEvent {
    type V = EventView;

    open spec fn view(&self) -> EventView {
        match self {
            OpenEvent::Exists(there) => EventView::Exists(*there),
            OpenEvent::Opened => EventView::Opened,
            OpenEvent::Content(bytes) => EventView::Content(bytes@),
            OpenEvent::Failed => EventView::Failed,
        }
    }
}

/// Where the opening of an entry stands after an event.
#[derive(Debug, PartialEq, Eq)]
pub enum OpenOutcome {
    /// Take the next action.
    Continue,
    /// The entry is there, its body is open, and this is its metadata.
    Found(MetaBytes),
    /// There is no such entry.
    Absent,
    /// Start over after a pause.
    Retry { after_ms: u64 },
    /// Give up.
    Failed(StoreError),
}

/// An [`OpenOutcome`], with metadata as a value.
pub enum OutcomeView {
    Continue,
    Found(MetaView),
    Absent,
    Retry { after_ms: u64 },
    Failed(StoreError),
}

impl View for OpenOutcome {
    type V = OutcomeView;

    open spec fn view(&self) -> OutcomeView {
        match self {
            OpenOutcome::Continue => OutcomeView::Continue,
            OpenOutcome::Found(meta) => OutcomeView::Found(meta@),
            OpenOutcome::Absent => OutcomeView::Absent,
            OpenOutcome::Retry { after_ms } => OutcomeView::Retry { after_ms: *after_ms },
            OpenOutcome::Failed(e) => OutcomeView::Failed(*e),
        }
    }
}

/// How often an entry is tried before an error is reported.
pub const OPEN_ATTEMPTS: u64 = 3;

/// How much longer each pause between two tries is, in milliseconds.
pub const RETRY_PAUSE_MS: u64 = 10;

/// The opening of an entry on disk.
pub struct DiskOpen {
    dir: DiskPath,
    stage: OpenStage,
    failures: u64,
    internal: Vec<u8>,
    header: Vec<u8>,
}

/// A [`DiskOpen`] as a value.
#[verifier::ext_equal]
pub struct OpenView {
    pub dir: Seq<Seq<char>>,
    pub stage: OpenStage,
    /// How many tries have failed.
    pub failures: u64,
    pub meta: MetaView,
}

impl View for DiskOpen {
    type V = OpenView;

    closed spec fn view(&self) -> OpenView {
        OpenView {
            dir: self.dir@,
            stage: self.stage,
            failures: self.failures,
            meta: MetaView { internal: self.internal@, header: self.header@ },
        }
    }
}

/// The part of the entry that is looked at in a stage.
pub open spec fn part_of(stage: OpenStage) -> EntryPart {
    match stage {
        OpenStage::CheckBody | OpenStage::OpenBody => EntryPart::Body,
        OpenStage::CheckHeader | OpenStage::OpenHeader
        | OpenStage::ReadHeader => EntryPart::MetaHeader,
        OpenStage::CheckInternal | OpenStage::OpenInternal
        | OpenStage::ReadInternal => EntryPart::MetaInternal,
    }
}

/// The error that is reported when a stage fails for good.
pub open spec fn error_of(stage: OpenStage) -> StoreError {
    match stage {
        OpenStage::CheckBody => StoreError::Disk {
            kind: ErrorKind::InternalError,
            context: "check body exists",
        },
        OpenStage::CheckHeader => StoreError::Disk {
            kind: ErrorKind::InternalError,
            context: "check header meta exists",
        },
        OpenStage::CheckInternal => StoreError::Disk {
            kind: ErrorKind::InternalError,
            context: "check internal meta exists",
        },
        OpenStage::OpenInternal => StoreError::Disk {
            kind: ErrorKind::FileOpenError,
            context: "open internal meta file",
        },
        OpenStage::ReadInternal => StoreError::Disk {
            kind: ErrorKind::FileReadError,
            context: "read internal meta file",
        },
        OpenStage::OpenHeader => StoreError::Disk {
            kind: ErrorKind::FileOpenError,
            context: "open header meta file",
        },
        OpenStage::ReadHeader => StoreError::Disk {
            kind: ErrorKind::FileReadError,
            context: "read header meta file",
        },
        OpenStage::OpenBody => StoreError::Disk {
            kind: ErrorKind::FileOpenError,
            context: "open body file",
        },
    }
}

impl OpenView {
    /// At the start.
    pub open spec fn start(dir: Seq<Seq<char>>) -> OpenView {
        OpenView {
            dir,
            stage: OpenStage::CheckBody,
            failures: 0,
            meta: MetaView { internal: Seq::empty(), header: Seq::empty() },
        }
    }

    /// What to do next.
    pub open spec fn action(self) -> ActionView {
        let path = part_file(self.dir, part_of(self.stage));
        match self.stage {
            OpenStage::CheckBody | OpenStage::CheckHeader
            | OpenStage::CheckInternal => ActionView::Exists { path },
            OpenStage::OpenInternal | OpenStage::OpenHeader
            | OpenStage::OpenBody => ActionView::OpenFile { path },
            OpenStage::ReadInternal | OpenStage::ReadHeader => ActionView::ReadToEnd { path },
        }
    }

    /// The event can come of the next action.
    pub open spec fn expects(self, event: EventView) -> bool {
        match event {
            EventView::Exists(_) => self.action() is Exists,
            EventView::Opened => self.action() is OpenFile,
            EventView::Content(_) => self.action() is ReadToEnd,
            EventView::Failed => true,
        }
    }

    /// Where things stand after an event.
    pub open spec fn outcome(self, event: EventView) -> OutcomeView {
        match event {
            EventView::Exists(there) => if there {
                OutcomeView::Continue
            } else {
                OutcomeView::Absent
            },
            EventView::Opened => if self.stage == OpenStage::OpenBody {
                OutcomeView::Found(self.meta)
            } else {
                OutcomeView::Continue
            },
            EventView::Content(_) => OutcomeView::Continue,
            EventView::Failed => if self.failures + 1 >= OPEN_ATTEMPTS {
                OutcomeView::Failed(error_of(self.stage))
            } else {
                OutcomeView::Retry { after_ms: (RETRY_PAUSE_MS * (self.failures + 1)) as u64 }
            },
        }
    }

    /// After an event: the next stage, or the first one after a failure.
    pub open spec fn next(self, event: EventView) -> OpenView {
        match event {
            EventView::Exists(there) => if there {
                OpenView {
                    stage: match self.stage {
                        OpenStage::CheckBody => OpenStage::CheckHeader,
                        OpenStage::CheckHeader => OpenStage::CheckInternal,
                        _ => OpenStage::OpenInternal,
                    },
                    ..self
                }
            } else {
                self
            },
            EventView::Opened => OpenView {
                stage: match self.stage {
                    OpenStage::OpenInternal => OpenStage::ReadInternal,
                    OpenStage::OpenHeader => OpenStage::ReadHeader,
                    _ => self.stage,
                },
                ..self
            },
            EventView::Content(bytes) => if self.stage == OpenStage::ReadInternal {
                OpenView {
                    stage: OpenStage::OpenHeader,
                    meta: MetaView { internal: bytes, ..self.meta },
                    ..self
                }
            } else {
                OpenView {
                    stage: OpenStage::OpenBody,
                    meta: MetaView { header: bytes, ..self.meta },
                    ..self
                }
            },
            EventView::Failed => if self.failures + 1 >= OPEN_ATTEMPTS {
                self
            } else {
                OpenView {
                    stage: OpenStage::CheckBody,
                    failures: (self.failures + 1) as u64,
                    ..self
                }
            },
        }
    }
}

impl DiskOpen {
    /// Starts opening the entry in `dir`.
    pub fn new(dir: DiskPath) -> (open: DiskOpen)
        ensures
            open@ == OpenView::start(dir@),
    {
        let open = DiskOpen {
            dir,
            stage: OpenStage::CheckBody,
            failures: 0,
            internal: Vec::new(),
            header: Vec::new(),
        };
        assert(open@ =~= OpenView::start(open.dir@));
        open
    }

    #[verifier::type_invariant]
    spec fn type_inv(self) -> bool {
        self.failures < OPEN_ATTEMPTS
    }

    /// What to do next on disk.
    pub fn action(&self) -> (action: OpenAction)
        ensures
            action@ == self@.action(),
    {
        match self.stage {
            OpenStage::CheckBody => OpenAction::Exists {
                path: part_path(&self.dir, EntryPart::Body),
            },
            OpenStage::CheckHeader => OpenAction::Exists {
                path: part_path(&self.dir, EntryPart::MetaHeader),
            },
            OpenStage::CheckInternal => OpenAction::Exists {
                path: part_path(&self.dir, EntryPart::MetaInternal),
            },
            OpenStage::OpenInternal => OpenAction::OpenFile {
                path: part_path(&self.dir, EntryPart::MetaInternal),
            },
            OpenStage::ReadInternal => OpenAction::ReadToEnd {
                path: part_path(&self.dir, EntryPart::MetaInternal),
            },
            OpenStage::OpenHeader => OpenAction::OpenFile {
                path: part_path(&self.dir, EntryPart::MetaHeader),
            },
            OpenStage::ReadHeader => OpenAction::ReadToEnd {
                path: part_path(&self.dir, EntryPart::MetaHeader),
            },
            OpenStage::OpenBody => OpenAction::OpenFile {
                path: part_path(&self.dir, EntryPart::Body),
            },
        }
    }

    /// Takes what came of the last action. An entry is there when all three of
    /// its files are. A failure starts everything over, after a pause that
    /// grows, until it has been tried often enough.
    pub fn handle(&mut self, event: OpenEvent) -> (outcome: OpenOutcome)
        requires
            old(self)@.expects(event@),
        ensures
            outcome@ == old(self)@.outcome(event@),
            final(self)@ == old(self)@.next(event@),
    {
        proof {
            use_type_invariant(&*self);
        }
        match event {
            OpenEvent::Exists(there) => {
                if !there {
                    return OpenOutcome::Absent;
                }
                self.stage = match self.stage {
                    OpenStage::CheckBody => OpenStage::CheckHeader,
                    OpenStage::CheckHeader => OpenStage::CheckInternal,
                    _ => OpenStage::OpenInternal,
                };
                OpenOutcome::Continue
            },
            OpenEvent::Opened => match self.stage {
                OpenStage::OpenInternal => {
                    self.stage = OpenStage::ReadInternal;
                    OpenOutcome::Continue
                },
                OpenStage::OpenHeader => {
                    self.stage = OpenStage::ReadHeader;
                    OpenOutcome::Continue
                },
                _ => OpenOutcome::Found(
                    MetaBytes {
                        internal: copy_bytes(&self.internal),
                        header: copy_bytes(&self.header),
                    },
                ),
            },
            OpenEvent::Content(bytes) => {
                match self.stage {
                    OpenStage::ReadInternal => {
                        self.internal = bytes;
                        self.stage = OpenStage::OpenHeader;
                    },
                    _ => {
                        self.header = bytes;
                        self.stage = OpenStage::OpenBody;
                    },
                }
                OpenOutcome::Continue
            },
            OpenEvent::Failed => {
                let failures: u64 = self.failures + 1;
                if failures >= OPEN_ATTEMPTS {
                    return OpenOutcome::Failed(self.error());
                }
                self.failures = failures;
                self.stage = OpenStage::CheckBody;
                OpenOutcome::Retry { after_ms: RETRY_PAUSE_MS * failures }
            },
        }
    }

    /// The error that is reported when the current stage fails for good.
    fn error(&self) -> (e: StoreError)
        ensures
            e == error_of(self@.stage),
    {
        match self.stage {
            OpenStage::CheckBody => StoreError::Disk {
                kind: ErrorKind::InternalError,
                context: "check body exists",
            },
            OpenStage::CheckHeader => StoreError::Disk {
                kind: ErrorKind::InternalError,
                context: "check header meta exists",
            },
            OpenStage::CheckInternal => StoreError::Disk {
                kind: ErrorKind::InternalError,
                context: "check internal meta exists",
            },
            OpenStage::OpenInternal => StoreError::Disk {
                kind: ErrorKind::FileOpenError,
                context: "open internal meta file",
            },
            OpenStage::ReadInternal => StoreError::Disk {
                kind: ErrorKind::FileReadError,
                context: "read internal meta file",
            },
            OpenStage::OpenHeader => StoreError::Disk {
                kind: ErrorKind::FileOpenError,
                context: "open header meta file",
            },
            OpenStage::ReadHeader => StoreError::Disk {
                kind: ErrorKind::FileReadError,
                context: "read header meta file",
            },
            OpenStage::OpenBody => StoreError::Disk {
                kind: ErrorKind::FileOpenError,
                context: "open body file",
            },
        }
    }
}

/// What a disk with these files answers to an action.
pub open spec fn answer(files: Files, action: ActionView) -> EventView {
    match action {
        ActionView::Exists { path } => EventView::Exists(files.contains_key(path)),
        ActionView::OpenFile { path } => if files.contains_key(path) {
            EventView::Opened
        } else {
            EventView::Failed
        },
        ActionView::ReadToEnd { path } => EventView::Content(files[path]),
    }
}

/// What comes of at most `steps` actions on a disk with these files.
pub open spec fn probed(files: Files, open: OpenView, steps: nat) -> OutcomeView
    decreases steps,
{
    let event = answer(files, open.action());
    let outcome = open.outcome(event);
    if steps > 1 && (outcome is Continue || outcome is Retry) {
        probed(files, open.next(event), (steps - 1) as nat)
    } else {
        outcome
    }
}

/// All three files of an entry are there.
pub open spec fn complete(files: Files, dir: Seq<Seq<char>>) -> bool {
    &&& files.contains_key(part_file(dir, EntryPart::Body))
    &&& files.contains_key(part_file(dir, EntryPart::MetaHeader))
    &&& files.contains_key(part_file(dir, EntryPart::MetaInternal))
}

/// On a disk that answers, opening an entry ends after at most eight actions:
/// with its metadata when all three files are there, else with the finding
/// that there is no entry.
pub proof fn law_open_finds_complete_entries(files: Files, dir: Seq<Seq<char>>)
    ensures
        probed(files, OpenView::start(dir), 8) == if complete(files, dir) {
            OutcomeView::Found(
                MetaView {
                    internal: files[part_file(dir, EntryPart::MetaInternal)],
                    header: files[part_file(dir, EntryPart::MetaHeader)],
                },
            )
        } else {
            OutcomeView::Absent
        },
{
    reveal_with_fuel(probed, 9);
}

/// What was written to disk is found there: opening the entry gives back the
/// metadata of the object, and its body file holds the body.
pub proof fn law_open_reads_what_was_written(files: Files, dir: Seq<Seq<char>>, object: ObjectView)
    requires
        holds_entry(files, dir, object),
    ensures
        probed(files, OpenView::start(dir), 8) == OutcomeView::Found(object.meta),
        files[part_file(dir, EntryPart::Body)] == object.body,
{
    law_open_finds_complete_entries(files, dir);
    assert(files.contains_key(part_file(dir, EntryPart::Body)));
    assert(files.contains_key(part_file(dir, EntryPart::MetaHeader)));
    assert(files.contains_key(part_file(dir, EntryPart::MetaInternal)));
    assert(files[part_file(dir, EntryPart::MetaHeader)] == part_content(
        object,
        EntryPart::MetaHeader,
    ));
}

/// Wherever atomic publishing stops, and whatever failed before that, a lookup
/// finds no entry, or the one that was there before, or the complete new one.
pub proof fn law_publish_shows_no_half_entry(
    dir: Seq<Seq<char>>,
    object: ObjectView,
    oks: Seq<bool>,
    course: Seq<Files>,
)
    requires
        dir.len() > 0,
        carried_out(atomic_steps(dir), object, oks, course),
    ensures
        ({
            let before = course[0];
            let after = course.last();
            let body = part_file(dir, EntryPart::Body);
            ||| probed(after, OpenView::start(dir), 8) == OutcomeView::Absent
            ||| probed(after, OpenView::start(dir), 8) == probed(before, OpenView::start(dir), 8)
                && after[body] == before[body]
            ||| probed(after, OpenView::start(dir), 8) == OutcomeView::Found(object.meta)
                && after[body] == object.body
        }),
{
    let before = course[0];
    let after = course.last();
    law_publish_all_or_nothing(dir, object, oks, course);
    law_open_finds_complete_entries(before, dir);
    law_open_finds_complete_entries(after, dir);
    if complete(after, dir) {
        assert(all_parts(after, dir)) by {
            assert forall|part: EntryPart| after.contains_key(#[trigger] part_file(dir, part)) by {
                match part {
                    EntryPart::Body => {},
                    EntryPart::MetaInternal => {},
                    EntryPart::MetaHeader => {},
                }
            }
        }
        if holds_entry(after, dir, object) {
            law_open_reads_what_was_written(after, dir, object);
        } else {
            assert(alike(after, before, part_file(dir, EntryPart::Body)));
            assert(alike(after, before, part_file(dir, EntryPart::MetaInternal)));
            assert(alike(after, before, part_file(dir, EntryPart::MetaHeader)));
        }
    }
}

/// Three failures in a row, wherever they strike, are reported as the error of
/// the last one, after pauses of ten and twenty milliseconds.
pub proof fn law_open_gives_up_after_three_failures(open: OpenView)
    requires
        open.failures == 0,
    ensures
        open.outcome(EventView::Failed) == (OutcomeView::Retry { after_ms: 10 }),
        forall|second: OpenView|
            second.failures == open.next(EventView::Failed).failures ==> #[trigger] second.outcome(
                EventView::Failed,
            ) == (OutcomeView::Retry { after_ms: 20 }),
        forall|second: OpenView, third: OpenView|
            second.failures == open.next(EventView::Failed).failures && third.failures
                == #[trigger] second.next(EventView::Failed).failures ==> #[trigger] third.outcome(
                EventView::Failed,
            ) == OutcomeView::Failed(error_of(third.stage)),
{
}

/// A failure that is not the third starts the opening over: whatever had been read
/// before it, the next try comes to the same as a first one.
pub proof fn law_retry_starts_over(files: Files, open: OpenView)
    requires
        open.failures < 2,
    ensures
        ({
            let again = open.next(EventView::Failed);
            &&& open.outcome(EventView::Failed) is Retry
            &&& again.failures == open.failures + 1
            &&& again.dir == open.dir
            &&& probed(files, again, 8) == probed(files, OpenView::start(open.dir), 8)
        }),
{
    reveal_with_fuel(probed, 9);
}

/// The third failure is reported as an error of the class of what failed: opening a
/// file, reading it, or seeing whether it is there. The error says so, and which
/// file it was.
pub proof fn law_open_error_names_what_failed(open: OpenView)
    requires
        open.failures >= 2,
    ensures
        ({
            let label = part_label(part_of(open.stage));
            let failed = open.outcome(EventView::Failed);
            &&& failed matches OutcomeView::Failed(StoreError::Disk { kind, context })
            &&& match open.action() {
                ActionView::Exists { path } => {
                    &&& kind == ErrorKind::InternalError
                    &&& context@ == "check "@ + label + " exists"@
                    &&& path == part_file(open.dir, part_of(open.stage))
                },
                ActionView::OpenFile { path } => {
                    &&& kind == ErrorKind::FileOpenError
                    &&& context@ == "open "@ + label + " file"@
                    &&& path == part_file(open.dir, part_of(open.stage))
                },
                ActionView::ReadToEnd { path } => {
                    &&& kind == ErrorKind::FileReadError
                    &&& context@ == "read "@ + label + " file"@
                    &&& path == part_file(open.dir, part_of(open.stage))
                },
            }
        }),
{
    reveal_strlit("check ");
    reveal_strlit(" exists");
    reveal_strlit("open ");
    reveal_strlit("read ");
    reveal_strlit(" file");
    reveal_strlit("body");
    reveal_strlit("internal meta");
    reveal_strlit("header meta");
    reveal_strlit("check body exists");
    reveal_strlit("check header meta exists");
    reveal_strlit("check internal meta exists");
    reveal_strlit("open internal meta file");
    reveal_strlit("read internal meta file");
    reveal_strlit("open header meta file");
    reveal_strlit("read header meta file");
    reveal_strlit("open body file");
    let label = part_label(part_of(open.stage));
    match open.stage {
        OpenStage::CheckBody => {
            assert("check body exists"@ =~= "check "@ + label + " exists"@);
        },
        OpenStage::CheckHeader => {
            assert("check header meta exists"@ =~= "check "@ + label + " exists"@);
        },
        OpenStage::CheckInternal => {
            assert("check internal meta exists"@ =~= "check "@ + label + " exists"@);
        },
        OpenStage::OpenInternal => {
            assert("open internal meta file"@ =~= "open "@ + label + " file"@);
        },
        OpenStage::ReadInternal => {
            assert("read internal meta file"@ =~= "read "@ + label + " file"@);
        },
        OpenStage::OpenHeader => {
            assert("open header meta file"@ =~= "open "@ + label + " file"@);
        },
        OpenStage::ReadHeader => {
            assert("read header meta file"@ =~= "read "@ + label + " file"@);
        },
        OpenStage::OpenBody => {
            assert("open body file"@ =~= "open "@ + label + " file"@);
        },
    }
}

} // verus!
