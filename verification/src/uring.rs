//! The bookkeeping of an io_uring instance: which operations are under way,
//! which files are open, and what each completion means.

use crate::paths::{path_of, PathKey, PathView};
use std::collections::HashMap;
use vstd::prelude::*;
use vstd::std_specs::hash::*;

verus! {

broadcast use group_hash_axioms;

/// Something to be done through the ring.
#[derive(Debug, PartialEq, Eq)]
pub enum IoUringRequest {
    Write { path: String, offset: u64, data: Vec<u8> },
    Read { path: String, offset: u64, len: usize },
}

impl IoUringRequest {
    /// The file that the request is about.
    pub open spec fn target(self) -> PathView {
        match self {
            IoUringRequest::Write { path, .. } => path_of(path@),
            IoUringRequest::Read { path, .. } => path_of(path@),
        }
    }

    /// The kind of operation that the request asks for.
    pub open spec fn operation(self) -> PendingOperation {
        match self {
            IoUringRequest::Write { .. } => PendingOperation::Write,
            IoUringRequest::Read { .. } => PendingOperation::Read,
        }
    }
}

/// An operation that the ring has not completed.
#[derive(Debug, Clone, Copy, PartialEq, Eq, Structural)]
pub enum PendingOperation {
    Write,
    Read,
}

/// How a file is to be opened.
#[derive(Debug, Clone, Copy, PartialEq, Eq, Structural)]
pub struct OpenFlags {
    pub create: bool,
    pub write: bool,
    pub read: bool,
    pub truncate: bool,
}

/// How a file is opened for a request. It is always readable. A write makes the
/// file if need be, empties it, and may write to it; a read takes the file as it
/// is.
pub open spec fn flags_for(op: PendingOperation) -> OpenFlags {
    OpenFlags {
        create: op == PendingOperation::Write,
        write: op == PendingOperation::Write,
        read: true,
        truncate: op == PendingOperation::Write,
    }
}

/// Why a request failed.
#[derive(Debug, Clone, Copy, PartialEq, Eq, Structural)]
pub enum UringError {
    /// Its file could not be opened.
    OpenFailed,
    /// The ring had no room for it.
    QueueFull,
    /// The kernel reported this error.
    Os(i32),
}

/// What a requester is told when the ring has no room.
pub const QUEUE_FULL: &'static str = "Submission queue full";

/// A request that was given an id.
#[derive(Debug, PartialEq, Eq)]
pub struct Admission {
    pub user_data: u64,
    pub request: IoUringRequest,
    /// How to open its file, unless it is open already in a way that the request
    /// can use.
    pub open: Option<OpenFlags>,
}

/// What the ring reports about a finished operation.
#[derive(Debug, PartialEq, Eq)]
pub struct Completion {
    pub user_data: u64,
    /// How many bytes were moved, or a negative error number.
    pub result: i32,
    /// The buffer that a read filled. A write has none.
    pub buf: Vec<u8>,
}

/// What a requester is told.
#[derive(Debug, PartialEq, Eq)]
pub enum Reply {
    /// How many bytes were written.
    Wrote(Result<usize, UringError>),
    /// What was read.
    Got(Result<Vec<u8>, UringError>),
}

/// A [`Reply`], with what was read as a sequence.
pub enum ReplyView {
    Wrote(Result<usize, UringError>),
    Got(Result<Seq<u8>, UringError>),
}

impl View for Reply {
    type V = ReplyView;

    open spec fn view(&self) -> ReplyView {
        match self {
            Reply::Wrote(r) => ReplyView::Wrote(*r),
            Reply::Got(Ok(bytes)) => ReplyView::Got(Ok(bytes@)),
            Reply::Got(Err(e)) => ReplyView::Got(Err(*e)),
        }
    }
}

/// The reply to an operation that ended with `result`.
pub open spec fn reply_to(op: PendingOperation, result: i32, buf: Seq<u8>) -> ReplyView {
    match op {
        PendingOperation::Write => ReplyView::Wrote(
            if result < 0 {
                Err(UringError::Os((-result) as i32))
            } else {
                Ok(result as usize)
            },
        ),
        PendingOperation::Read => ReplyView::Got(
            if result < 0 {
                Err(UringError::Os((-result) as i32))
            } else if result <= buf.len() {
                Ok(buf.take(result as int))
            } else {
                Ok(buf)
            },
        ),
    }
}

/// What to do with the ring next.
#[derive(Debug, Clone, Copy, PartialEq, Eq, Structural)]
pub enum NextMove {
    /// Shut down.
    Stop,
    /// Wait until an operation completes.
    AwaitCompletion,
    /// Wait until a request arrives.
    AwaitRequest,
}

/// Hands out the ids of operations, to all rings of a process.
pub struct UserDataCounter {
    next: u64,
}

impl View for UserDataCounter {
    type V = u64;

    /// The id that is handed out next.
    closed spec fn view(&self) -> u64 {
        self.next
    }
}

impl UserDataCounter {
    /// A counter that has handed out nothing.
    pub fn new() -> (ids: UserDataCounter)
        ensures
            ids@ == FIRST_USER_DATA,
    {
        UserDataCounter { next: FIRST_USER_DATA }
    }

    /// Hands out the next id.
    pub fn get_next_user_data(&mut self) -> (id: u64)
        ensures
            id == old(self)@,
            final(self)@ == old(self)@.wrapping_add(1),
            final(self)@ == id_after(old(self)@),
    {
        let id: u64 = self.next;
        self.next = self.next.wrapping_add(1);
        id
    }
}

/// The first id that is handed out.
pub const FIRST_USER_DATA: u64 = 1;

/// The id that is handed out after `id`.
pub open spec fn id_after(id: u64) -> u64 {
    id.wrapping_add(1)
}

/// The id that a new counter hands out after `calls` others.
pub open spec fn handed_out(calls: nat) -> u64
    decreases calls,
{
    if calls == 0 {
        FIRST_USER_DATA
    } else {
        id_after(handed_out((calls - 1) as nat))
    }
}

/// Ids count up from one: until the counter has run through all of them, none
/// is handed out twice, and none is zero.
pub proof fn law_user_data_never_repeats(earlier: nat, later: nat)
    requires
        earlier < later < u64::MAX,
    ensures
        handed_out(later) == later + 1,
        handed_out(earlier) == earlier + 1,
        handed_out(earlier) != handed_out(later),
        handed_out(earlier) >= 1,
        handed_out(earlier + 1) == handed_out(earlier) + 1,
{
    lemma_handed_out(earlier);
    lemma_handed_out(later);
    lemma_handed_out(earlier + 1);
}

/// The id after `calls` others.
proof fn lemma_handed_out(calls: nat)
    requires
        calls < u64::MAX,
    ensures
        handed_out(calls) == calls + 1,
    decreases calls,
{
    if calls > 0 {
        lemma_handed_out((calls - 1) as nat);
    }
}

/// Keeps track of one ring.
pub struct IoUringManager {
    pending_ops: HashMap<u64, PendingOperation>,
    /// Every opening, in order. The last one of a path counts.
    open_files: Vec<OpenFile>,
}

/// A file that was opened.
struct OpenFile {
    path: PathKey,
    writable: bool,
}

/// How each path was opened last: whether for writing.
spec fn last_modes(openings: Seq<OpenFile>) -> Map<PathView, bool>
    decreases openings.len(),
{
    if openings.len() == 0 {
        Map::empty()
    } else {
        last_modes(openings.drop_last()).insert(openings.last().path@, openings.last().writable)
    }
}

/// An [`IoUringManager`] as a value.
#[verifier::ext_equal]
pub struct UringState {
    pub pending: Map<u64, PendingOperation>,
    /// The files that are open, and whether for writing.
    pub open_files: Map<PathView, bool>,
}

impl View for IoUringManager {
    type V = UringState;

    closed spec fn view(&self) -> UringState {
        UringState {
            pending: self.pending_ops@,
            open_files: last_modes(self.open_files@),
        }
    }
}

impl UringState {
    /// Nothing under way, no file open.
    pub open spec fn idle() -> UringState {
        UringState { pending: Map::empty(), open_files: Map::empty() }
    }

    /// Every operation under way has an id that was handed out before `next`.
    pub open spec fn ids_below(self, next: u64) -> bool {
        forall|id: u64| #[trigger] self.pending.contains_key(id) ==> 0 < id < next
    }

    /// The file at `path` is open in a way that the operation can use.
    pub open spec fn usable(self, path: PathView, op: PendingOperation) -> bool {
        self.open_files.contains_key(path) && (op == PendingOperation::Read
            || self.open_files[path])
    }

    /// How the file of a request has to be opened, if it has to be.
    pub open spec fn opening(self, request: IoUringRequest) -> Option<OpenFlags> {
        if self.usable(request.target(), request.operation()) {
            None
        } else {
            Some(flags_for(request.operation()))
        }
    }

    /// After the file at `path` was opened with these flags.
    pub open spec fn with_file(self, path: PathView, flags: OpenFlags) -> UringState {
        UringState { open_files: self.open_files.insert(path, flags.write), ..self }
    }

    /// After it was tried to open the file of a request that was admitted.
    pub open spec fn file_reported(self, admission: Admission, ok: bool) -> UringState {
        match admission.open {
            Some(flags) if ok => self.with_file(admission.request.target(), flags),
            _ => self,
        }
    }

    /// After it was tried to hand the operation of a request to the ring.
    pub open spec fn push_reported(self, admission: Admission, ok: bool) -> UringState {
        if ok {
            self.submitted(admission.user_data, admission.request.operation())
        } else {
            self
        }
    }

    /// What to do next, given whether what was queued went to the kernel.
    pub open spec fn next_move(self, submitted: bool) -> NextMove {
        if !submitted {
            NextMove::Stop
        } else if self.pending != Map::<u64, PendingOperation>::empty() {
            NextMove::AwaitCompletion
        } else {
            NextMove::AwaitRequest
        }
    }

    /// After the operation with this id was handed to the ring.
    pub open spec fn submitted(self, user_data: u64, op: PendingOperation) -> UringState {
        UringState { pending: self.pending.insert(user_data, op), ..self }
    }

    /// After the operation with this id was completed.
    pub open spec fn completed(self, user_data: u64) -> UringState {
        UringState { pending: self.pending.remove(user_data), ..self }
    }

    /// The reply to a completion, if it is for an operation that is under way.
    pub open spec fn reply(self, user_data: u64, result: i32, buf: Seq<u8>) -> Option<ReplyView> {
        if self.pending.contains_key(user_data) {
            Some(reply_to(self.pending[user_data], result, buf))
        } else {
            None
        }
    }

    /// After all of `completions`, in order.
    pub open spec fn all_completed(self, completions: Seq<Completion>) -> UringState
        decreases completions.len(),
    {
        if completions.len() == 0 {
            self
        } else {
            self.all_completed(completions.drop_last()).completed(completions.last().user_data)
        }
    }

    /// What comes of completion `i` when all of `completions` are taken in order.
    pub open spec fn delivery(self, completions: Seq<Completion>, i: int) -> (
        u64,
        Option<ReplyView>,
    ) {
        let c = completions[i];
        (c.user_data, self.all_completed(completions.take(i)).reply(c.user_data, c.result, c.buf@))
    }
}

/// The view of a reply that may be missing.
pub open spec fn view_of(reply: Option<Reply>) -> Option<ReplyView> {
    match reply {
        Some(reply) => Some(reply@),
        None => None,
    }
}

impl IoUringManager {
    /// A manager of a ring that was just set up.
    pub fn new() -> (manager: IoUringManager)
        ensures
            manager@ == UringState::idle(),
    {
        let manager = IoUringManager {
            pending_ops: HashMap::new(),
            open_files: Vec::new(),
        };
        assert(manager@ =~= UringState::idle());
        manager
    }

    /// Whether the file at `path` is open, and if so, whether for writing.
    fn mode_of(&self, path: &PathKey) -> (mode: Option<bool>)
        ensures
            mode is Some <==> self@.open_files.contains_key(path@),
            mode is Some ==> mode->0 == self@.open_files[path@],
    {
        let mut i: usize = self.open_files.len();
        assert(self.open_files@.take(i as int) =~= self.open_files@);
        while i > 0
            invariant
                i <= self.open_files.len(),
                last_modes(self.open_files@).contains_key(path@) <==> last_modes(
                    self.open_files@.take(i as int),
                ).contains_key(path@),
                last_modes(self.open_files@).contains_key(path@) ==> last_modes(
                    self.open_files@,
                )[path@] == last_modes(self.open_files@.take(i as int))[path@],
            decreases i,
        {
            i = i - 1;
            proof {
                let upto = self.open_files@.take(i + 1);
                assert(upto.drop_last() =~= self.open_files@.take(i as int));
                assert(upto.last() == self.open_files@[i as int]);
            }
            if self.open_files[i].path.same(path) {
                return Some(self.open_files[i].writable);
            }
        }
        None
    }

    /// Gives a request its id, and says how to open its file unless it is open in
    /// a way that the request can use. A write after a read opens the file anew.
    pub fn handle_request(&self, ids: &mut UserDataCounter, request: IoUringRequest) -> (admission:
        Admission)
        ensures
            admission.user_data == old(ids)@,
            final(ids)@ == old(ids)@.wrapping_add(1),
            final(ids)@ == id_after(old(ids)@),
            admission.request == request,
            admission.open == self@.opening(request),
            self@.ids_below(old(ids)@) && old(ids)@ < u64::MAX ==> self@.ids_below(final(ids)@)
                && !self@.pending.contains_key(admission.user_data),
    {
        let user_data: u64 = ids.get_next_user_data();
        let open = match &request {
            IoUringRequest::Write { path, .. } => {
                match self.mode_of(&PathKey::of(path.as_str())) {
                    Some(true) => None,
                    _ => Some(
                        OpenFlags { create: true, write: true, read: true, truncate: true },
                    ),
                }
            },
            IoUringRequest::Read { path, .. } => {
                match self.mode_of(&PathKey::of(path.as_str())) {
                    Some(_) => None,
                    None => Some(
                        OpenFlags { create: false, write: false, read: true, truncate: false },
                    ),
                }
            },
        };
        Admission { user_data, request, open }
    }

    /// Takes note of whether the file of an admitted request could be opened as
    /// the request asked for.
    pub fn file_opened(&mut self, admission: &Admission, ok: bool) -> (r: Result<(), UringError>)
        ensures
            r == if ok {
                Ok::<(), UringError>(())
            } else {
                Err(UringError::OpenFailed)
            },
            final(self)@ == if ok && admission.open is Some {
                old(self)@.with_file(admission.request.target(), admission.open->0)
            } else {
                old(self)@
            },
            final(self)@ == old(self)@.file_reported(*admission, ok),
    {
        if !ok {
            return Err(UringError::OpenFailed);
        }
        if let Some(flags) = admission.open {
            let path = match &admission.request {
                IoUringRequest::Write { path, .. } => PathKey::of(path.as_str()),
                IoUringRequest::Read { path, .. } => PathKey::of(path.as_str()),
            };
            let ghost before = self.open_files@;
            self.open_files.push(OpenFile { path, writable: flags.write });
            assert(self.open_files@.drop_last() =~= before);
        }
        Ok(())
    }

    /// Takes note of whether the ring accepted the operation of an admitted
    /// request.
    pub fn pushed(&mut self, admission: &Admission, ok: bool) -> (r: Result<(), UringError>)
        ensures
            r == if ok {
                Ok::<(), UringError>(())
            } else {
                Err(UringError::QueueFull)
            },
            final(self)@ == if ok {
                old(self)@.submitted(admission.user_data, admission.request.operation())
            } else {
                old(self)@
            },
            final(self)@ == old(self)@.push_reported(*admission, ok),
            forall|next: u64|
                old(self)@.ids_below(next) && 0 < admission.user_data < next
                    ==> #[trigger] final(self)@.ids_below(next),
    {
        if !ok {
            return Err(UringError::QueueFull);
        }
        let op = match &admission.request {
            IoUringRequest::Write { .. } => PendingOperation::Write,
            IoUringRequest::Read { .. } => PendingOperation::Read,
        };
        self.pending_ops.insert(admission.user_data, op);
        Ok(())
    }

    /// Ends an operation, and says what to reply. A completion for which there
    /// is no operation has no reply.
    pub fn complete(&mut self, completion: Completion) -> (reply: Option<Reply>)
        requires
            completion.result > i32::MIN,
        ensures
            view_of(reply) == old(self)@.reply(
                completion.user_data,
                completion.result,
                completion.buf@,
            ),
            final(self)@ == old(self)@.completed(completion.user_data),
    {
        let ghost before = self@;
        let op = self.pending_ops.remove(&completion.user_data);
        assert(self@ =~= before.completed(completion.user_data));
        match op {
            Some(PendingOperation::Write) => Some(
                Reply::Wrote(
                    if completion.result < 0 {
                        Err(UringError::Os(-completion.result))
                    } else {
                        Ok(completion.result as usize)
                    },
                ),
            ),
            Some(PendingOperation::Read) => {
                if completion.result < 0 {
                    return Some(Reply::Got(Err(UringError::Os(-completion.result))));
                }
                let size: usize = completion.result as usize;
                let mut buf = completion.buf;
                if size <= buf.len() {
                    buf.truncate(size);
                }
                Some(Reply::Got(Ok(buf)))
            },
            None => None,
        }
    }

    /// Takes the completions that the ring has reported, in order, and says what
    /// to reply to whom.
    pub fn process_completions(&mut self, completions: Vec<Completion>) -> (deliveries: Vec<
        (u64, Option<Reply>),
    >)
        requires
            forall|i: int|
                0 <= i < completions@.len() ==> (#[trigger] completions@[i]).result > i32::MIN,
        ensures
            deliveries@.len() == completions@.len(),
            forall|i: int|
                0 <= i < deliveries@.len() ==> ((#[trigger] deliveries@[i]).0, view_of(
                    deliveries@[i].1,
                )) == old(self)@.delivery(completions@, i),
            final(self)@ == old(self)@.all_completed(completions@),
    {
        let ghost before = self@;
        let ghost reported = completions@;
        let mut deliveries: Vec<(u64, Option<Reply>)> = Vec::new();
        assert(reported.take(0) =~= Seq::<Completion>::empty());
        for completion in iter: completions
            invariant
                iter.seq() == reported,
                forall|i: int|
                    0 <= i < reported.len() ==> (#[trigger] reported[i]).result > i32::MIN,
                deliveries@.len() == iter.index(),
                forall|i: int|
                    0 <= i < deliveries@.len() ==> ((#[trigger] deliveries@[i]).0, view_of(
                        deliveries@[i].1,
                    )) == before.delivery(reported, i),
                self@ == before.all_completed(reported.take(iter.index())),
        {
            let ghost n = iter.index();
            assert(completion == reported[n]);
            let user_data: u64 = completion.user_data;
            let reply = self.complete(completion);
            deliveries.push((user_data, reply));
            assert(reported.take(n + 1).drop_last() =~= reported.take(n));
        }
        assert(reported.take(reported.len() as int) =~= reported);
        deliveries
    }

    /// What to do after what was queued went to the kernel, or failed to: wait
    /// for the operations under way, or else for a request.
    pub fn next_move(&self, submitted: bool) -> (next: NextMove)
        ensures
            next == if !submitted {
                NextMove::Stop
            } else if self@.pending != Map::<u64, PendingOperation>::empty() {
                NextMove::AwaitCompletion
            } else {
                NextMove::AwaitRequest
            },
            next == self@.next_move(submitted),
    {
        if !submitted {
            return NextMove::Stop;
        }
        if self.pending_ops.is_empty() {
            assert(self@.pending =~= Map::<u64, PendingOperation>::empty());
            NextMove::AwaitRequest
        } else {
            NextMove::AwaitCompletion
        }
    }
}

/// A request, and whether its file could be opened, if it had to be.
pub struct Turn {
    pub request: IoUringRequest,
    pub opens: bool,
}

/// A ring's books, and how the files are really open.
pub struct RingView {
    pub state: UringState,
    pub handles: Map<PathView, OpenFlags>,
}

impl RingView {
    /// Nothing under way, no file open.
    pub open spec fn start() -> RingView {
        RingView { state: UringState::idle(), handles: Map::empty() }
    }

    /// After a request. Its file is opened as the books ask for, or that fails.
    pub open spec fn after(self, turn: Turn) -> RingView {
        match self.state.opening(turn.request) {
            Some(flags) if turn.opens => RingView {
                state: self.state.with_file(turn.request.target(), flags),
                handles: self.handles.insert(turn.request.target(), flags),
            },
            _ => self,
        }
    }

    /// After all of `turns`, in order.
    pub open spec fn after_all(self, turns: Seq<Turn>) -> RingView
        decreases turns.len(),
    {
        if turns.len() == 0 {
            self
        } else {
            self.after_all(turns.drop_last()).after(turns.last())
        }
    }

    /// The books say of every file how it is open.
    pub open spec fn accurate(self) -> bool {
        &&& self.state.open_files.dom() == self.handles.dom()
        &&& forall|path: PathView| #[trigger]
            self.handles.contains_key(path) ==> self.handles[path].read
                && self.handles[path].write == self.state.open_files[path]
    }
}

/// After any series of requests, one that is not asked to open its file finds it
/// open in a way that permits what it wants, and so does one whose file could be
/// opened.
pub proof fn law_request_finds_usable_handle(turns: Seq<Turn>, turn: Turn)
    ensures
        ({
            let ring = RingView::start().after_all(turns);
            let then = ring.after(turn);
            let path = turn.request.target();
            ring.state.opening(turn.request) is None || turn.opens ==> {
                &&& then.handles.contains_key(path)
                &&& then.handles[path].read
                &&& turn.request.operation() == PendingOperation::Write
                    ==> then.handles[path].write
            }
        }),
{
    lemma_books_accurate(turns);
}

/// The books stay accurate.
proof fn lemma_books_accurate(turns: Seq<Turn>)
    ensures
        RingView::start().after_all(turns).accurate(),
    decreases turns.len(),
{
    let ring = RingView::start().after_all(turns);
    if turns.len() > 0 {
        lemma_books_accurate(turns.drop_last());
    }
    assert(ring.state.open_files.dom() =~= ring.handles.dom());
}

/// A requester learns what the ring reported: how many bytes were written, or the
/// bytes that were read and no others; or else the error number, without its sign.
pub proof fn law_reply_tells_what_happened(result: i32, buf: Seq<u8>)
    requires
        result > i32::MIN,
    ensures
        result >= 0 ==> {
            &&& reply_to(PendingOperation::Write, result, buf) == ReplyView::Wrote(
                Ok::<usize, UringError>(result as usize),
            )
            &&& reply_to(PendingOperation::Read, result, buf) matches ReplyView::Got(Ok(bytes))
            &&& bytes.is_prefix_of(buf)
            &&& bytes.len() == if result < buf.len() {
                result as nat
            } else {
                buf.len()
            }
        },
        result < 0 ==> {
            &&& reply_to(PendingOperation::Write, result, buf) matches ReplyView::Wrote(
                Err(UringError::Os(w)),
            )
            &&& w == -result
            &&& reply_to(PendingOperation::Read, result, buf) matches ReplyView::Got(
                Err(UringError::Os(r)),
            )
            &&& r == -result
        },
{
}

/// What is under way after a series of completions.
proof fn lemma_all_completed(s: UringState, completions: Seq<Completion>, id: u64)
    ensures
        s.all_completed(completions).pending.contains_key(id) <==> s.pending.contains_key(id)
            && forall|j: int|
            0 <= j < completions.len() ==> (#[trigger] completions[j]).user_data != id,
        s.all_completed(completions).pending.contains_key(id) ==> s.all_completed(
            completions,
        ).pending[id] == s.pending[id],
        s.all_completed(completions).open_files == s.open_files,
    decreases completions.len(),
{
    if completions.len() > 0 {
        let front = completions.drop_last();
        lemma_all_completed(s, front, id);
        assert forall|j: int| 0 <= j < front.len() implies front[j] == completions[j] by {}
        if s.all_completed(completions).pending.contains_key(id) {
            assert forall|j: int| 0 <= j < completions.len() implies (
            #[trigger] completions[j]).user_data != id by {
                if j < front.len() {
                    assert(front[j].user_data != id);
                }
            }
        }
        if s.pending.contains_key(id) && forall|j: int|
            0 <= j < completions.len() ==> (#[trigger] completions[j]).user_data != id {
            assert forall|j: int| 0 <= j < front.len() implies (#[trigger] front[j]).user_data
                != id by {
                assert(completions[j].user_data != id);
            }
            assert(completions[completions.len() - 1].user_data != id);
        }
    }
}

/// Of the completions that are taken together, each goes to the operation that it
/// names. The first one for an operation under way is its answer; a further one, and
/// one for an operation that is not under way, has none. All that were answered are
/// over, and the others still under way.
pub proof fn law_completions_find_their_operations(
    s: UringState,
    completions: Seq<Completion>,
    i: int,
    id: u64,
)
    requires
        0 <= i < completions.len(),
    ensures
        ({
            let c = completions[i];
            let first = forall|j: int|
                0 <= j < i ==> (#[trigger] completions[j]).user_data != c.user_data;
            let (to, reply) = s.delivery(completions, i);
            &&& to == c.user_data
            &&& reply is Some <==> s.pending.contains_key(c.user_data) && first
            &&& reply is Some ==> reply == Some(
                reply_to(s.pending[c.user_data], c.result, c.buf@),
            )
        }),
        s.all_completed(completions).pending.contains_key(id) <==> s.pending.contains_key(id)
            && forall|j: int|
            0 <= j < completions.len() ==> (#[trigger] completions[j]).user_data != id,
{
    let c = completions[i];
    let before = completions.take(i);
    lemma_all_completed(s, before, c.user_data);
    lemma_all_completed(s, completions, id);
    assert forall|j: int| 0 <= j < i implies before[j] == completions[j] by {}
    if s.delivery(completions, i).1 is Some {
        assert forall|j: int| 0 <= j < i implies (#[trigger] completions[j]).user_data
            != c.user_data by {
            assert(before[j].user_data != c.user_data);
        }
    }
    if forall|j: int| 0 <= j < i ==> (#[trigger] completions[j]).user_data != c.user_data {
        assert forall|j: int| 0 <= j < before.len() implies (#[trigger] before[j]).user_data
            != c.user_data by {
            assert(completions[j].user_data != c.user_data);
        }
    }
}

/// A file is opened for a write with everything that a write needs, emptied, and
/// made if it is not there. For a read it is opened as it is, and never made, changed
/// or emptied.
pub proof fn law_how_files_are_opened(s: UringState, request: IoUringRequest)
    ensures
        s.opening(request) matches Some(flags) ==> {
            &&& flags.read
            &&& request is Write ==> flags.create && flags.write && flags.truncate
            &&& request is Read ==> !flags.create && !flags.write && !flags.truncate
        },
        !s.open_files.contains_key(request.target()) ==> s.opening(request) is Some,
        request is Read && s.open_files.contains_key(request.target()) ==> s.opening(
            request,
        ) is None,
{
}

/// A file that was opened for a write is not opened again, and so not emptied again,
/// whatever is asked for afterwards and under whatever spelling.
pub proof fn law_written_file_is_not_emptied(s: UringState, turns: Seq<Turn>, turn: Turn)
    requires
        s.open_files.contains_key(turn.request.target()),
        s.open_files[turn.request.target()],
    ensures
        ({
            let handles = Map::<PathView, OpenFlags>::empty();
            let ring = (RingView { state: s, handles }).after_all(turns);
            &&& ring.state.open_files.contains_key(turn.request.target())
            &&& ring.state.open_files[turn.request.target()]
            &&& ring.state.opening(turn.request) is None
            &&& ring.after(turn) == ring
        }),
    decreases turns.len(),
{
    if turns.len() > 0 {
        law_written_file_is_not_emptied(s, turns.drop_last(), turn);
    }
}

/// A file that could be opened serves the request that it was opened for, and from
/// then on every request of that kind; one that could not be leaves the books alone.
/// An operation is under way exactly when the ring took it.
pub proof fn law_reports_are_booked(
    s: UringState,
    admission: Admission,
    later: IoUringRequest,
    id: u64,
)
    requires
        admission.open == s.opening(admission.request),
        later.target() == admission.request.target(),
        later.operation() == admission.request.operation(),
    ensures
        s.file_reported(admission, true).opening(admission.request) is None,
        s.file_reported(admission, true).opening(later) is None,
        s.file_reported(admission, true).pending == s.pending,
        s.file_reported(admission, false) == s,
        s.push_reported(admission, true).pending.contains_key(admission.user_data),
        s.push_reported(admission, true).pending[admission.user_data]
            == admission.request.operation(),
        id != admission.user_data ==> (s.push_reported(admission, true).pending.contains_key(id)
            <==> s.pending.contains_key(id)),
        s.push_reported(admission, true).open_files == s.open_files,
        s.push_reported(admission, false) == s,
{
}

/// As long as an operation is under way, its completion is waited for; a request only
/// when there is none. The ring stops exactly when nothing can be submitted.
pub proof fn law_what_to_wait_for(s: UringState, submitted: bool)
    ensures
        s.next_move(submitted) == NextMove::Stop <==> !submitted,
        s.next_move(submitted) == NextMove::AwaitCompletion <==> submitted && exists|id: u64|
            s.pending.contains_key(id),
        s.next_move(submitted) == NextMove::AwaitRequest <==> submitted && forall|id: u64|
            !s.pending.contains_key(id),
{
    if forall|id: u64| !s.pending.contains_key(id) {
        assert(s.pending =~= Map::<u64, PendingOperation>::empty());
    }
}

} // verus!
