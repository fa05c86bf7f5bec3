//! The group-commit decisions of the binary chain's background writer:
//! which appends wait for a write, when the batch is written, and who hears
//! the outcome of each write. The caller owns the command queue, the clock
//! and the file: it hands each command or write outcome in and performs
//! what comes back.
use vstd::prelude::*;

verus! {

/// Number of buffered records after which a non-durable append forces a
/// write.
pub const FLUSH_THRESHOLD: usize = 16;

/// How many commands may wait in the writer's queue.
pub const BACKGROUND_WRITE_QUEUE_CAPACITY: usize = FLUSH_THRESHOLD * 8;

/// What the writer does once the write under way has its outcome.
#[derive(Debug, Clone, Copy, PartialEq, Eq, Structural)]
pub enum AfterWrite {
    /// Go back to waiting for commands.
    Resume,
    /// Answer the flush request, then go back to waiting.
    ReplyFlush,
    /// Answer the shutdown request, then close.
    ReplyShutdown,
    /// Close; nobody is left to answer.
    Close,
}

/// Where the writer stands.
#[derive(Debug, Clone, Copy, PartialEq, Eq, Structural)]
pub enum WriterPhase {
    /// Waiting for the next command.
    Idle,
    /// A durable append arrived: later appends join its batch until the
    /// commit window closes or a flush or shutdown arrives.
    Collecting,
    /// The batch is being written.
    Writing(AfterWrite),
    /// The loop has ended; what is left is being written.
    Closing,
    /// Done.
    Stopped,
}

/// What the caller does next.
#[derive(Debug, Clone, Copy, PartialEq, Eq, Structural)]
pub enum WriterNext {
    /// Wait for the next command.
    Receive,
    /// Wait for the next command until the commit window closes.
    ReceiveUntilDeadline,
    /// Append the step's bytes to the file, flush it, and report the outcome.
    Write,
    /// End the writer.
    Stop,
}

/// One command taken off the writer's queue, or what the queue said
/// instead.
pub enum WriterCommand {
    /// A length-prefixed record; a durable one waits for the write that
    /// carries it.
    Append { payload: Vec<u8>, durable: bool },
    /// Write everything buffered and answer.
    Flush,
    /// Write everything buffered, answer and end.
    Shutdown,
    /// The commit window closed with no command.
    WindowClosed,
    /// Every sender is gone.
    Disconnected,
}

/// What the caller does after handing a command or outcome in.
pub struct WriterStep {
    /// How many waiting durable appends hear the outcome now.
    pub answer_durable: usize,
    /// Whether the pending flush or shutdown request hears the outcome now.
    pub answer_requester: bool,
    /// The outcome they hear.
    pub ok: bool,
    /// Whether a write failed, to be kept as the writer's error.
    pub failed: bool,
    /// What to do next.
    pub next: WriterNext,
    /// The bytes to write when `next` is `Write`; empty otherwise.
    pub bytes: Vec<u8>,
}

/// The bytes of the payloads, one after another.
pub open spec fn flatten(parts: Seq<Seq<u8>>) -> Seq<u8>
    decreases parts.len(),
{
    if parts.len() == 0 {
        Seq::empty()
    } else {
        flatten(parts.drop_last()) + parts.last()
    }
}

/// The writer as its decisions see it: the payloads accepted since the last
/// successful write, the number of durable appends waiting for an answer,
/// and the phase.
pub type WriterModel = (Seq<Seq<u8>>, nat, WriterPhase);

/// A step as its decisions see it: durable appends answered, whether the
/// requester is answered, the outcome, whether a write failed, what comes
/// next and the bytes to write.
pub type StepModel = (nat, bool, bool, bool, WriterNext, Seq<u8>);

/// A step that answers nobody.
pub open spec fn quiet(next: WriterNext, bytes: Seq<u8>) -> StepModel {
    (0, false, true, false, next, bytes)
}

/// The end of the loop: what is buffered is written once more, if anything.
pub open spec fn close(acc: Seq<Seq<u8>>) -> (WriterModel, WriterNext, Seq<u8>) {
    if flatten(acc).len() > 0 {
        ((acc, 0, WriterPhase::Closing), WriterNext::Write, flatten(acc))
    } else {
        ((acc, 0, WriterPhase::Stopped), WriterNext::Stop, Seq::empty())
    }
}

/// The outcome of a write (`wrote`) or of a flush with nothing to write:
/// every waiting durable append and the requester hear it; a successful
/// write empties the batch; a failure, a shutdown or a lost queue ends the
/// loop.
pub open spec fn finish(acc: Seq<Seq<u8>>, waiting: nat, after: AfterWrite, ok: bool, wrote: bool) -> (WriterModel, StepModel) {
    let rest = if ok && wrote {
        Seq::empty()
    } else {
        acc
    };
    let requester = after == AfterWrite::ReplyFlush || after == AfterWrite::ReplyShutdown;
    if !ok || after == AfterWrite::ReplyShutdown || after == AfterWrite::Close {
        let (m, next, bytes) = close(rest);
        (m, (waiting, requester, ok, !ok, next, bytes))
    } else {
        ((rest, 0, WriterPhase::Idle), (waiting, requester, ok, !ok, WriterNext::Receive, Seq::empty()))
    }
}

/// Writing the batch: with bytes to write they go out; with none, the
/// flush succeeds at once.
pub open spec fn begin_write(acc: Seq<Seq<u8>>, waiting: nat, after: AfterWrite) -> (WriterModel, StepModel) {
    if flatten(acc).len() > 0 {
        ((acc, waiting, WriterPhase::Writing(after)), quiet(WriterNext::Write, flatten(acc)))
    } else {
        finish(acc, waiting, after, true, false)
    }
}

/// How the writer takes a command.
pub open spec fn command_step(m: WriterModel, cmd: WriterCommand) -> (WriterModel, StepModel) {
    let (acc, waiting, phase) = m;
    match phase {
        WriterPhase::Idle => match cmd {
            WriterCommand::Append { payload, durable } => {
                let acc2 = acc.push(payload@);
                if durable {
                    ((acc2, waiting + 1, WriterPhase::Collecting), quiet(WriterNext::ReceiveUntilDeadline, Seq::empty()))
                } else if acc2.len() >= FLUSH_THRESHOLD {
                    begin_write(acc2, waiting, AfterWrite::Resume)
                } else {
                    ((acc2, waiting, WriterPhase::Idle), quiet(WriterNext::Receive, Seq::empty()))
                }
            },
            WriterCommand::Flush => begin_write(acc, waiting, AfterWrite::ReplyFlush),
            WriterCommand::Shutdown => begin_write(acc, waiting, AfterWrite::ReplyShutdown),
            WriterCommand::WindowClosed => (m, quiet(WriterNext::Receive, Seq::empty())),
            WriterCommand::Disconnected => {
                let (m2, next, bytes) = close(acc);
                (m2, quiet(next, bytes))
            },
        },
        WriterPhase::Collecting => match cmd {
            WriterCommand::Append { payload, durable } => (
                (acc.push(payload@), if durable { waiting + 1 } else { waiting }, WriterPhase::Collecting),
                quiet(WriterNext::ReceiveUntilDeadline, Seq::empty()),
            ),
            WriterCommand::Flush => begin_write(acc, waiting, AfterWrite::ReplyFlush),
            WriterCommand::Shutdown => begin_write(acc, waiting, AfterWrite::ReplyShutdown),
            WriterCommand::WindowClosed => begin_write(acc, waiting, AfterWrite::Resume),
            WriterCommand::Disconnected => begin_write(acc, waiting, AfterWrite::Close),
        },
        WriterPhase::Writing(_) => (m, quiet(WriterNext::Write, flatten(acc))),
        WriterPhase::Closing => (m, quiet(WriterNext::Write, flatten(acc))),
        WriterPhase::Stopped => (m, quiet(WriterNext::Stop, Seq::empty())),
    }
}

/// How the writer takes the outcome of the write it asked for.
pub open spec fn written_step(m: WriterModel, ok: bool) -> (WriterModel, StepModel) {
    let (acc, waiting, phase) = m;
    match phase {
        WriterPhase::Writing(after) => finish(acc, waiting, after, ok, true),
        WriterPhase::Closing => if ok {
            ((Seq::empty(), 0, WriterPhase::Stopped), quiet(WriterNext::Stop, Seq::empty()))
        } else {
            ((acc, 0, WriterPhase::Stopped), (0, false, false, true, WriterNext::Stop, Seq::empty()))
        },
        WriterPhase::Idle => (m, quiet(WriterNext::Receive, Seq::empty())),
        WriterPhase::Collecting => (m, quiet(WriterNext::ReceiveUntilDeadline, Seq::empty())),
        WriterPhase::Stopped => (m, quiet(WriterNext::Stop, Seq::empty())),
    }
}

/// The bytes a command adds to the batch: the payload of an append the
/// writer takes, nothing otherwise.
pub open spec fn taken_payload(m: WriterModel, cmd: WriterCommand) -> Seq<u8> {
    match cmd {
        WriterCommand::Append { payload, durable } => if m.2 is Idle || m.2 is Collecting {
            payload@
        } else {
            Seq::empty()
        },
        _ => Seq::empty(),
    }
}

/// Whether a command is a durable append the writer takes.
pub open spec fn takes_durable(m: WriterModel, cmd: WriterCommand) -> bool {
    match cmd {
        WriterCommand::Append { payload, durable } => durable && (m.2 is Idle || m.2 is Collecting),
        _ => false,
    }
}

/// Nobody waits for an answer while the writer waits for a command with no
/// batch open, or ends.
pub open spec fn settled(m: WriterModel) -> bool {
    (m.2 is Idle || m.2 is Closing || m.2 is Stopped) ==> m.1 == 0
}

/// No command loses, repeats or reorders a record: the buffered bytes and
/// the bytes a command brings are the bytes buffered after it.
pub proof fn lemma_command_keeps_records(m: WriterModel, cmd: WriterCommand)
    ensures
        flatten(command_step(m, cmd).0.0) == flatten(m.0) + taken_payload(m, cmd),
{
    match cmd {
        WriterCommand::Append { payload, durable } => {
            if m.2 is Idle || m.2 is Collecting {
                assert(m.0.push(payload@).drop_last() =~= m.0);
            } else {
                assert(flatten(m.0) + Seq::<u8>::empty() =~= flatten(m.0));
            }
        },
        _ => {
            assert(flatten(m.0) + Seq::<u8>::empty() =~= flatten(m.0));
        },
    }
}

/// A write that succeeds takes the whole batch to the file and leaves
/// nothing buffered; a write that fails leaves the batch as it was.
pub proof fn lemma_write_outcome(m: WriterModel, ok: bool)
    ensures
        written_step(m, ok).0.0 == if ok && (m.2 is Writing || m.2 is Closing) {
            Seq::<Seq<u8>>::empty()
        } else {
            m.0
        },
        (m.2 is Writing || m.2 is Closing) ==> (written_step(m, ok).1.2 == ok && written_step(m, ok).1.3 == !ok),
{
}

/// Every durable append the writer takes is answered exactly once: what
/// waits after a command, with what the command answers, is what waited
/// before and the durable append it took.
pub proof fn lemma_command_answers_durable(m: WriterModel, cmd: WriterCommand)
    requires
        settled(m),
    ensures
        settled(command_step(m, cmd).0),
        command_step(m, cmd).0.1 + command_step(m, cmd).1.0 == m.1 + if takes_durable(m, cmd) {
            1int
        } else {
            0int
        },
{
}

/// The outcome of a write answers every durable append that waited for it.
pub proof fn lemma_write_answers_durable(m: WriterModel, ok: bool)
    requires
        settled(m),
    ensures
        settled(written_step(m, ok).0),
        written_step(m, ok).0.1 + written_step(m, ok).1.0 == m.1,
        m.2 is Writing ==> written_step(m, ok).0.1 == 0 && written_step(m, ok).1.0 == m.1,
{
}

impl WriterStep {
    /// The step as a model.
    pub open spec fn model(&self) -> StepModel {
        (self.answer_durable as nat, self.answer_requester, self.ok, self.failed, self.next, self.bytes@)
    }
}

/// The state of the background writer.
pub struct GroupCommit {
    /// The accepted bytes not yet written.
    pub buffer: Vec<u8>,
    /// The number of records in `buffer`.
    pub dirty: usize,
    /// Durable appends waiting for the outcome of a write.
    pub waiting: usize,
    /// Where the writer stands.
    pub phase: WriterPhase,
    /// The records in `buffer`, in arrival order.
    pub accepted: Ghost<Seq<Seq<u8>>>,
}

impl GroupCommit {
    /// The writer as its decisions see it.
    pub open spec fn model(&self) -> WriterModel {
        (self.accepted@, self.waiting as nat, self.phase)
    }

    /// The buffer holds the accepted records in order, `dirty` counts them,
    /// the waiting durable appends are among them, and nobody waits unless a
    /// batch is being collected or written.
    pub open spec fn wf(&self) -> bool {
        &&& self.buffer@ == flatten(self.accepted@)
        &&& self.dirty == self.accepted@.len()
        &&& self.waiting <= self.dirty
        &&& (self.phase is Idle || self.phase is Closing || self.phase is Stopped) ==> self.waiting == 0
    }

    /// A writer waiting for its first command.
    pub fn new() -> (r: GroupCommit)
        ensures
            r.wf(),
            r.model() == (Seq::<Seq<u8>>::empty(), 0nat, WriterPhase::Idle),
    {
        GroupCommit { buffer: Vec::new(), dirty: 0, waiting: 0, phase: WriterPhase::Idle, accepted: Ghost(Seq::empty()) }
    }

    /// A copy of the buffered bytes.
    fn copy_buffer(&self) -> (r: Vec<u8>)
        ensures
            r@ == self.buffer@,
    {
        let mut bytes: Vec<u8> = Vec::new();
        let mut i: usize = 0;
        while i < self.buffer.len()
            invariant
                i <= self.buffer@.len(),
                bytes@ == self.buffer@.take(i as int),
            decreases self.buffer@.len() - i,
        {
            bytes.push(self.buffer[i]);
            i = i + 1;
            assert(bytes@ =~= self.buffer@.take(i as int));
        }
        assert(bytes@ =~= self.buffer@);
        bytes
    }

    /// Ends the loop: what is buffered is written once more, if anything.
    fn close(&mut self) -> (r: (WriterNext, Vec<u8>))
        requires
            old(self).wf(),
            old(self).waiting == 0,
        ensures
            final(self).wf(),
            (final(self).model(), r.0, r.1@) == close(old(self).accepted@),
    {
        if self.buffer.len() > 0 {
            self.phase = WriterPhase::Closing;
            let b = self.copy_buffer();
            (WriterNext::Write, b)
        } else {
            self.phase = WriterPhase::Stopped;
            (WriterNext::Stop, Vec::new())
        }
    }

    /// Answers the outcome of a write, or of a flush with nothing to write.
    fn finish(&mut self, after: AfterWrite, ok: bool, wrote: bool) -> (r: WriterStep)
        requires
            old(self).wf(),
        ensures
            final(self).wf(),
            (final(self).model(), r.model()) == finish(old(self).accepted@, old(self).waiting as nat, after, ok, wrote),
    {
        let answer_durable = self.waiting;
        if ok && wrote {
            self.buffer = Vec::new();
            self.dirty = 0;
            self.accepted = Ghost(Seq::empty());
        }
        self.waiting = 0;
        let requester = after == AfterWrite::ReplyFlush || after == AfterWrite::ReplyShutdown;
        if !ok || after == AfterWrite::ReplyShutdown || after == AfterWrite::Close {
            let (next, bytes) = self.close();
            WriterStep { answer_durable, answer_requester: requester, ok, failed: !ok, next, bytes }
        } else {
            self.phase = WriterPhase::Idle;
            WriterStep { answer_durable, answer_requester: requester, ok, failed: !ok, next: WriterNext::Receive, bytes: Vec::new() }
        }
    }

    /// Writes the batch, or finishes at once when there is nothing to write.
    fn begin_write(&mut self, after: AfterWrite) -> (r: WriterStep)
        requires
            old(self).wf(),
            old(self).phase is Idle || old(self).phase is Collecting,
        ensures
            final(self).wf(),
            (final(self).model(), r.model()) == begin_write(old(self).accepted@, old(self).waiting as nat, after),
    {
        if self.buffer.len() > 0 {
            self.phase = WriterPhase::Writing(after);
            let bytes = self.copy_buffer();
            WriterStep { answer_durable: 0, answer_requester: false, ok: true, failed: false, next: WriterNext::Write, bytes }
        } else {
            self.finish(after, true, false)
        }
    }

    /// Adds a record to the buffer.
    fn accept(&mut self, payload: Vec<u8>)
        requires
            old(self).wf(),
            old(self).dirty < usize::MAX,
        ensures
            final(self).accepted@ == old(self).accepted@.push(payload@),
            final(self).buffer@ == flatten(final(self).accepted@),
            final(self).dirty == final(self).accepted@.len(),
            final(self).waiting == old(self).waiting,
            final(self).phase == old(self).phase,
    {
        let ghost acc = self.accepted@.push(payload@);
        let mut p = payload;
        self.buffer.append(&mut p);
        self.dirty = self.dirty + 1;
        self.accepted = Ghost(acc);
        assert(acc.drop_last() =~= old(self).accepted@);
    }

    /// Takes a command off the queue and says what to do next.
    pub fn step(&mut self, cmd: WriterCommand) -> (r: WriterStep)
        requires
            old(self).wf(),
            cmd is Append ==> old(self).dirty < usize::MAX,
        ensures
            final(self).wf(),
            (final(self).model(), r.model()) == command_step(old(self).model(), cmd),
    {
        let ghost m = self.model();
        match self.phase {
            WriterPhase::Idle => match cmd {
                WriterCommand::Append { payload, durable } => {
                    self.accept(payload);
                    if durable {
                        self.waiting = self.waiting + 1;
                        self.phase = WriterPhase::Collecting;
                        WriterStep { answer_durable: 0, answer_requester: false, ok: true, failed: false, next: WriterNext::ReceiveUntilDeadline, bytes: Vec::new() }
                    } else if self.dirty >= FLUSH_THRESHOLD {
                        self.begin_write(AfterWrite::Resume)
                    } else {
                        WriterStep { answer_durable: 0, answer_requester: false, ok: true, failed: false, next: WriterNext::Receive, bytes: Vec::new() }
                    }
                },
                WriterCommand::Flush => self.begin_write(AfterWrite::ReplyFlush),
                WriterCommand::Shutdown => self.begin_write(AfterWrite::ReplyShutdown),
                WriterCommand::WindowClosed => {
                    WriterStep { answer_durable: 0, answer_requester: false, ok: true, failed: false, next: WriterNext::Receive, bytes: Vec::new() }
                },
                WriterCommand::Disconnected => {
                    let (next, bytes) = self.close();
                    WriterStep { answer_durable: 0, answer_requester: false, ok: true, failed: false, next, bytes }
                },
            },
            WriterPhase::Collecting => match cmd {
                WriterCommand::Append { payload, durable } => {
                    self.accept(payload);
                    if durable {
                        self.waiting = self.waiting + 1;
                    }
                    WriterStep { answer_durable: 0, answer_requester: false, ok: true, failed: false, next: WriterNext::ReceiveUntilDeadline, bytes: Vec::new() }
                },
                WriterCommand::Flush => self.begin_write(AfterWrite::ReplyFlush),
                WriterCommand::Shutdown => self.begin_write(AfterWrite::ReplyShutdown),
                WriterCommand::WindowClosed => self.begin_write(AfterWrite::Resume),
                WriterCommand::Disconnected => self.begin_write(AfterWrite::Close),
            },
            WriterPhase::Writing(_) | WriterPhase::Closing => {
                let bytes = self.copy_buffer();
                WriterStep { answer_durable: 0, answer_requester: false, ok: true, failed: false, next: WriterNext::Write, bytes }
            },
            WriterPhase::Stopped => {
                WriterStep { answer_durable: 0, answer_requester: false, ok: true, failed: false, next: WriterNext::Stop, bytes: Vec::new() }
            },
        }
    }

    /// Takes the outcome of the write it asked for and says what to do next.
    pub fn written(&mut self, ok: bool) -> (r: WriterStep)
        requires
            old(self).wf(),
        ensures
            final(self).wf(),
            (final(self).model(), r.model()) == written_step(old(self).model(), ok),
    {
        match self.phase {
            WriterPhase::Writing(after) => self.finish(after, ok, true),
            WriterPhase::Closing => {
                if ok {
                    self.buffer = Vec::new();
                    self.dirty = 0;
                    self.accepted = Ghost(Seq::empty());
                }
                self.phase = WriterPhase::Stopped;
                WriterStep { answer_durable: 0, answer_requester: false, ok, failed: !ok, next: WriterNext::Stop, bytes: Vec::new() }
            },
            WriterPhase::Idle => {
                WriterStep { answer_durable: 0, answer_requester: false, ok: true, failed: false, next: WriterNext::Receive, bytes: Vec::new() }
            },
            WriterPhase::Collecting => {
                WriterStep { answer_durable: 0, answer_requester: false, ok: true, failed: false, next: WriterNext::ReceiveUntilDeadline, bytes: Vec::new() }
            },
            WriterPhase::Stopped => {
                WriterStep { answer_durable: 0, answer_requester: false, ok: true, failed: false, next: WriterNext::Stop, bytes: Vec::new() }
            },
        }
    }
}

} // verus!
