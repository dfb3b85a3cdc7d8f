//! One client's session: what to do next with the bytes at hand, and what to
//! answer to each command.
//!
//! The session performs no I/O. [`Session::next_step`] looks at the input
//! that has arrived and says what the owner of the socket has to do: read
//! more, run a command, or hang up. [`execute`] runs a command against the
//! job store and returns the bytes of the response.
use crate::buffer::{BufferView, FrameBuffer};
use crate::command::{Command, CommandView};
use crate::decimal::{decimal_text, push_decimal};
use crate::decode::{
    decode, decode_spec, line_end, DecodeResult, DecodeView, InvalidReason, LINE_END,
};
use crate::store::{JobStore, StoreView};
use vstd::prelude::*;
use vstd::string::StringSliceAdditionalSpecFns;

verus! {

/// The priority that `put` gives a job.
pub const DEFAULT_PRIORITY: u32 = 1;

/// The delay that `put` gives a job.
pub const DEFAULT_DELAY: u32 = 1;

/// The time to run that `put` gives a job.
pub const DEFAULT_TTR: u32 = 1;

/// The response to `delete`.
pub const DELETED: &'static str = "DELETED\r\n";

/// The response to `release`.
pub const RELEASED: &'static str = "RELEASED\r\n";

/// The response to a `delete` or `release` that did not apply.
pub const NOT_FOUND: &'static str = "NOT FOUND\r\n";

/// The response to a `reserve` while no job is ready.
pub const TIMED_OUT: &'static str = "TIMED_OUT\r\n";

/// The response to `watch`: one tube is watched.
pub const WATCHING: &'static str = "WATCHING 1\r\n";

/// The response to the `peek` verbs: there is nothing to peek at.
pub const NOTHING_TO_PEEK: &'static str = "NOT_FOUND\r\n";

/// The response to a command whose verb was recognised and whose form is
/// wrong.
pub const BAD_FORMAT: &'static str = "BAD_FORMAT\r\n";

/// The list of tubes: the one tube that there is.
pub const TUBE_LIST: &'static str = "default";

/// The statistics of the one tube. The counters are fixed.
pub const TUBE_STATS: &'static str =
    "name: default\ncurrent-jobs-urgent: 0\ncurrent-jobs-ready: 0\ncurrent-jobs-reserved: 0\ncurrent-jobs-delayed: 0\ncurrent-jobs-buried: 0\ntotal-jobs: 0\ncurrent-using: 0\ncurrent-waiting: 0\ncurrent-watching: 0\npause: 0\ncmd-delete: 0\ncmd-pause-tube: 0\npause-time-left: 0\n";

/// The response that carries a block of data: its length, then the data.
pub open spec fn ok_block(data: Seq<u8>) -> Seq<u8> {
    "OK ".spec_bytes() + decimal_text(data.len()) + line_end() + data + line_end()
}

/// The response to a `put` that was stored under `id`.
pub open spec fn inserted(id: nat) -> Seq<u8> {
    "INSERTED ".spec_bytes() + decimal_text(id) + line_end()
}

/// The response to a `reserve` that handed out job `id`: the id and the
/// payload's length in the first line, the payload in the second.
pub open spec fn reserved(id: nat, payload: Seq<u8>) -> Seq<u8> {
    "RESERVED ".spec_bytes() + decimal_text(id) + " ".spec_bytes() + decimal_text(payload.len())
        + line_end() + payload + line_end()
}

/// The response to `command` on a store that holds `s`.
pub open spec fn reply(s: StoreView, command: CommandView) -> Seq<u8> {
    match command {
        CommandView::Put { data } => inserted(s.fresh_id()),
        CommandView::Reserve => match s.next_ready() {
            Some(id) => reserved(id, s.jobs[id].payload),
            None => TIMED_OUT.spec_bytes(),
        },
        CommandView::Delete { id } => if s.jobs.contains_key(id as nat) {
            DELETED.spec_bytes()
        } else {
            NOT_FOUND.spec_bytes()
        },
        CommandView::Release { id } => if s.is_reserved(id as nat) {
            RELEASED.spec_bytes()
        } else {
            NOT_FOUND.spec_bytes()
        },
        CommandView::Watch { tube } => WATCHING.spec_bytes(),
        CommandView::UseTube { tube } => "USING ".spec_bytes() + tube + line_end(),
        CommandView::ListTubes => ok_block(TUBE_LIST.spec_bytes()),
        CommandView::StatsTube { tube } => ok_block(TUBE_STATS.spec_bytes()),
        CommandView::PeekReady | CommandView::PeekDelayed | CommandView::PeekBuried =>
            NOTHING_TO_PEEK.spec_bytes(),
    }
}

/// What `command` does to a store that holds `s`.
pub open spec fn effect(s: StoreView, command: CommandView) -> StoreView {
    match command {
        CommandView::Put { data } => s.submit(DEFAULT_PRIORITY, DEFAULT_DELAY, DEFAULT_TTR, data),
        CommandView::Reserve => s.reserve(),
        CommandView::Delete { id } => s.delete(id as nat),
        CommandView::Release { id } => s.release(id as nat),
        _ => s,
    }
}

/// A response made of one fixed line.
fn fixed(text: &str) -> (out: Vec<u8>)
    ensures
        out@ == text.spec_bytes(),
{
    let mut out: Vec<u8> = Vec::new();
    out.extend_from_slice(text.as_bytes());
    assert(out@ =~= text.spec_bytes());
    out
}

/// Appends `bytes` to `out`.
fn push_all(out: &mut Vec<u8>, bytes: &[u8])
    ensures
        final(out)@ == old(out)@ + bytes@,
{
    out.extend_from_slice(bytes);
    assert(final(out)@ =~= old(out)@ + bytes@);
}

/// The response that carries `data` as a block.
fn block(data: &str) -> (out: Vec<u8>)
    ensures
        out@ == ok_block(data.spec_bytes()),
{
    let bytes = data.as_bytes();
    let mut out: Vec<u8> = fixed("OK ");
    push_decimal(&mut out, bytes.len() as u64);
    push_all(&mut out, LINE_END.as_bytes());
    push_all(&mut out, bytes);
    push_all(&mut out, LINE_END.as_bytes());
    out
}

/// Runs `command` against the store and returns the bytes of the response.
pub fn execute(store: &mut JobStore, command: Command) -> (response: Vec<u8>)
    requires
        old(store).wf(),
        command is Put ==> old(store)@.next_id < u64::MAX,
    ensures
        final(store).wf(),
        final(store)@ == effect(old(store)@, command@),
        response@ == reply(old(store)@, command@),
{
    match command {
        Command::Put { data } => {
            let id: u64 = store.submit(DEFAULT_PRIORITY, DEFAULT_DELAY, DEFAULT_TTR, data);
            let mut out: Vec<u8> = fixed("INSERTED ");
            push_decimal(&mut out, id);
            push_all(&mut out, LINE_END.as_bytes());
            out
        },
        Command::Reserve => match store.reserve() {
            Some((id, payload)) => {
                let mut out: Vec<u8> = fixed("RESERVED ");
                push_decimal(&mut out, id);
                push_all(&mut out, " ".as_bytes());
                push_decimal(&mut out, payload.len() as u64);
                push_all(&mut out, LINE_END.as_bytes());
                push_all(&mut out, payload.as_slice());
                push_all(&mut out, LINE_END.as_bytes());
                out
            },
            None => fixed(TIMED_OUT),
        },
        Command::Delete { id } => {
            if store.delete(id) {
                fixed(DELETED)
            } else {
                fixed(NOT_FOUND)
            }
        },
        Command::Release { id } => {
            if store.release(id) {
                fixed(RELEASED)
            } else {
                fixed(NOT_FOUND)
            }
        },
        Command::Watch { tube } => fixed(WATCHING),
        Command::UseTube { tube } => {
            let mut out: Vec<u8> = fixed("USING ");
            push_all(&mut out, tube.as_slice());
            push_all(&mut out, LINE_END.as_bytes());
            out
        },
        Command::ListTubes => block(TUBE_LIST),
        Command::StatsTube { tube } => block(TUBE_STATS),
        Command::PeekReady => fixed(NOTHING_TO_PEEK),
        Command::PeekDelayed => fixed(NOTHING_TO_PEEK),
        Command::PeekBuried => fixed(NOTHING_TO_PEEK),
    }
}

/// What the owner of the socket has to do next.
#[derive(Debug, PartialEq, Eq)]
pub enum Step {
    /// Read once into the session's read target and report the count.
    Read,
    /// Run this command against the store and send the response.
    Execute(Command),
    /// Send these bytes and hang up: the command's form was wrong.
    Reject(Vec<u8>),
    /// Hang up without a word: the bytes name no command.
    Close,
}

/// What the contracts say of a [`Step`].
pub enum StepView {
    Read,
    Execute(CommandView),
    Reject(Seq<u8>),
    Close,
}

impl View for Step {
    type V = StepView;

    open spec fn view(&self) -> StepView {
        match self {
            Step::Read => StepView::Read,
            Step::Execute(command) => StepView::Execute(command@),
            Step::Reject(response) => StepView::Reject(response@),
            Step::Close => StepView::Close,
        }
    }
}

/// The step that the decoder's answer calls for.
pub open spec fn step_for(answer: DecodeView) -> StepView {
    match answer {
        DecodeView::Complete(command, _) => StepView::Execute(command),
        DecodeView::Incomplete => StepView::Read,
        DecodeView::Invalid(InvalidReason::BadFormat) => StepView::Reject(BAD_FORMAT.spec_bytes()),
        DecodeView::Invalid(InvalidReason::UnknownCommand) => StepView::Close,
    }
}

/// The buffer after the step that the decoder's answer calls for: a command
/// that was decoded is used up, and the buffer is rewound if that drained it.
pub open spec fn buffer_after(b: BufferView, answer: DecodeView) -> BufferView {
    match answer {
        DecodeView::Complete(_, consumed) => b.advance(consumed).reclaim(),
        _ => b,
    }
}

/// The state of one connection: its input buffer.
pub struct Session {
    buffer: FrameBuffer,
}

impl View for Session {
    type V = BufferView;

    closed spec fn view(&self) -> BufferView {
        self.buffer@
    }
}

impl Session {
    /// The invariant of the session: that of its buffer.
    pub open spec fn wf(&self) -> bool {
        self@.wf()
    }

    /// A session that has read nothing yet.
    pub fn new() -> (s: Session)
        ensures
            s.wf(),
            s@ == (BufferView { storage: Seq::empty(), consumed: 0, filled: 0 }),
    {
        Session { buffer: FrameBuffer::new() }
    }

    /// Decides the next step from the input that has arrived.
    pub fn next_step(&mut self) -> (step: Step)
        requires
            old(self).wf(),
        ensures
            final(self).wf(),
            step@ == step_for(decode_spec(old(self)@.window())),
            final(self)@ == buffer_after(old(self)@, decode_spec(old(self)@.window())),
    {
        let answer = decode(self.buffer.readable_window());
        match answer {
            DecodeResult::Complete(command, consumed) => {
                proof {
                    crate::decode_laws::lemma_decoded_is_frame(
                        old(self)@.window(),
                        command@,
                        consumed as nat,
                    );
                }
                self.buffer.advance(consumed);
                self.buffer.reclaim();
                Step::Execute(command)
            },
            DecodeResult::Incomplete => Step::Read,
            DecodeResult::Invalid(InvalidReason::BadFormat) => Step::Reject(fixed(BAD_FORMAT)),
            DecodeResult::Invalid(InvalidReason::UnknownCommand) => Step::Close,
        }
    }

    /// The input buffer, to look at.
    pub fn buffer(&self) -> (b: &FrameBuffer)
        ensures
            b@ == self@,
    {
        &self.buffer
    }

    /// Whether the buffer can make room for the next read.
    pub fn can_read(&self) -> (r: bool)
        requires
            self.wf(),
        ensures
            r == (self@.grown_capacity() <= usize::MAX),
    {
        self.buffer.can_grow()
    }

    /// Makes room and returns the region that the next read stores into. It
    /// holds at least one byte. Whatever the caller writes there, the bytes in
    /// front of it and the cursors stay as they are.
    pub fn read_target(&mut self) -> (s: &mut [u8])
        requires
            old(self).wf(),
            old(self)@.grown_capacity() <= usize::MAX,
        ensures
            s@ == old(self)@.writable() + Seq::new(
                (old(self)@.grown_capacity() - old(self)@.capacity()) as nat,
                |i: int| 0u8,
            ),
            s@.len() >= 1,
            final(self)@.storage == old(self)@.storage.take(old(self)@.filled as int) + final(s)@,
            final(self)@.consumed == old(self)@.consumed,
            final(self)@.filled == old(self)@.filled,
    {
        self.buffer.grow();
        proof {
            let k = old(self)@.filled as int;
            assert(self.buffer@.storage.take(k) =~= old(self)@.storage.take(k)) by {
                assert(self.buffer@.storage.take(old(self)@.capacity() as int).take(k)
                    =~= self.buffer@.storage.take(k));
            }
            assert(self.buffer@.writable() =~= old(self)@.writable() + Seq::new(
                (old(self)@.grown_capacity() - old(self)@.capacity()) as nat,
                |i: int| 0u8,
            )) by {
                assert forall|i: int| 0 <= i < old(self)@.capacity() implies self.buffer@.storage[i]
                    == old(self)@.storage[i] by {
                    assert(self.buffer@.storage.take(old(self)@.capacity() as int)[i]
                        == self.buffer@.storage[i]);
                }
            }
        }
        self.buffer.writable_slice()
    }

    /// Takes note that the read stored `n` bytes in the read target. The
    /// answer is whether the connection goes on: a read of no bytes means that
    /// the peer has closed it.
    pub fn received(&mut self, n: usize) -> (open: bool)
        requires
            old(self).wf(),
            old(self)@.filled + n <= old(self)@.capacity(),
        ensures
            final(self).wf(),
            open == (n > 0),
            final(self)@ == old(self)@.commit(n as nat),
            final(self)@.window() == old(self)@.window() + old(self)@.writable().take(n as int),
    {
        self.buffer.commit(n);
        n > 0
    }
}

/// Once a command has been taken from the buffer and no input is left behind
/// it, both cursors are back at zero: the next read stores at the start of the
/// buffer.
pub proof fn lemma_drained_buffer_is_rewound(b: BufferView)
    requires
        b.wf(),
        decode_spec(b.window()) is Complete,
        decode_spec(b.window())->Complete_1 == b.window().len(),
    ensures
        buffer_after(b, decode_spec(b.window())).consumed == 0,
        buffer_after(b, decode_spec(b.window())).filled == 0,
        buffer_after(b, decode_spec(b.window())).window() == Seq::<u8>::empty(),
{
    let after = buffer_after(b, decode_spec(b.window()));
    assert(after.window() =~= Seq::<u8>::empty());
}

/// Whatever the step, the input that is left in the buffer is what the decoder
/// has not used up: nothing is lost and nothing is decoded twice.
pub proof fn lemma_step_keeps_the_rest(b: BufferView)
    requires
        b.wf(),
    ensures
        buffer_after(b, decode_spec(b.window())).wf(),
        buffer_after(b, decode_spec(b.window())).window() == match decode_spec(b.window()) {
            DecodeView::Complete(_, consumed) => b.window().skip(consumed as int),
            _ => b.window(),
        },
{
    if let DecodeView::Complete(command, consumed) = decode_spec(b.window()) {
        crate::decode_laws::lemma_decoded_is_frame(b.window(), command, consumed);
        let after = buffer_after(b, decode_spec(b.window()));
        assert(after.window() =~= b.window().skip(consumed as int));
    }
}

} // verus!
