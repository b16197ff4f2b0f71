//! Commands that are run for clients: how much of their output is kept, and
//! how long they may take.

use vstd::prelude::*;
#[allow(unused_imports)]
use vstd::utf8::encode_utf8;

verus! {

/// The most bytes of the output of a command that are kept.
pub const MAX_EXEC_OUTPUT: usize = 262_144;

/// How long a command may take, in nanoseconds.
pub const EXEC_TIMEOUT: u64 = 10_000_000_000;

/// The status of a command that took too long.
pub const TIMED_OUT: i32 = 124;

// ---------------------------------------------------------------------------
// Output

/// What is kept of output: all of it, or as much from its start as is allowed.
pub open spec fn kept_output(output: Seq<u8>) -> Seq<u8> {
    if output.len() <= MAX_EXEC_OUTPUT {
        output
    } else {
        output.take(MAX_EXEC_OUTPUT as int)
    }
}

/// What is kept of the output of a command.
pub struct OutputBuffer {
    bytes: Vec<u8>,
    truncated: bool,
}

impl OutputBuffer {
    /// The bytes that are kept.
    pub closed spec fn bytes(&self) -> Seq<u8> {
        self.bytes@
    }

    /// Whether more came than is kept.
    pub closed spec fn truncated(&self) -> bool {
        self.truncated
    }

    /// No more is kept than is allowed.
    pub open spec fn wf(&self) -> bool {
        self.bytes().len() <= MAX_EXEC_OUTPUT
    }

    /// The buffer of a command that has put out nothing yet.
    pub fn new() -> (buffer: OutputBuffer)
        ensures
            buffer.wf(),
            buffer.bytes() == Seq::<u8>::empty(),
            !buffer.truncated(),
    {
        OutputBuffer { bytes: Vec::new(), truncated: false }
    }

    /// Takes the next bytes of the output, and says whether to read on: no
    /// bytes mean that there is no more.
    pub fn absorb(&mut self, chunk: &[u8]) -> (more: bool)
        requires
            old(self).wf(),
        ensures
            final(self).wf(),
            more == (chunk@.len() > 0),
            final(self).bytes() == kept_output(old(self).bytes() + chunk@),
            final(self).truncated() == (old(self).truncated() || old(self).bytes().len()
                + chunk@.len() > MAX_EXEC_OUTPUT),
    {
        let ghost before = self.bytes@;
        let room: usize = MAX_EXEC_OUTPUT - self.bytes.len();
        let count: usize = if chunk.len() < room {
            chunk.len()
        } else {
            room
        };
        let mut i: usize = 0;
        while i < count
            invariant
                i <= count <= chunk.len(),
                self.bytes@ == before + chunk@.take(i as int),
                self.truncated == old(self).truncated,
            decreases count - i,
        {
            self.bytes.push(chunk[i]);
            assert(chunk@.take(i + 1) =~= chunk@.take(i as int).push(chunk@[i as int]));
            i = i + 1;
        }
        if count < chunk.len() {
            self.truncated = true;
        }
        assert(self.bytes@ =~= kept_output(before + chunk@));
        chunk.len() > 0
    }

    /// What is kept, and whether more came.
    pub fn finish(self) -> (kept: (Vec<u8>, bool))
        ensures
            kept.0@ == self.bytes(),
            kept.1 == self.truncated(),
    {
        (self.bytes, self.truncated)
    }
}

/// All of the output, in the order in which it came.
pub open spec fn whole(chunks: Seq<Seq<u8>>) -> Seq<u8>
    decreases chunks.len(),
{
    if chunks.len() == 0 {
        seq![]
    } else {
        whole(chunks.drop_last()) + chunks.last()
    }
}

/// What is kept after output came in pieces.
pub open spec fn kept_in_pieces(chunks: Seq<Seq<u8>>) -> Seq<u8>
    decreases chunks.len(),
{
    if chunks.len() == 0 {
        seq![]
    } else {
        kept_output(kept_in_pieces(chunks.drop_last()) + chunks.last())
    }
}

/// Whether output was cut off that came in pieces.
pub open spec fn cut_in_pieces(chunks: Seq<Seq<u8>>) -> bool
    decreases chunks.len(),
{
    if chunks.len() == 0 {
        false
    } else {
        cut_in_pieces(chunks.drop_last()) || kept_in_pieces(chunks.drop_last()).len()
            + chunks.last().len() > MAX_EXEC_OUTPUT
    }
}

/// In whatever pieces output comes, what is kept is its start, and it is said
/// to be cut off if and only if more came than is allowed.
pub proof fn law_output_is_cut_at_the_limit(chunks: Seq<Seq<u8>>)
    ensures
        kept_in_pieces(chunks) == kept_output(whole(chunks)),
        cut_in_pieces(chunks) == (whole(chunks).len() > MAX_EXEC_OUTPUT),
    decreases chunks.len(),
{
    if chunks.len() > 0 {
        law_output_is_cut_at_the_limit(chunks.drop_last());
        let before = whole(chunks.drop_last());
        assert(kept_output(kept_output(before) + chunks.last()) =~= kept_output(
            before + chunks.last(),
        ));
    }
}

// ---------------------------------------------------------------------------
// Waiting for the end

/// What is found when a command is looked at.
#[derive(Clone, Copy, Debug, PartialEq, Eq, Structural)]
pub enum ChildState {
    /// It has ended, with this code where it has one.
    Ended(Option<i32>),
    /// It is running.
    Running,
    /// It cannot be looked at.
    Lost,
}

/// What is done next with a command.
#[derive(Clone, Copy, Debug, PartialEq, Eq, Structural)]
pub enum ChildStep {
    /// It is looked at again after a while.
    Wait,
    /// It is killed, and this is its status.
    Kill(i32),
    /// This is its status.
    Finish(i32),
}

/// What is done next with a command that was started some nanoseconds ago.
pub open spec fn child_step(state: ChildState, elapsed: u64) -> ChildStep {
    match state {
        ChildState::Ended(Some(code)) => ChildStep::Finish(code),
        ChildState::Ended(None) => ChildStep::Finish((-1) as i32),
        ChildState::Running => if elapsed > EXEC_TIMEOUT {
            ChildStep::Kill(TIMED_OUT)
        } else {
            ChildStep::Wait
        },
        ChildState::Lost => ChildStep::Finish((-1) as i32),
    }
}

/// What is done next with a command that was started some nanoseconds ago.
pub fn watch(state: ChildState, elapsed: u64) -> (step: ChildStep)
    ensures
        step == child_step(state, elapsed),
{
    match state {
        ChildState::Ended(code) => match code {
            Some(code) => ChildStep::Finish(code),
            None => ChildStep::Finish(-1),
        },
        ChildState::Running => {
            if elapsed > EXEC_TIMEOUT {
                ChildStep::Kill(TIMED_OUT)
            } else {
                ChildStep::Wait
            }
        },
        ChildState::Lost => ChildStep::Finish(-1),
    }
}

/// What is reported of a command that could not be started: its status, its
/// output and whether that was cut off.
pub fn not_started(error: &str) -> (report: (i32, Vec<u8>, bool))
    ensures
        report.0 == -1,
        report.1@ == encode_utf8(error@),
        !report.2,
{
    (-1, error.as_bytes_vec(), false)
}

// ---------------------------------------------------------------------------
// Laws on the limits

/// Of output the start is kept, all of it up to 256 KiB.
pub proof fn law_start_of_output_is_kept(output: Seq<u8>)
    ensures
        kept_output(output).is_prefix_of(output),
        kept_output(output).len() == (if output.len() < 262_144 {
            output.len()
        } else {
            262_144
        }),
{
    let kept = kept_output(output);
    assert(output.subrange(0, kept.len() as int) =~= kept);
}

/// A command that has ended is reported with its code, or with -1 where it has
/// none or is lost. One that runs is waited for, up to ten seconds and no
/// longer: then it is killed and reported with 124.
pub proof fn law_commands_have_ten_seconds(code: i32, elapsed: u64)
    ensures
        child_step(ChildState::Ended(Some(code)), elapsed) == ChildStep::Finish(code),
        child_step(ChildState::Ended(None), elapsed) == ChildStep::Finish((-1) as i32),
        child_step(ChildState::Lost, elapsed) == ChildStep::Finish((-1) as i32),
        elapsed <= 10_000_000_000 ==> child_step(ChildState::Running, elapsed) == ChildStep::Wait,
        elapsed > 10_000_000_000 ==> child_step(ChildState::Running, elapsed) == ChildStep::Kill(
            124,
        ),
{
}

} // verus!
