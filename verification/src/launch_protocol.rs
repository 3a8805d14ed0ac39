//! Decision logic of the suspended-launch handshake. A parent process
//! launches a child that waits on a resume pipe; the child reports a failed
//! exec through an error pipe as four big-endian errno bytes followed by a
//! fixed footer. The I/O itself lives with the caller; these functions make
//! the decisions.

use vstd::prelude::*;

verus! {

/// Outcome of one blocking read on a pipe, as the caller observed it.
pub enum PipeReadOutcome {
    /// `read` returned this many bytes.
    Read(usize),
    /// `read` failed with EINTR.
    Interrupted,
    /// `read` failed with any other error.
    OtherError,
}

/// What the parent does next while waiting for the child's exec report.
#[derive(Clone, Copy, PartialEq, Eq, Structural, Debug)]
pub enum UnsuspendDecision {
    /// The child closed the pipe: the exec succeeded, proceed.
    Proceed,
    /// The child reported a failed exec; the payload is the raw big-endian
    /// errno word.
    FailWithErrno(u32),
    /// A malformed report arrived: reap the child and give up.
    ProtocolError,
    /// The read was interrupted: try again.
    Retry,
    /// The pipe failed: abandon the wait.
    Abandon,
}

/// What the child does next while waiting for the resume byte.
#[derive(Clone, Copy, PartialEq, Eq, Structural, Debug)]
pub enum ChildDecision {
    /// The parent closed the pipe without resuming: exit quietly.
    ExitQuietly,
    /// The parent sent the resume byte: exec the command.
    Exec,
    /// The read was interrupted: try again.
    Retry,
    /// The pipe failed: exit with an error.
    ExitWithError,
}

/// The footer byte at position `i` of the exec-error message: `NOEX`.
pub open spec fn execerr_footer_byte(i: int) -> u8 {
    if i == 0 {
        78u8
    } else if i == 1 {
        79u8
    } else if i == 2 {
        69u8
    } else {
        88u8
    }
}

/// The unsigned value of four big-endian bytes.
pub open spec fn be_word(b0: u8, b1: u8, b2: u8, b3: u8) -> int {
    b0 * 0x100_0000 + b1 * 0x1_0000 + b2 * 0x100 + b3
}

/// An eight-byte exec-error message is well formed when it ends in the
/// footer.
pub open spec fn execerr_message_wf(bytes: Seq<u8>) -> bool {
    &&& bytes.len() == 8
    &&& bytes[4] == execerr_footer_byte(0)
    &&& bytes[5] == execerr_footer_byte(1)
    &&& bytes[6] == execerr_footer_byte(2)
    &&& bytes[7] == execerr_footer_byte(3)
}

/// Builds the eight-byte exec-error message for a raw errno word.
pub fn encode_execerr_message(errno_word: u32) -> (r: Vec<u8>)
    ensures
        execerr_message_wf(r@),
        be_word(r@[0], r@[1], r@[2], r@[3]) == errno_word,
{
    let mut out: Vec<u8> = Vec::new();
    out.push((errno_word / 0x100_0000) as u8);
    out.push(((errno_word / 0x1_0000) % 0x100) as u8);
    out.push(((errno_word / 0x100) % 0x100) as u8);
    out.push((errno_word % 0x100) as u8);
    out.push(78);
    out.push(79);
    out.push(69);
    out.push(88);
    proof {
        assert(be_word(out@[0], out@[1], out@[2], out@[3]) == errno_word) by (nonlinear_arith)
            requires
                out@[0] == errno_word / 0x100_0000,
                out@[1] == (errno_word / 0x1_0000) % 0x100,
                out@[2] == (errno_word / 0x100) % 0x100,
                out@[3] == errno_word % 0x100,
        ;
    }
    out
}

/// Decides the parent's next step from one read on the error pipe: an empty
/// read means the exec succeeded; exactly eight bytes carry an errno and
/// must end in the footer; any other length is a protocol error; EINTR
/// retries; other errors abandon the wait.
pub fn decide_unsuspend_read(outcome: &PipeReadOutcome, bytes: &Vec<u8>) -> (r: UnsuspendDecision)
    requires
        match *outcome {
            PipeReadOutcome::Read(n) => n <= bytes@.len(),
            _ => true,
        },
    ensures
        r == (match *outcome {
            PipeReadOutcome::Read(n) => if n == 0 {
                UnsuspendDecision::Proceed
            } else if n == 8 {
                if execerr_message_wf(bytes@.subrange(0, 8)) {
                    UnsuspendDecision::FailWithErrno(
                        be_word(bytes@[0], bytes@[1], bytes@[2], bytes@[3]) as u32,
                    )
                } else {
                    UnsuspendDecision::ProtocolError
                }
            } else {
                UnsuspendDecision::ProtocolError
            },
            PipeReadOutcome::Interrupted => UnsuspendDecision::Retry,
            PipeReadOutcome::OtherError => UnsuspendDecision::Abandon,
        }),
{
    match outcome {
        PipeReadOutcome::Read(n) => {
            let n = *n;
            if n == 0 {
                UnsuspendDecision::Proceed
            } else if n == 8 {
                if bytes[4] == 78 && bytes[5] == 79 && bytes[6] == 69 && bytes[7] == 88 {
                    let w: u32 = (bytes[0] as u32) * 0x100_0000 + (bytes[1] as u32) * 0x1_0000 + (
                    bytes[2] as u32) * 0x100 + (bytes[3] as u32);
                    proof {
                        assert(bytes@.subrange(0, 8)[4] == bytes@[4]);
                        assert(bytes@.subrange(0, 8)[5] == bytes@[5]);
                        assert(bytes@.subrange(0, 8)[6] == bytes@[6]);
                        assert(bytes@.subrange(0, 8)[7] == bytes@[7]);
                    }
                    UnsuspendDecision::FailWithErrno(w)
                } else {
                    proof {
                        assert(bytes@.subrange(0, 8)[4] == bytes@[4]);
                        assert(bytes@.subrange(0, 8)[5] == bytes@[5]);
                        assert(bytes@.subrange(0, 8)[6] == bytes@[6]);
                        assert(bytes@.subrange(0, 8)[7] == bytes@[7]);
                    }
                    UnsuspendDecision::ProtocolError
                }
            } else {
                UnsuspendDecision::ProtocolError
            }
        },
        PipeReadOutcome::Interrupted => UnsuspendDecision::Retry,
        PipeReadOutcome::OtherError => UnsuspendDecision::Abandon,
    }
}

/// Decides the child's next step from one read on the resume pipe: an empty
/// read means the parent gave up; any byte resumes; EINTR retries; other
/// errors exit.
pub fn decide_child_resume_read(outcome: &PipeReadOutcome) -> (r: ChildDecision)
    ensures
        r == (match *outcome {
            PipeReadOutcome::Read(n) => if n == 0 {
                ChildDecision::ExitQuietly
            } else {
                ChildDecision::Exec
            },
            PipeReadOutcome::Interrupted => ChildDecision::Retry,
            PipeReadOutcome::OtherError => ChildDecision::ExitWithError,
        }),
{
    match outcome {
        PipeReadOutcome::Read(n) => {
            if *n == 0 {
                ChildDecision::ExitQuietly
            } else {
                ChildDecision::Exec
            }
        },
        PipeReadOutcome::Interrupted => ChildDecision::Retry,
        PipeReadOutcome::OtherError => ChildDecision::ExitWithError,
    }
}

} // verus!
