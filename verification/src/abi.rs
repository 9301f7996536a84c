//! The codes that a caller in another language sees, and what they stand for.

use vstd::prelude::*;
use vstd::slice::slice_subrange;

use crate::buffer::copy_range;
use crate::error::ProtocolError;
use crate::link::HEADER_LEN;

verus! {

/// The call succeeded. Calls that report a length return a non-negative one.
pub const FECTP_OK: isize = 0;

/// A pointer argument was null, or a handle had already been consumed.
pub const FECTP_ERR_NULL: isize = -1;

/// An output buffer was too small. Nothing was written to it.
pub const FECTP_ERR_BUFFER: isize = -2;

/// The protocol rejected the input.
pub const FECTP_ERR_PROTOCOL: isize = -3;

/// A panic was caught at the boundary.
pub const FECTP_ERR_PANIC: isize = -4;

/// A length did not fit the type that it is reported in.
pub const FECTP_ERR_TOO_LARGE: isize = -5;

/// A length as it is reported.
pub open spec fn reported_length(n: int) -> int {
    if n <= isize::MAX {
        n
    } else {
        FECTP_ERR_TOO_LARGE as int
    }
}

/// A failure as it is reported.
pub open spec fn reported_failure(e: ProtocolError) -> int {
    match e {
        ProtocolError::BufferTooSmall => FECTP_ERR_BUFFER as int,
        _ => FECTP_ERR_PROTOCOL as int,
    }
}

/// A length, or the code for one that does not fit.
pub fn length(n: usize) -> (reported: isize)
    ensures
        reported == reported_length(n as int),
{
    if n <= isize::MAX as usize {
        n as isize
    } else {
        FECTP_ERR_TOO_LARGE
    }
}

/// The code for a failure of the session layer.
pub fn code(e: ProtocolError) -> (reported: isize)
    ensures
        reported == reported_failure(e),
{
    match e {
        ProtocolError::BufferTooSmall => FECTP_ERR_BUFFER,
        _ => FECTP_ERR_PROTOCOL,
    }
}

/// What a call that gives a length or fails reports.
pub fn report(outcome: Result<usize, ProtocolError>) -> (reported: isize)
    ensures
        reported == (match outcome {
            Ok(n) => reported_length(n as int),
            Err(e) => reported_failure(e),
        }),
{
    match outcome {
        Ok(n) => length(n),
        Err(e) => code(e),
    }
}

/// Takes a handle out of its slot, which is then empty whatever comes of it, so
/// that no second call can reach the same handle.
pub fn take_handle<T>(slot: &mut Option<T>) -> (taken: Result<T, isize>)
    ensures
        *final(slot) == None::<T>,
        taken == (match *old(slot) {
            Some(handle) => Ok::<T, isize>(handle),
            None => Err(FECTP_ERR_NULL),
        }),
{
    match slot.take() {
        Some(handle) => Ok(handle),
        None => Err(FECTP_ERR_NULL),
    }
}

/// What finishing a handshake reports, and the session it made: `answer` is what
/// the session layer made of it, or `None` where a buffer for it was missing.
pub open spec fn concluded<T>(answer: Option<Result<(T, usize), ProtocolError>>) -> (
    isize,
    Option<T>,
) {
    match answer {
        None => (FECTP_ERR_NULL, None),
        Some(Err(e)) => (reported_failure(e) as isize, None),
        Some(Ok((session, n))) => (reported_length(n as int) as isize, Some(session)),
    }
}

/// What a call that consumes a handshake leaves in its slot and reports.
pub open spec fn consumes<H, T>(
    before: Option<H>,
    after: Option<H>,
    answer: Option<Result<(T, usize), ProtocolError>>,
    reported: (isize, Option<T>),
) -> bool {
    &&& after is None
    &&& reported == (match before {
        None => (FECTP_ERR_NULL, None),
        Some(_) => concluded(answer),
    })
}

/// Finishes a handshake, whose handle is consumed either way: the handshake
/// cannot be tried again from where it is.
///
/// `finish` hands the handshake to the session layer; it gives `None` where a
/// buffer for that is missing. Returns what to report, and the session if one
/// was established.
pub fn finish_handshake<H, T, F>(slot: &mut Option<H>, finish: F) -> (reported: (isize, Option<T>))
    where F: FnOnce(H) -> Option<Result<(T, usize), ProtocolError>>
    requires
        *old(slot) matches Some(handle) ==> call_requires(finish, (handle,)),
    ensures
        exists|answer: Option<Result<(T, usize), ProtocolError>>| #[trigger]
            consumes(*old(slot), *final(slot), answer, reported) && (*old(slot) matches Some(handle)
                ==> call_ensures(finish, (handle,), answer)),
{
    let handle = match take_handle(slot) {
        Ok(handle) => handle,
        Err(code) => {
            proof {
                let nothing: Option<Result<(T, usize), ProtocolError>> = None;
                assert(consumes(*old(slot), *slot, nothing, (code, None::<T>)));
            }
            return (code, None);
        },
    };
    let answer = finish(handle);
    let reported: (isize, Option<T>) = match answer {
        None => (FECTP_ERR_NULL, None),
        Some(Err(e)) => (code(e), None),
        Some(Ok((session, n))) => (length(n), Some(session)),
    };
    proof {
        assert(consumes(*old(slot), *slot, answer, reported));
    }
    reported
}

/// A session comes with a length and a failure without one: the code is not
/// negative exactly where there is a session.
pub proof fn a_session_comes_exactly_with_success<H, T>(
    before: Option<H>,
    after: Option<H>,
    answer: Option<Result<(T, usize), ProtocolError>>,
    reported: (isize, Option<T>),
)
    requires
        consumes(before, after, answer, reported),
        answer matches Some(Ok((_, n))) ==> n <= isize::MAX,
    ensures
        reported.0 >= 0 <==> reported.1 is Some,
{
}

/// A handle that a call has consumed cannot be reached again: a second call
/// through the same slot finds nothing there and makes nothing.
pub proof fn a_consumed_handle_is_refused<H, T>(
    before: Option<H>,
    between: Option<H>,
    after: Option<H>,
    answer: Option<Result<(T, usize), ProtocolError>>,
    reported: (isize, Option<T>),
    second: Option<Result<(T, usize), ProtocolError>>,
    reported_second: (isize, Option<T>),
)
    requires
        consumes(before, between, answer, reported),
        consumes(between, after, second, reported_second),
    ensures
        reported_second == (FECTP_ERR_NULL, None::<T>),
        after is None,
{
}

/// Hands out what a frame carried, given what opening it in place gave.
///
/// A buffer too small is refused and left as it was.
pub fn hand_out(opened: Result<usize, ProtocolError>, frame: &[u8], out: &mut [u8]) -> (reported:
    isize)
    requires
        opened matches Ok(len) ==> HEADER_LEN + len <= frame@.len(),
    ensures
        final(out)@.len() == old(out)@.len(),
        match opened {
            Err(e) => reported == reported_failure(e) && final(out)@ == old(out)@,
            Ok(len) => if old(out)@.len() < len {
                reported == FECTP_ERR_BUFFER && final(out)@ == old(out)@
            } else {
                &&& reported == reported_length(len as int)
                &&& final(out)@ == frame@.subrange(HEADER_LEN as int, HEADER_LEN + len) + old(
                    out,
                )@.skip(len as int)
            },
        },
{
    let len: usize = match opened {
        Ok(len) => len,
        Err(e) => {
            return code(e);
        },
    };
    if out.len() < len {
        return FECTP_ERR_BUFFER;
    }
    let ghost before = out@;
    let rest = slice_subrange(frame, HEADER_LEN, frame.len());
    let plaintext = copy_range(rest, 0, len);
    proof {
        assert(plaintext@ =~= frame@.subrange(HEADER_LEN as int, HEADER_LEN + len));
    }
    let mut i: usize = 0;
    while i < len
        invariant
            i <= len <= out@.len(),
            plaintext@.len() == len,
            out@.len() == before.len(),
            out@ == plaintext@.take(i as int) + before.skip(i as int),
        decreases len - i,
    {
        out[i] = plaintext[i];
        i += 1;
        proof {
            assert(out@ =~= plaintext@.take(i as int) + before.skip(i as int));
        }
    }
    proof {
        assert(plaintext@.take(i as int) =~= plaintext@);
    }
    length(len)
}

/// Every failure is reported as a negative number, and every length that fits
/// as itself, so the two cannot be mistaken for each other.
pub proof fn a_length_is_never_mistaken_for_a_failure(n: int, e: ProtocolError)
    requires
        0 <= n <= isize::MAX,
    ensures
        reported_length(n) == n,
        reported_failure(e) < 0,
        reported_length(n) != reported_failure(e),
{
}

/// Which code stands for what: a length for itself, one too long to report and a
/// buffer too small each for their own, and every other failure for one code.
pub proof fn each_outcome_has_its_code(n: int, e: ProtocolError)
    requires
        n >= 0,
    ensures
        n <= isize::MAX ==> reported_length(n) == n,
        n > isize::MAX ==> reported_length(n) == -5,
        e == ProtocolError::BufferTooSmall <==> reported_failure(e) == -2,
        e != ProtocolError::BufferTooSmall <==> reported_failure(e) == -3,
{
}

/// What finishing a handshake reports: that something was missing, the failure, or
/// the length of what came with it; and a session exactly where there is one.
pub proof fn what_finishing_a_handshake_reports<H, T>(
    handle: H,
    after: Option<H>,
    session: T,
    n: usize,
    e: ProtocolError,
    answer: Option<Result<(T, usize), ProtocolError>>,
    reported: (isize, Option<T>),
)
    requires
        consumes(Some(handle), after, answer, reported),
        n <= isize::MAX,
    ensures
        after is None,
        answer is None ==> reported == (-1isize, None::<T>),
        answer == Some(Err::<(T, usize), ProtocolError>(e)) ==> reported.1 is None && reported.0
            == if e == ProtocolError::BufferTooSmall {
            -2
        } else {
            -3int
        },
        answer == Some(Ok::<(T, usize), ProtocolError>((session, n))) ==> reported == (
            n as isize,
            Some(session),
        ),
{
}

} // verus!
