//! What an answer tells a client.
use vstd::prelude::*;
use vstd::std_specs::convert::FromSpec;
use vstd::utf8::{encode_utf8, is_ascii_chars_encode_utf8};
use crate::combine::one_byte;
use crate::digits::{
    byte_written, bytes_told_apart, bytes_written, number_read, number_written, spells,
    spells_bytes,
};
use crate::handler::{Error, ProcessType, StopReason};
use crate::hex::{lower_hex, lower_hex_byte, lower_hex_bytes};
use crate::laws::valid_thread;
use crate::model::{Id, ThreadId};
use crate::response::{id_text, response_data, stop_text, thread_id_text, Response};
use crate::server::{invoked, reports, response_to, Outcome};
use crate::threads::threads_told_apart;

verus! {

/// The data of the answer that is sent for an outcome.
pub open spec fn reply_to(outcome: Outcome) -> Seq<u8> {
    response_data(response_to(outcome))
}

/// An answer tells of an error: an `E` and the number of the error in two
/// digits, or nothing where the request is not implemented.
pub open spec fn failure_told(e: Error, reply: Seq<u8>) -> bool {
    match e {
        Error::Error(n) => reply.len() == 3 && reply[0] == 0x45 && spells(reply.skip(1), n as nat),
        Error::Unimplemented => reply.len() == 0,
    }
}

/// An answer tells that something was done, or of an error.
pub open spec fn done_told(r: Result<(), Error>, reply: Seq<u8>) -> bool {
    match r {
        Ok(_) => reply == encode_utf8("OK"@),
        Err(e) => failure_told(e, reply),
    }
}

/// An answer gives some bytes in hexadecimal, or tells of an error.
pub open spec fn bytes_told(r: Result<Vec<u8>, Error>, reply: Seq<u8>) -> bool {
    match r {
        Ok(bytes) => spells_bytes(reply, bytes@),
        Err(e) => failure_told(e, reply),
    }
}

/// An answer gives a text as it is, or tells of an error.
pub open spec fn text_told(r: Result<String, Error>, reply: Seq<u8>) -> bool {
    match r {
        Ok(text) => reply == encode_utf8(text@),
        Err(e) => failure_told(e, reply),
    }
}

/// An answer gives the output of a command, an `O` and its bytes in hexadecimal,
/// or `OK` where there is none, or tells of an error.
pub open spec fn output_told(r: Result<String, Error>, reply: Seq<u8>) -> bool {
    match r {
        Ok(text) => if text@.len() == 0 {
            reply == encode_utf8("OK"@)
        } else {
            reply.len() > 0 && reply[0] == 0x4f && spells_bytes(reply.skip(1), encode_utf8(text@))
        },
        Err(e) => failure_told(e, reply),
    }
}

/// An answer tells how a process came to be debugged, or of an error.
pub open spec fn origin_told(r: Result<ProcessType, Error>, reply: Seq<u8>) -> bool {
    match r {
        Ok(ProcessType::Attached) => reply == encode_utf8("1"@),
        Ok(ProcessType::Created) => reply == encode_utf8("0"@),
        Err(e) => failure_told(e, reply),
    }
}

/// An answer tells where something was found, or that it was not, or of an error.
pub open spec fn place_told(r: Result<Option<u64>, Error>, reply: Seq<u8>) -> bool {
    match r {
        Ok(Some(address)) => reply.len() > 2 && reply.take(2) == encode_utf8("1,"@) && spells(
            reply.skip(2),
            address as nat,
        ),
        Ok(None) => reply == encode_utf8("0"@),
        Err(e) => failure_told(e, reply),
    }
}

/// `text` is an id: `0` for any, `-1` for all, or a number in hexadecimal.
pub open spec fn id_told(id: Id, text: Seq<u8>) -> bool {
    match id {
        Id::Any => text == encode_utf8("0"@),
        Id::All => text == encode_utf8("-1"@),
        Id::Id(num) => spells(text, num as nat),
    }
}

/// `text` is a thread: a `p`, its process, a `.` and its own id.
pub open spec fn thread_told(id: ThreadId, text: Seq<u8>) -> bool {
    exists|p: Seq<u8>, t: Seq<u8>| #[trigger]
        id_told(id.pid, p) && #[trigger] id_told(id.tid, t) && text == encode_utf8("p"@) + p
            + encode_utf8("."@) + t
}

/// An answer gives the current thread behind `QC`, or is `OK` where there is
/// none, or tells of an error.
pub open spec fn current_told(r: Result<Option<ThreadId>, Error>, reply: Seq<u8>) -> bool {
    match r {
        Ok(Some(id)) => reply.len() > 2 && reply.take(2) == encode_utf8("QC"@) && thread_told(
            id,
            reply.skip(2),
        ),
        Ok(None) => reply == encode_utf8("OK"@),
        Err(e) => failure_told(e, reply),
    }
}

/// The end of a process behind the letter for it: a status in two digits, and
/// the process.
pub open spec fn end_told(pid: u64, status: u8, text: Seq<u8>) -> bool {
    &&& text.len() > 11
    &&& spells(text.take(2), status as nat)
    &&& text.subrange(2, 11) == encode_utf8(";process:"@)
    &&& spells(text.skip(11), pid as nat)
}

/// `reply` tells why the target stopped: a letter, and behind it, in hexadecimal,
/// what there is to say.
pub open spec fn stop_told(reason: StopReason, reply: Seq<u8>) -> bool {
    &&& reply.len() > 0
    &&& match reason {
        StopReason::Signal(signo) => reply[0] == 0x53 && reply.len() == 3 && spells(
            reply.skip(1),
            signo as nat,
        ),
        StopReason::Exited(pid, status) => reply[0] == 0x57 && end_told(pid, status, reply.skip(1)),
        StopReason::ExitedWithSignal(pid, status) => reply[0] == 0x58 && end_told(
            pid,
            status,
            reply.skip(1),
        ),
        StopReason::ThreadExited(id, status) => reply[0] == 0x77 && exists|
            d: Seq<u8>,
            t: Seq<u8>,
        | #[trigger]
            spells(d, status as nat) && #[trigger] thread_told(id, t) && reply.skip(1) == d
                + encode_utf8(";"@) + t,
        StopReason::NoMoreThreads => reply == encode_utf8("N"@),
    }
}

/// An answer tells why the target stopped, or of an error.
pub open spec fn stopped_told(r: Result<StopReason, Error>, reply: Seq<u8>) -> bool {
    match r {
        Ok(reason) => stop_told(reason, reply),
        Err(e) => failure_told(e, reply),
    }
}

/// An error is told, whatever was asked for.
pub proof fn failure_is_told(e: Error)
    ensures
        failure_told(e, reply_to(Err(e))),
{
    if let Error::Error(n) = e {
        reveal_strlit("E");
        one_byte("E"@);
        byte_written(n);
        assert(reply_to(Err(e)).skip(1) =~= lower_hex_byte(n));
    }
}

/// Errors are told apart by their answers, and none of them looks like success.
pub proof fn failures_told_apart(a: Error, b: Error, reply: Seq<u8>)
    requires
        failure_told(a, reply),
        failure_told(b, reply),
    ensures
        a == b,
        reply != encode_utf8("OK"@),
{
    reveal_strlit("OK");
    is_ascii_chars_encode_utf8("OK"@);
}

/// What is answered where something was done.
pub proof fn done_is_told(r: Result<(), Error>, outcome: Outcome)
    requires
        reports(outcome, r),
    ensures
        done_told(r, reply_to(outcome)),
{
    if let Err(e) = r {
        failure_is_told(e);
    }
}

/// What is answered where some bytes were read.
pub proof fn bytes_are_told(r: Result<Vec<u8>, Error>, outcome: Outcome)
    requires
        reports(outcome, r),
    ensures
        bytes_told(r, reply_to(outcome)),
{
    match r {
        Ok(bytes) => bytes_written(bytes@),
        Err(e) => failure_is_told(e),
    }
}

/// What is answered where a text was asked for.
pub proof fn text_is_told(r: Result<String, Error>, outcome: Outcome)
    requires
        reports(outcome, r),
    ensures
        text_told(r, reply_to(outcome)),
{
    if let Err(e) = r {
        failure_is_told(e);
    }
}

/// What is answered where a command was invoked.
pub proof fn output_is_told(r: Result<String, Error>)
    ensures
        output_told(r, reply_to(invoked(r))),
{
    match r {
        Ok(text) => if text@.len() > 0 {
            reveal_strlit("O");
            one_byte("O"@);
            bytes_written(encode_utf8(text@));
            assert(reply_to(invoked(r)).skip(1) =~= lower_hex_bytes(
                encode_utf8(text@),
            ));
        },
        Err(e) => failure_is_told(e),
    }
}

/// What is answered where it was asked how a process came to be debugged.
pub proof fn origin_is_told(r: Result<ProcessType, Error>, outcome: Outcome)
    requires
        reports(outcome, r),
    ensures
        origin_told(r, reply_to(outcome)),
{
    if let Err(e) = r {
        failure_is_told(e);
    }
}

/// What is answered where something was looked for.
pub proof fn place_is_told(r: Result<Option<u64>, Error>, outcome: Outcome)
    requires
        reports(outcome, r),
    ensures
        place_told(r, reply_to(outcome)),
{
    match r {
        Ok(Some(address)) => {
            reveal_strlit("1,");
            is_ascii_chars_encode_utf8("1,"@);
            number_written(address as nat);
            let reply = reply_to(outcome);
            assert(reply.take(2) =~= encode_utf8("1,"@));
            assert(reply.skip(2) =~= lower_hex(address as nat));
        },
        Ok(None) => {},
        Err(e) => failure_is_told(e),
    }
}

/// A thread is told by what is written for it.
pub proof fn thread_is_told(id: ThreadId)
    ensures
        thread_told(id, thread_id_text(id)),
{
    if let Id::Id(num) = id.pid {
        number_written(num as nat);
    }
    if let Id::Id(num) = id.tid {
        number_written(num as nat);
    }
    assert(id_told(id.pid, id_text(id.pid)) && id_told(id.tid, id_text(id.tid)));
}

/// What is answered where the current thread was asked for.
pub proof fn current_is_told(r: Result<Option<ThreadId>, Error>, outcome: Outcome)
    requires
        reports(outcome, r),
    ensures
        current_told(r, reply_to(outcome)),
{
    match r {
        Ok(Some(id)) => {
            reveal_strlit("QC");
            is_ascii_chars_encode_utf8("QC"@);
            reveal_strlit("p");
            one_byte("p"@);
            thread_is_told(id);
            let reply = reply_to(outcome);
            assert(reply.take(2) =~= encode_utf8("QC"@));
            assert(reply.skip(2) =~= thread_id_text(id));
        },
        Ok(None) => {},
        Err(e) => failure_is_told(e),
    }
}

proof fn end_is_told(pid: u64, status: u8, text: Seq<u8>)
    requires
        text == lower_hex_byte(status) + encode_utf8(";process:"@) + lower_hex(
            pid as nat,
        ),
    ensures
        end_told(pid, status, text),
{
    reveal_strlit(";process:");
    is_ascii_chars_encode_utf8(";process:"@);
    byte_written(status);
    number_written(pid as nat);
    assert(text.take(2) =~= lower_hex_byte(status));
    assert(text.subrange(2, 11) =~= encode_utf8(";process:"@));
    assert(text.skip(11) =~= lower_hex(pid as nat));
}

/// The reason for a stop can be read from what is written for it: from `S` the
/// number of the signal, from `W` and `X` the status and the process, from `w`
/// the status and the thread.
pub proof fn stop_is_told(reason: StopReason)
    ensures
        stop_told(reason, stop_text(reason)),
{
    let text = stop_text(reason);
    reveal_strlit("S");
    reveal_strlit("W");
    reveal_strlit("X");
    reveal_strlit("w");
    reveal_strlit("N");
    one_byte("S"@);
    one_byte("W"@);
    one_byte("X"@);
    one_byte("w"@);
    one_byte("N"@);
    match reason {
        StopReason::Signal(signo) => {
            byte_written(signo);
            assert(text.skip(1) =~= lower_hex_byte(signo));
        },
        StopReason::Exited(pid, status) => {
            assert(text.skip(1) =~= lower_hex_byte(status) + encode_utf8(";process:"@)
                + lower_hex(pid as nat));
            end_is_told(pid, status, text.skip(1));
        },
        StopReason::ExitedWithSignal(pid, status) => {
            assert(text.skip(1) =~= lower_hex_byte(status) + encode_utf8(";process:"@)
                + lower_hex(pid as nat));
            end_is_told(pid, status, text.skip(1));
        },
        StopReason::ThreadExited(id, status) => {
            number_written(status as nat);
            thread_is_told(id);
            let (d, t) = (lower_hex(status as nat), thread_id_text(id));
            assert(text.skip(1) =~= d + encode_utf8(";"@) + t);
            assert(spells(d, status as nat) && thread_told(id, t));
        },
        StopReason::NoMoreThreads => {},
    }
}

/// What is answered where the target stopped.
pub proof fn stopped_is_told(r: Result<StopReason, Error>, outcome: Outcome)
    requires
        reports(outcome, r),
    ensures
        stopped_told(r, reply_to(outcome)),
{
    match r {
        Ok(reason) => stop_is_told(reason),
        Err(e) => failure_is_told(e),
    }
}

/// A reason as it may occur: a thread has ids that a thread may have.
pub open spec fn valid_reason(reason: StopReason) -> bool {
    reason matches StopReason::ThreadExited(id, _) ==> valid_thread(id)
}

/// Two different ends of a thread are never written alike.
proof fn thread_ends_told_apart(a: ThreadId, m: u64, b: ThreadId, n: u64)
    requires
        valid_thread(a),
        valid_thread(b),
        stop_text(StopReason::ThreadExited(a, m)) == stop_text(StopReason::ThreadExited(b, n)),
    ensures
        a == b,
        m == n,
{
    let text = stop_text(StopReason::ThreadExited(a, m));
    reveal_strlit("w");
    reveal_strlit(";");
    one_byte("w"@);
    one_byte(";"@);
    let s = encode_utf8(";"@) + thread_id_text(a);
    let t = encode_utf8(";"@) + thread_id_text(b);
    assert(s[0] == 0x3b && t[0] == 0x3b);
    number_written(m as nat);
    number_written(n as nat);
    number_read(lower_hex(m as nat), m, s);
    number_read(lower_hex(n as nat), n, t);
    assert(text.skip(1) =~= lower_hex(m as nat) + s);
    assert(text.skip(1) =~= lower_hex(n as nat) + t);
    assert(s.skip(1) =~= thread_id_text(a));
    assert(t.skip(1) =~= thread_id_text(b));
    threads_told_apart(a, b);
}

/// Two different reasons for a stop are never written alike.
pub proof fn stops_told_apart(a: StopReason, b: StopReason)
    requires
        valid_reason(a),
        valid_reason(b),
        stop_text(a) == stop_text(b),
    ensures
        a == b,
{
    stop_is_told(a);
    stop_is_told(b);
    let first = stop_text(a)[0];
    if first == 0x77 {
        assert(!(a is NoMoreThreads) && !(b is NoMoreThreads)) by {
            reveal_strlit("N");
            one_byte("N"@);
        }
        if let (StopReason::ThreadExited(x, m), StopReason::ThreadExited(y, n)) = (a, b) {
            thread_ends_told_apart(x, m, y, n);
        }
    } else {
        assert(first == 0x4e <==> a is NoMoreThreads) by {
            reveal_strlit("N");
            one_byte("N"@);
        }
        assert(first == 0x4e <==> b is NoMoreThreads) by {
            reveal_strlit("N");
            one_byte("N"@);
        }
    }
}

/// Bytes are told apart by their answers.
pub proof fn answers_tell_bytes_apart(a: Vec<u8>, b: Vec<u8>, reply: Seq<u8>)
    requires
        bytes_told(Ok(a), reply),
        bytes_told(Ok(b), reply),
    ensures
        a@ == b@,
{
    bytes_told_apart(reply, a@, b@);
}

/// The answer for a result is the answer for its value, or tells of its error.
pub proof fn result_is_told<T>(r: Result<T, Error>) where Response<'static>: From<T>
    ensures
        match r {
            Ok(v) => <Response<'static> as FromSpec<Result<T, Error>>>::from_spec(r) == <Response<
                'static,
            > as FromSpec<T>>::from_spec(v),
            Err(e) => failure_told(
                e,
                response_data(<Response<'static> as FromSpec<Result<T, Error>>>::from_spec(r)),
            ),
        },
{
    if let Err(e) = r {
        failure_is_told(e);
    }
}

} // verus!
