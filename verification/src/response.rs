//! Answers to packets: what they are, and how they are written.
use std::borrow::Cow;
use vstd::prelude::*;
use vstd::std_specs::convert::{FromSpec, FromSpecImpl};
use vstd::utf8::encode_utf8;
use crate::handler::{Error, ProcessType, StopReason};
use crate::hex::{lower_hex, lower_hex_byte, lower_hex_bytes};
use crate::model::{Id, ThreadId};
use crate::writer::{append_bytes, framed, sum_from, writes, writes_on, PacketWriter};

verus! {

broadcast use writes_on;

/// An answer to a packet.
#[derive(Debug)]
pub enum Response<'a> {
    /// Nothing, which also says that a request is not supported.
    Empty,
    /// The request was done.
    Okay,
    /// The request failed.
    Error(u8),
    /// Some text.
    String(Cow<'a, str>),
    /// Text to show to the user.
    Output(String),
    /// Some bytes.
    Bytes(Vec<u8>),
    /// The current thread, where there is one.
    CurrentThread(Option<ThreadId>),
    /// How a process came to be debugged.
    ProcessType(ProcessType),
    /// Why the target stopped.
    Stopped(StopReason),
    /// Where something was found, if it was.
    SearchResult(Option<u64>),
}

impl<'a, T> From<Result<T, Error>> for Response<'a> where Response<'a>: From<T> {
    fn from(result: Result<T, Error>) -> (r: Self) {
        match result {
            Result::Ok(val) => <Response<'a> as From<T>>::from(val),
            Result::Err(Error::Error(val)) => Response::Error(val),
            Result::Err(Error::Unimplemented) => Response::Empty,
        }
    }
}

impl<'a, T> FromSpecImpl<Result<T, Error>> for Response<'a> where Response<'a>: From<T> {
    open spec fn obeys_from_spec() -> bool {
        <Response<'a> as FromSpec<T>>::obeys_from_spec()
    }

    open spec fn from_spec(result: Result<T, Error>) -> Self {
        match result {
            Result::Ok(val) => <Response<'a> as FromSpec<T>>::from_spec(val),
            Result::Err(Error::Error(val)) => Response::Error(val),
            Result::Err(Error::Unimplemented) => Response::Empty,
        }
    }
}

impl<'a> From<()> for Response<'a> {
    fn from(_unit: ()) -> (r: Self) {
        Response::Okay
    }
}

impl<'a> FromSpecImpl<()> for Response<'a> {
    open spec fn obeys_from_spec() -> bool {
        true
    }

    open spec fn from_spec(_unit: ()) -> Self {
        Response::Okay
    }
}

impl<'a> From<Vec<u8>> for Response<'a> {
    fn from(response: Vec<u8>) -> (r: Self) {
        Response::Bytes(response)
    }
}

impl<'a> FromSpecImpl<Vec<u8>> for Response<'a> {
    open spec fn obeys_from_spec() -> bool {
        true
    }

    open spec fn from_spec(response: Vec<u8>) -> Self {
        Response::Bytes(response)
    }
}

impl<'a> From<Option<ThreadId>> for Response<'a> {
    fn from(response: Option<ThreadId>) -> (r: Self) {
        Response::CurrentThread(response)
    }
}

impl<'a> FromSpecImpl<Option<ThreadId>> for Response<'a> {
    open spec fn obeys_from_spec() -> bool {
        true
    }

    open spec fn from_spec(response: Option<ThreadId>) -> Self {
        Response::CurrentThread(response)
    }
}

// This seems a bit specific -- what if some other handler method
// wants to return an Option<u64>?
impl<'a> From<Option<u64>> for Response<'a> {
    fn from(response: Option<u64>) -> (r: Self) {
        Response::SearchResult(response)
    }
}

impl<'a> FromSpecImpl<Option<u64>> for Response<'a> {
    open spec fn obeys_from_spec() -> bool {
        true
    }

    open spec fn from_spec(response: Option<u64>) -> Self {
        Response::SearchResult(response)
    }
}

impl<'a> From<ProcessType> for Response<'a> {
    fn from(process_type: ProcessType) -> (r: Self) {
        Response::ProcessType(process_type)
    }
}

impl<'a> FromSpecImpl<ProcessType> for Response<'a> {
    open spec fn obeys_from_spec() -> bool {
        true
    }

    open spec fn from_spec(process_type: ProcessType) -> Self {
        Response::ProcessType(process_type)
    }
}

impl<'a> From<StopReason> for Response<'a> {
    fn from(reason: StopReason) -> (r: Self) {
        Response::Stopped(reason)
    }
}

impl<'a> FromSpecImpl<StopReason> for Response<'a> {
    open spec fn obeys_from_spec() -> bool {
        true
    }

    open spec fn from_spec(reason: StopReason) -> Self {
        Response::Stopped(reason)
    }
}

impl<'a> From<String> for Response<'a> {
    fn from(reason: String) -> (r: Self) {
        Response::String(Cow::Owned(reason))
    }
}

impl<'a> FromSpecImpl<String> for Response<'a> {
    open spec fn obeys_from_spec() -> bool {
        true
    }

    open spec fn from_spec(reason: String) -> Self {
        Response::String(Cow::Owned(reason))
    }
}

/// A process or thread id, as it is written.
pub open spec fn id_text(id: Id) -> Seq<u8> {
    match id {
        Id::All => encode_utf8("-1"@),
        Id::Any => encode_utf8("0"@),
        Id::Id(num) => lower_hex(num as nat),
    }
}

/// A thread, as it is written.
pub open spec fn thread_id_text(id: ThreadId) -> Seq<u8> {
    encode_utf8("p"@) + id_text(id.pid) + encode_utf8("."@) + id_text(id.tid)
}

/// The reason for a stop, as it is written.
pub open spec fn stop_text(reason: StopReason) -> Seq<u8> {
    match reason {
        StopReason::Signal(signo) => encode_utf8("S"@) + lower_hex_byte(signo),
        StopReason::Exited(pid, status) => encode_utf8("W"@) + lower_hex_byte(status)
            + encode_utf8(";process:"@) + lower_hex(pid as nat),
        StopReason::ExitedWithSignal(pid, status) => encode_utf8("X"@) + lower_hex_byte(status)
            + encode_utf8(";process:"@) + lower_hex(pid as nat),
        StopReason::ThreadExited(id, status) => encode_utf8("w"@) + lower_hex(status as nat)
            + encode_utf8(";"@) + thread_id_text(id),
        StopReason::NoMoreThreads => encode_utf8("N"@),
    }
}

/// The data of the packet that a response is sent in.
pub open spec fn response_data(response: Response<'_>) -> Seq<u8> {
    match response {
        Response::Okay => encode_utf8("OK"@),
        Response::Empty => seq![],
        Response::Error(val) => encode_utf8("E"@) + lower_hex_byte(val),
        Response::String(s) => encode_utf8(s@),
        Response::Output(s) => encode_utf8("O"@) + lower_hex_bytes(encode_utf8(s@)),
        Response::Bytes(bytes) => lower_hex_bytes(bytes@),
        Response::CurrentThread(None) => encode_utf8("OK"@),
        Response::CurrentThread(Some(id)) => encode_utf8("QC"@) + thread_id_text(id),
        Response::ProcessType(ProcessType::Attached) => encode_utf8("1"@),
        Response::ProcessType(ProcessType::Created) => encode_utf8("0"@),
        Response::SearchResult(Some(addr)) => encode_utf8("1,"@) + lower_hex(addr as nat),
        Response::SearchResult(None) => encode_utf8("0"@),
        Response::Stopped(reason) => stop_text(reason),
    }
}

/// Writes a process or thread id.
fn write_id(writer: &mut PacketWriter<'_>, id: Id)
    ensures
        writes(*old(writer), *final(writer), id_text(id)),
        *final(final(writer).writer) == *final(old(writer).writer),
{
    match id {
        Id::All => writer.write_str("-1"),
        Id::Any => writer.write_str("0"),
        Id::Id(num) => writer.write_hex(num as u64),
    }
}

/// Writes a thread.
pub fn write_thread_id(writer: &mut PacketWriter<'_>, thread_id: ThreadId)
    ensures
        writes(*old(writer), *final(writer), thread_id_text(thread_id)),
        *final(final(writer).writer) == *final(old(writer).writer),
{
    writer.write_str("p");
    write_id(writer, thread_id.pid);
    writer.write_str(".");
    write_id(writer, thread_id.tid);
}

/// Writes the data of a response.
fn write_data(writer: &mut PacketWriter<'_>, response: Response<'_>)
    ensures
        writes(*old(writer), *final(writer), response_data(response)),
        *final(final(writer).writer) == *final(old(writer).writer),
{
    match response {
        Response::Okay => {
            writer.write_str("OK");
        },
        Response::Empty => {
            assert(old(writer).writer@ + seq![] =~= old(writer).writer@);
        },
        Response::Error(val) => {
            writer.write_str("E");
            writer.write_hex_byte(val);
        },
        Response::String(s) => match s {
            Cow::Borrowed(text) => writer.write_str(text),
            Cow::Owned(text) => writer.write_str(text.as_str()),
        },
        Response::Output(s) => {
            writer.write_str("O");
            writer.write_hex_bytes(s.as_str().as_bytes());
        },
        Response::Bytes(bytes) => {
            writer.write_hex_bytes(bytes.as_slice());
        },
        Response::CurrentThread(tid) => {
            // This is incorrect if multiprocess hasn't yet been enabled.
            match tid {
                None => writer.write_str("OK"),
                Some(thread_id) => {
                    writer.write_str("QC");
                    write_thread_id(writer, thread_id);
                },
            }
        },
        Response::ProcessType(process_type) => match process_type {
            ProcessType::Attached => writer.write_str("1"),
            ProcessType::Created => writer.write_str("0"),
        },
        Response::SearchResult(maybe_addr) => match maybe_addr {
            Some(addr) => {
                writer.write_str("1,");
                writer.write_hex(addr);
            },
            None => writer.write_str("0"),
        },
        Response::Stopped(stop_reason) => write_stop_reason(writer, stop_reason),
    }
}

/// Writes the reason for a stop.
fn write_stop_reason(writer: &mut PacketWriter<'_>, stop_reason: StopReason)
    ensures
        writes(*old(writer), *final(writer), stop_text(stop_reason)),
        *final(final(writer).writer) == *final(old(writer).writer),
{
    match stop_reason {
        StopReason::Signal(signo) => {
            writer.write_str("S");
            writer.write_hex_byte(signo);
        },
        StopReason::Exited(pid, status) => {
            // Non-multi-process gdb only accepts 2 hex digits
            // for the status.
            writer.write_str("W");
            writer.write_hex_byte(status);
            writer.write_str(";process:");
            writer.write_hex(pid);
        },
        StopReason::ExitedWithSignal(pid, status) => {
            // Non-multi-process gdb only accepts 2 hex digits
            // for the status.
            writer.write_str("X");
            writer.write_hex_byte(status);
            writer.write_str(";process:");
            writer.write_hex(pid);
        },
        StopReason::ThreadExited(thread_id, status) => {
            writer.write_str("w");
            writer.write_hex(status);
            writer.write_str(";");
            write_thread_id(writer, thread_id);
        },
        StopReason::NoMoreThreads => {
            writer.write_str("N");
        },
    }
}

/// Sends a response, in a packet of its own.
pub fn write_response(response: Response<'_>, writer: &mut Vec<u8>)
    ensures
        final(writer)@ == old(writer)@ + framed(response_data(response)),
{
    append_bytes(writer, "$".as_bytes());
    let ghost start = writer@;
    let mut packet = PacketWriter::new(writer);
    write_data(&mut packet, response);
    packet.finish();
    proof {
        assert(old(writer)@ + framed(response_data(response)) =~= start + response_data(response)
            + encode_utf8("#"@) + lower_hex_byte(sum_from(response_data(response), 0)));
    }
}

} // verus!
