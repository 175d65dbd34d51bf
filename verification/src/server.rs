//! The server: from a packet to a call of the handler, and from its result to
//! an answer.
use std::borrow::Cow;
use vstd::prelude::*;
use vstd::std_specs::convert::FromSpec;
use vstd::string::StringExecFns;
use crate::calls::{Asked, Method};
use crate::grammar;
use crate::handler::{Error, Handler, ProcessType, StopReason};
use crate::laws::packet_extent;
use crate::model::{
    bytes_deep_view, numbers_deep_view, Breakpoint, Command, CommandView, GDBFeatureSupported,
    Packet, PacketView, Query, QueryView, ThreadId,
};
use crate::outcome::{tail_of, Parsed, Stop};
use crate::response::{response_data, write_response, Response};
use crate::scan;
use crate::writer::framed;

verus! {

broadcast use {bytes_deep_view, numbers_deep_view};

/// The most bytes of input that are looked at for one packet.
pub const MAX_PACKET_SIZE: usize = 66560;

/// Some texts, one behind the other, with `sep` between them.
pub open spec fn join(items: Seq<Seq<char>>, sep: Seq<char>) -> Seq<char>
    decreases items.len(),
{
    if items.len() == 0 {
        seq![]
    } else if items.len() == 1 {
        items[0]
    } else {
        join(items.drop_last(), sep) + sep + items.last()
    }
}

/// Some texts, one behind the other, with `sep` between them.
fn join_texts(items: &Vec<String>, sep: &str) -> (text: String)
    ensures
        text@ == join(items.deep_view(), sep@),
{
    let mut text = String::new();
    let mut k: usize = 0;
    assert(items.deep_view().take(0) =~= seq![]);
    while k < items.len()
        invariant
            k <= items@.len(),
            text@ == join(items.deep_view().take(k as int), sep@),
        decreases items.len() - k,
    {
        proof {
            let next = items.deep_view().take(k + 1);
            assert(next.drop_last() =~= items.deep_view().take(k as int));
            assert(next.last() == items@[k as int]@);
            assert(k == 0 ==> text@ + items@[0]@ =~= items@[0]@);
        }
        if k > 0 {
            text.append(sep);
        }
        text.append(items[k].as_str());
        k += 1;
    }
    assert(items.deep_view().take(k as int) =~= items.deep_view());
    text
}

/// The features that a server reports: how large a packet may be, and those of
/// its handler.
pub open spec fn reported_features(extra: Seq<Seq<char>>) -> Seq<char> {
    join(seq!["PacketSize=65536"@] + extra, ";"@)
}

/// The answer to a client that lists its features, where the handler has the
/// features `extra`.
pub fn features_response(extra: Vec<String>) -> (response: Response<'static>)
    ensures
        response matches Response::String(text) && text@ == reported_features(extra.deep_view()),
{
    let mut features: Vec<String> = Vec::new();
    features.push("PacketSize=65536".to_string());
    let mut new_features = extra;
    features.append(&mut new_features);
    assert(features.deep_view() =~= seq!["PacketSize=65536"@] + extra.deep_view());
    Response::String(Cow::Owned(join_texts(&features, ";")))
}

/// Asks the handler for its features, once, and makes an answer of them.
fn ask_features<'h, H: Handler>(asked: &mut Asked<'h, H>) -> (response: Response<'static>)
    ensures
        exists|extra: Vec<String>| #[trigger]
            call_ensures(H::query_supported_features, (old(asked).handler(),), extra) && (
            response matches Response::String(text) && text@ == reported_features(
                extra.deep_view(),
            )),
        final(asked).handler() == old(asked).handler(),
        final(asked).made() == old(asked).made() + seq![Method::QuerySupportedFeatures],
{
    let extra = asked.ask(H::query_supported_features, Ghost(Method::QuerySupportedFeatures));
    features_response(extra)
}

/// The answer to a client that lists its features.
pub fn handle_supported_features<'a, H: Handler>(
    handler: &H,
    _features: &Vec<GDBFeatureSupported<'a>>,
) -> (response: Response<'static>)
    ensures
        exists|extra: Vec<String>| #[trigger]
            call_ensures(H::query_supported_features, (handler,), extra)
                && (response matches Response::String(text) && text@ == reported_features(
                extra.deep_view(),
            )),
{
    let mut asked = Asked::new(handler);
    ask_features(&mut asked)
}

/// What came of a request: an answer, or the error that the handler returned.
pub type Outcome = Result<Response<'static>, Error>;

/// `outcome` says what `result` says.
pub open spec fn reports<T>(outcome: Outcome, result: Result<T, Error>) -> bool where
    Response<'static>: From<T>,
 {
    match result {
        Ok(val) => outcome == Ok::<Response<'static>, Error>(
            <Response<'static> as FromSpec<T>>::from_spec(val),
        ),
        Err(e) => outcome == Err::<Response<'static>, Error>(e),
    }
}

/// What came of a request, by what the handler returned.
pub fn outcome_of<T>(result: Result<T, Error>) -> (outcome: Outcome) where
    Response<'static>: From<T>,

    requires
        <Response<'static> as FromSpec<T>>::obeys_from_spec(),
    ensures
        reports(outcome, result),
{
    match result {
        Ok(val) => Ok(<Response<'static> as From<T>>::from(val)),
        Err(e) => Err(e),
    }
}

/// The answer that is sent for an outcome: an error has a number, and a request
/// that is not implemented has an empty answer.
pub open spec fn response_to(outcome: Outcome) -> Response<'static> {
    match outcome {
        Ok(response) => response,
        Err(Error::Error(val)) => Response::Error(val),
        Err(Error::Unimplemented) => Response::Empty,
    }
}

/// The answer that is sent for an outcome.
pub fn respond_to(outcome: Outcome) -> (response: Response<'static>)
    ensures
        response == response_to(outcome),
{
    match outcome {
        Ok(response) => response,
        Err(e) => {
            let failure: Result<(), Error> = Err(e);
            Response::from(failure)
        },
    }
}

/// What came of an invoked command, by what the handler returned.
pub open spec fn invoked(result: Result<String, Error>) -> Outcome {
    match result {
        Ok(val) => Ok(
            if val@.len() == 0 {
                Response::Okay
            } else {
                Response::Output(val)
            },
        ),
        Err(e) => Err(e),
    }
}

/// What came of an invoked command, by what the handler returned.
pub fn invoke_outcome(result: Result<String, Error>) -> (outcome: Outcome)
    ensures
        outcome == invoked(result),
{
    match result {
        Ok(val) => if val.as_str().is_empty() {
            Ok(Response::Okay)
        } else {
            Ok(Response::Output(val))
        },
        Err(e) => Err(e),
    }
}

/// The outcome of a request that is answered without an error.
pub open spec fn answered(response: Response<'static>) -> Outcome {
    Ok(response)
}

/// `outcome` may come of a query: it says what came back from the call of the
/// handler that the query asks for, or what the query calls for by itself.
pub open spec fn answers_query<H: Handler>(
    handler: &H,
    query: QueryView,
    outcome: Outcome,
) -> bool {
    match query {
        QueryView::Attached(pid) => exists|r: Result<ProcessType, Error>| #[trigger]
            call_ensures(H::attached, (handler, pid), r) && reports(outcome, r),
        QueryView::CurrentThread => exists|r: Result<Option<ThreadId>, Error>| #[trigger]
            call_ensures(H::current_thread, (handler,), r) && reports(outcome, r),
        QueryView::Invoke(bytes) => exists|cmd: &[u8], r: Result<String, Error>| #[trigger]
            call_ensures(H::invoke, (handler, cmd), r) && cmd@ == bytes && outcome == invoked(r),
        QueryView::SearchMemory { address, length, bytes } => exists|
            b: &[u8],
            r: Result<Option<u64>, Error>,
        | #[trigger]
            call_ensures(H::search_memory, (handler, address, length, b), r) && b@ == bytes
                && reports(outcome, r),
        QueryView::SupportedFeatures(_) => exists|extra: Vec<String>| #[trigger]
            call_ensures(H::query_supported_features, (handler,), extra) && (
            outcome matches Ok(Response::String(text)) && text@ == reported_features(
                extra.deep_view(),
            )),
        QueryView::StartNoAckMode => outcome == answered(Response::Okay),
        QueryView::AddressRandomization(on) => exists|r: Result<(), Error>| #[trigger]
            call_ensures(H::set_address_randomization, (handler, on), r) && reports(outcome, r),
        QueryView::CatchSyscalls(None) => exists|r: Result<(), Error>| #[trigger]
            call_ensures(H::catch_syscalls, (handler, None), r) && reports(outcome, r),
        QueryView::CatchSyscalls(Some(calls)) => exists|v: Vec<u64>, r: Result<(), Error>|
            #[trigger] call_ensures(H::catch_syscalls, (handler, Some(v)), r) && v@ == calls
                && reports(outcome, r),
        QueryView::PassSignals(signals) => exists|v: Vec<u64>, r: Result<(), Error>| #[trigger]
            call_ensures(H::set_pass_signals, (handler, v), r) && v@ == signals && reports(
                outcome,
                r,
            ),
        QueryView::ProgramSignals(signals) => exists|v: Vec<u64>, r: Result<(), Error>| #[trigger]
            call_ensures(H::set_program_signals, (handler, v), r) && v@ == signals && reports(
                outcome,
                r,
            ),
        QueryView::ThreadInfo(id) => exists|r: Result<String, Error>| #[trigger]
            call_ensures(H::thread_info, (handler, id), r) && reports(outcome, r),
    }
}

/// The methods of the handler that are called for a query.
pub open spec fn methods_of_query(query: QueryView) -> Seq<Method> {
    match query {
        QueryView::Attached(_) => seq![Method::Attached],
        QueryView::CurrentThread => seq![Method::CurrentThread],
        QueryView::Invoke(_) => seq![Method::Invoke],
        QueryView::SearchMemory { .. } => seq![Method::SearchMemory],
        QueryView::SupportedFeatures(_) => seq![Method::QuerySupportedFeatures],
        QueryView::StartNoAckMode => seq![],
        QueryView::AddressRandomization(_) => seq![Method::SetAddressRandomization],
        QueryView::CatchSyscalls(_) => seq![Method::CatchSyscalls],
        QueryView::PassSignals(_) => seq![Method::SetPassSignals],
        QueryView::ProgramSignals(_) => seq![Method::SetProgramSignals],
        QueryView::ThreadInfo(_) => seq![Method::ThreadInfo],
    }
}

/// Does what a query asks for.
pub fn handle_query<'a, 'h, H: Handler>(asked: &mut Asked<'h, H>, query: Query<'a>) -> (outcome:
    Outcome)
    ensures
        answers_query(old(asked).handler(), query.deep_view(), outcome),
        final(asked).handler() == old(asked).handler(),
        final(asked).made() == old(asked).made() + methods_of_query(query.deep_view()),
{
    proof {
        assert(old(asked).made() + seq![] =~= old(asked).made());
    }
    match query {
        Query::Attached(pid) => {
            let result = asked.ask_with(H::attached, pid, Ghost(Method::Attached));
            outcome_of(result)
        },
        Query::CurrentThread => {
            let result = asked.ask(H::current_thread, Ghost(Method::CurrentThread));
            outcome_of(result)
        },
        Query::Invoke(cmd) => {
            let result = asked.ask_with(H::invoke, cmd.as_slice(), Ghost(Method::Invoke));
            invoke_outcome(result)
        },
        Query::SearchMemory { address, length, bytes } => {
            let result = asked.ask_with_three(
                H::search_memory,
                address,
                length,
                bytes.as_slice(),
                Ghost(Method::SearchMemory),
            );
            outcome_of(result)
        },
        Query::SupportedFeatures(_) => Ok(ask_features(asked)),
        Query::StartNoAckMode => Ok(Response::Okay),
        Query::AddressRandomization(randomize) => {
            let result = asked.ask_with(
                H::set_address_randomization,
                randomize,
                Ghost(Method::SetAddressRandomization),
            );
            outcome_of(result)
        },
        Query::CatchSyscalls(calls) => {
            let result = asked.ask_with(H::catch_syscalls, calls, Ghost(Method::CatchSyscalls));
            outcome_of(result)
        },
        Query::PassSignals(signals) => {
            let result = asked.ask_with(
                H::set_pass_signals,
                signals,
                Ghost(Method::SetPassSignals),
            );
            outcome_of(result)
        },
        Query::ProgramSignals(signals) => {
            let result = asked.ask_with(
                H::set_program_signals,
                signals,
                Ghost(Method::SetProgramSignals),
            );
            outcome_of(result)
        },
        Query::ThreadInfo(thread_info) => {
            let result = asked.ask_with(H::thread_info, thread_info, Ghost(Method::ThreadInfo));
            outcome_of(result)
        },
    }
}

/// `outcome` may come of a command: it says what came back from the call of the
/// handler that the command asks for, or what the command calls for by itself.
/// Of a `k` packet comes an empty answer, whatever came back.
pub open spec fn answers_command<H: Handler>(
    handler: &H,
    command: CommandView,
    outcome: Outcome,
) -> bool {
    match command {
        CommandView::EnableExtendedMode => outcome == answered(Response::Okay),
        CommandView::TargetHaltReason => exists|r: Result<StopReason, Error>| #[trigger]
            call_ensures(H::halt_reason, (handler,), r) && reports(outcome, r),
        CommandView::ReadGeneralRegisters => exists|r: Result<Vec<u8>, Error>| #[trigger]
            call_ensures(H::read_general_registers, (handler,), r) && reports(outcome, r),
        CommandView::WriteGeneralRegisters(bytes) => exists|b: &[u8], r: Result<(), Error>|
            #[trigger] call_ensures(H::write_general_registers, (handler, b), r) && b@ == bytes
                && reports(outcome, r),
        CommandView::Kill(None) => outcome == answered(Response::Empty) && exists|
            r: Result<(), Error>,
        | #[trigger]
            call_ensures(H::kill, (handler, None), r),
        CommandView::Kill(Some(pid)) => exists|r: Result<(), Error>| #[trigger]
            call_ensures(H::kill, (handler, Some(pid)), r) && reports(outcome, r),
        CommandView::Reset => outcome == answered(Response::Empty),
        CommandView::ReadRegister(regno) => exists|r: Result<Vec<u8>, Error>| #[trigger]
            call_ensures(H::read_register, (handler, regno), r) && reports(outcome, r),
        CommandView::WriteRegister(regno, bytes) => exists|b: &[u8], r: Result<(), Error>|
            #[trigger] call_ensures(H::write_register, (handler, regno, b), r) && b@ == bytes
                && reports(outcome, r),
        CommandView::ReadMemory(region) => exists|r: Result<Vec<u8>, Error>| #[trigger]
            call_ensures(H::read_memory, (handler, region), r) && reports(outcome, r),
        CommandView::WriteMemory(region, bytes) => if region.length as usize != bytes.len() {
            outcome == answered(Response::Error(1))
        } else {
            exists|b: &[u8], r: Result<(), Error>| #[trigger]
                call_ensures(H::write_memory, (handler, region.address, b), r) && b@ == bytes
                    && reports(outcome, r)
        },
        CommandView::SetCurrentThread(id) => exists|r: Result<(), Error>| #[trigger]
            call_ensures(H::set_current_thread, (handler, id), r) && reports(outcome, r),
        CommandView::Detach(pid) => exists|r: Result<(), Error>| #[trigger]
            call_ensures(H::detach, (handler, pid), r) && reports(outcome, r),
        CommandView::Query(query) => answers_query(handler, query, outcome),
        CommandView::PingThread(id) => exists|r: Result<(), Error>| #[trigger]
            call_ensures(H::ping_thread, (handler, id), r) && reports(outcome, r),
        CommandView::CtrlC => outcome == answered(Response::Empty),
        CommandView::UnknownVCommand => outcome == answered(Response::Empty),
        CommandView::InsertSoftwareBreakpoint(view) => exists|b: Breakpoint, r: Result<(), Error>|
            #[trigger] call_ensures(H::insert_software_breakpoint, (handler, b), r)
                && b.deep_view() == view && reports(outcome, r),
        CommandView::InsertHardwareBreakpoint(view) => exists|b: Breakpoint, r: Result<(), Error>|
            #[trigger] call_ensures(H::insert_hardware_breakpoint, (handler, b), r)
                && b.deep_view() == view && reports(outcome, r),
        CommandView::InsertWriteWatchpoint(w) => exists|r: Result<(), Error>| #[trigger]
            call_ensures(H::insert_write_watchpoint, (handler, w), r) && reports(outcome, r),
        CommandView::InsertReadWatchpoint(w) => exists|r: Result<(), Error>| #[trigger]
            call_ensures(H::insert_read_watchpoint, (handler, w), r) && reports(outcome, r),
        CommandView::InsertAccessWatchpoint(w) => exists|r: Result<(), Error>| #[trigger]
            call_ensures(H::insert_access_watchpoint, (handler, w), r) && reports(outcome, r),
        CommandView::RemoveSoftwareBreakpoint(view) => exists|b: Breakpoint, r: Result<(), Error>|
            #[trigger] call_ensures(H::remove_software_breakpoint, (handler, b), r)
                && b.deep_view() == view && reports(outcome, r),
        CommandView::RemoveHardwareBreakpoint(view) => exists|b: Breakpoint, r: Result<(), Error>|
            #[trigger] call_ensures(H::remove_hardware_breakpoint, (handler, b), r)
                && b.deep_view() == view && reports(outcome, r),
        CommandView::RemoveWriteWatchpoint(w) => exists|r: Result<(), Error>| #[trigger]
            call_ensures(H::remove_write_watchpoint, (handler, w), r) && reports(outcome, r),
        CommandView::RemoveReadWatchpoint(w) => exists|r: Result<(), Error>| #[trigger]
            call_ensures(H::remove_read_watchpoint, (handler, w), r) && reports(outcome, r),
        CommandView::RemoveAccessWatchpoint(w) => exists|r: Result<(), Error>| #[trigger]
            call_ensures(H::remove_access_watchpoint, (handler, w), r) && reports(outcome, r),
        CommandView::Step => exists|r: Result<StopReason, Error>| #[trigger]
            call_ensures(H::step, (handler,), r) && reports(outcome, r),
        CommandView::Continue => exists|r: Result<StopReason, Error>| #[trigger]
            call_ensures(H::cont, (handler,), r) && reports(outcome, r),
    }
}

/// The methods of the handler that are called for a command.
pub open spec fn methods_of(command: CommandView) -> Seq<Method> {
    match command {
        CommandView::Detach(_) => seq![Method::Detach],
        CommandView::EnableExtendedMode => seq![],
        CommandView::TargetHaltReason => seq![Method::HaltReason],
        CommandView::ReadGeneralRegisters => seq![Method::ReadGeneralRegisters],
        CommandView::WriteGeneralRegisters(_) => seq![Method::WriteGeneralRegisters],
        CommandView::ReadRegister(_) => seq![Method::ReadRegister],
        CommandView::WriteRegister(_, _) => seq![Method::WriteRegister],
        CommandView::Kill(_) => seq![Method::Kill],
        CommandView::ReadMemory(_) => seq![Method::ReadMemory],
        CommandView::WriteMemory(region, bytes) => if region.length as usize != bytes.len() {
            seq![]
        } else {
            seq![Method::WriteMemory]
        },
        CommandView::Query(query) => methods_of_query(query),
        CommandView::Reset => seq![],
        CommandView::PingThread(_) => seq![Method::PingThread],
        CommandView::CtrlC => seq![],
        CommandView::UnknownVCommand => seq![],
        CommandView::SetCurrentThread(_) => seq![Method::SetCurrentThread],
        CommandView::InsertSoftwareBreakpoint(_) => seq![Method::InsertSoftwareBreakpoint],
        CommandView::InsertHardwareBreakpoint(_) => seq![Method::InsertHardwareBreakpoint],
        CommandView::InsertWriteWatchpoint(_) => seq![Method::InsertWriteWatchpoint],
        CommandView::InsertReadWatchpoint(_) => seq![Method::InsertReadWatchpoint],
        CommandView::InsertAccessWatchpoint(_) => seq![Method::InsertAccessWatchpoint],
        CommandView::RemoveSoftwareBreakpoint(_) => seq![Method::RemoveSoftwareBreakpoint],
        CommandView::RemoveHardwareBreakpoint(_) => seq![Method::RemoveHardwareBreakpoint],
        CommandView::RemoveWriteWatchpoint(_) => seq![Method::RemoveWriteWatchpoint],
        CommandView::RemoveReadWatchpoint(_) => seq![Method::RemoveReadWatchpoint],
        CommandView::RemoveAccessWatchpoint(_) => seq![Method::RemoveAccessWatchpoint],
        CommandView::Step => seq![Method::Step],
        CommandView::Continue => seq![Method::Cont],
    }
}

/// Does what a command asks for.
pub fn handle_command<'a, 'h, H: Handler>(
    asked: &mut Asked<'h, H>,
    command: Command<'a>,
) -> (outcome: Outcome)
    ensures
        answers_command(old(asked).handler(), command.deep_view(), outcome),
        final(asked).handler() == old(asked).handler(),
        final(asked).made() == old(asked).made() + methods_of(command.deep_view()),
{
    proof {
        assert(old(asked).made() + seq![] =~= old(asked).made());
    }
    match command {
        // We unconditionally support extended mode.
        Command::EnableExtendedMode => Ok(Response::Okay),
        Command::TargetHaltReason => {
            let result = asked.ask(H::halt_reason, Ghost(Method::HaltReason));
            outcome_of(result)
        },
        Command::ReadGeneralRegisters => {
            let result = asked.ask(
                H::read_general_registers,
                Ghost(Method::ReadGeneralRegisters),
            );
            outcome_of(result)
        },
        Command::WriteGeneralRegisters(bytes) => {
            let result = asked.ask_with(
                H::write_general_registers,
                bytes.as_slice(),
                Ghost(Method::WriteGeneralRegisters),
            );
            outcome_of(result)
        },
        Command::Kill(None) => {
            // The k packet requires no response, so purposely
            // ignore the result.
            let _result = asked.ask_with(H::kill, None, Ghost(Method::Kill));
            Ok(Response::Empty)
        },
        Command::Kill(Some(pid)) => {
            let result = asked.ask_with(H::kill, Some(pid), Ghost(Method::Kill));
            outcome_of(result)
        },
        Command::Reset => Ok(Response::Empty),
        Command::ReadRegister(regno) => {
            let result = asked.ask_with(H::read_register, regno, Ghost(Method::ReadRegister));
            outcome_of(result)
        },
        Command::WriteRegister(regno, bytes) => {
            let result = asked.ask_with_two(
                H::write_register,
                regno,
                bytes.as_slice(),
                Ghost(Method::WriteRegister),
            );
            outcome_of(result)
        },
        Command::ReadMemory(region) => {
            let result = asked.ask_with(H::read_memory, region, Ghost(Method::ReadMemory));
            outcome_of(result)
        },
        Command::WriteMemory(region, bytes) => {
            // The docs don't really say what to do if the given
            // length disagrees with the number of bytes sent, so
            // just error if they disagree.
            if region.length as usize != bytes.len() {
                Ok(Response::Error(1))
            } else {
                let result = asked.ask_with_two(
                    H::write_memory,
                    region.address,
                    bytes.as_slice(),
                    Ghost(Method::WriteMemory),
                );
                outcome_of(result)
            }
        },
        Command::SetCurrentThread(thread_id) => {
            let result = asked.ask_with(
                H::set_current_thread,
                thread_id,
                Ghost(Method::SetCurrentThread),
            );
            outcome_of(result)
        },
        Command::Detach(pid) => {
            let result = asked.ask_with(H::detach, pid, Ghost(Method::Detach));
            outcome_of(result)
        },
        Command::Query(query) => handle_query(asked, query),
        Command::PingThread(thread_id) => {
            let result = asked.ask_with(H::ping_thread, thread_id, Ghost(Method::PingThread));
            outcome_of(result)
        },
        // Empty means "not implemented".
        Command::CtrlC => Ok(Response::Empty),
        // Unknown v commands are required to give an empty
        // response.
        Command::UnknownVCommand => Ok(Response::Empty),
        Command::InsertSoftwareBreakpoint(bp) => {
            let result = asked.ask_with(
                H::insert_software_breakpoint,
                bp,
                Ghost(Method::InsertSoftwareBreakpoint),
            );
            outcome_of(result)
        },
        Command::InsertHardwareBreakpoint(bp) => {
            let result = asked.ask_with(
                H::insert_hardware_breakpoint,
                bp,
                Ghost(Method::InsertHardwareBreakpoint),
            );
            outcome_of(result)
        },
        Command::InsertWriteWatchpoint(wp) => {
            let result = asked.ask_with(
                H::insert_write_watchpoint,
                wp,
                Ghost(Method::InsertWriteWatchpoint),
            );
            outcome_of(result)
        },
        Command::InsertReadWatchpoint(wp) => {
            let result = asked.ask_with(
                H::insert_read_watchpoint,
                wp,
                Ghost(Method::InsertReadWatchpoint),
            );
            outcome_of(result)
        },
        Command::InsertAccessWatchpoint(wp) => {
            let result = asked.ask_with(
                H::insert_access_watchpoint,
                wp,
                Ghost(Method::InsertAccessWatchpoint),
            );
            outcome_of(result)
        },
        Command::RemoveSoftwareBreakpoint(bp) => {
            let result = asked.ask_with(
                H::remove_software_breakpoint,
                bp,
                Ghost(Method::RemoveSoftwareBreakpoint),
            );
            outcome_of(result)
        },
        Command::RemoveHardwareBreakpoint(bp) => {
            let result = asked.ask_with(
                H::remove_hardware_breakpoint,
                bp,
                Ghost(Method::RemoveHardwareBreakpoint),
            );
            outcome_of(result)
        },
        Command::RemoveWriteWatchpoint(wp) => {
            let result = asked.ask_with(
                H::remove_write_watchpoint,
                wp,
                Ghost(Method::RemoveWriteWatchpoint),
            );
            outcome_of(result)
        },
        Command::RemoveReadWatchpoint(wp) => {
            let result = asked.ask_with(
                H::remove_read_watchpoint,
                wp,
                Ghost(Method::RemoveReadWatchpoint),
            );
            outcome_of(result)
        },
        Command::RemoveAccessWatchpoint(wp) => {
            let result = asked.ask_with(
                H::remove_access_watchpoint,
                wp,
                Ghost(Method::RemoveAccessWatchpoint),
            );
            outcome_of(result)
        },
        Command::Step => {
            let result = asked.ask(H::step, Ghost(Method::Step));
            outcome_of(result)
        },
        Command::Continue => {
            let result = asked.ask(H::cont, Ghost(Method::Cont));
            outcome_of(result)
        },
    }
}

/// `outcome` may come of the data of a packet.  Data that is no command is
/// answered like a command that is not supported.
pub open spec fn answers<H: Handler>(handler: &H, data: Seq<u8>, outcome: Outcome) -> bool {
    match grammar::command(data) {
        Parsed::Done(_, command) => answers_command(handler, command, outcome),
        _ => outcome == answered(Response::Empty),
    }
}

/// The data of a packet turns acknowledgments off.
pub open spec fn turns_acks_off(data: Seq<u8>) -> bool {
    grammar::command(data) matches Parsed::Done(_, command) && command == CommandView::Query(
        QueryView::StartNoAckMode,
    )
}

/// The methods of the handler that are called for the data of a packet.
pub open spec fn methods_asked(data: Seq<u8>) -> Seq<Method> {
    match grammar::command(data) {
        Parsed::Done(_, command) => methods_of(command),
        _ => seq![],
    }
}

/// Handle a single packet `data` with the handler that `asked` holds and write a
/// response to `writer`.
pub fn answer_packet<'h, H: Handler>(
    data: &[u8],
    asked: &mut Asked<'h, H>,
    writer: &mut Vec<u8>,
) -> (no_ack_mode: bool)
    requires
        grammar::command(data@) != Parsed::<CommandView>::Undefined,
    ensures
        no_ack_mode == turns_acks_off(data@),
        exists|outcome: Outcome| #[trigger]
            answers(old(asked).handler(), data@, outcome) && final(writer)@ == old(writer)@
                + framed(response_data(response_to(outcome))),
        final(asked).handler() == old(asked).handler(),
        final(asked).made() == old(asked).made() + methods_asked(data@),
{
    let mut no_ack_mode = false;
    let outcome = match scan::command(data) {
        Ok((_, command)) => {
            no_ack_mode = matches!(command, Command::Query(Query::StartNoAckMode));
            handle_command(asked, command)
        },
        Err(_) => {
            assert(old(asked).made() + seq![] =~= old(asked).made());
            Ok(Response::Empty)
        },
    };
    assert(answers(old(asked).handler(), data@, outcome));
    write_response(respond_to(outcome), writer);
    no_ack_mode
}

/// Handle a single packet `data` with `handler` and write a response to `writer`.
pub fn handle_packet<H: Handler>(data: &[u8], handler: &H, writer: &mut Vec<u8>) -> (no_ack_mode:
    bool)
    requires
        grammar::command(data@) != Parsed::<CommandView>::Undefined,
    ensures
        no_ack_mode == turns_acks_off(data@),
        exists|outcome: Outcome| #[trigger]
            answers(handler, data@, outcome) && final(writer)@ == old(writer)@ + framed(
                response_data(response_to(outcome)),
            ),
{
    let mut asked = Asked::new(handler);
    answer_packet(data, &mut asked, writer)
}

/// Whether the protocol engine has an answer to the data of a packet.
pub fn can_handle(data: &[u8]) -> (b: bool)
    ensures
        b == (grammar::command(data@) != Parsed::<CommandView>::Undefined),
{
    !matches!(scan::command(data), Err(Stop::Undefined))
}

/// How far `to`, which is a tail of `from`, is from the start of `from`.
pub fn offset(from: &[u8], to: &[u8]) -> (n: usize)
    requires
        tail_of(to@, from@),
    ensures
        n == from@.len() - to@.len(),
        from@.skip(n as int) == to@,
{
    from.len() - to.len()
}

/// The packet at the front of a buffer, if there is one, and its length.
pub fn run_parser(buf: &[u8]) -> (r: Option<(usize, Packet)>)
    ensures
        match grammar::packet_or_response(buf@) {
            Parsed::Done(rest, packet) => r matches Some((len, p)) && p.deep_view() == packet
                && len == buf@.len() - rest.len() && buf@.skip(len as int) == rest,
            _ => r is None,
        },
        r matches Some((len, _)) ==> 0 < len <= buf@.len(),
{
    proof {
        packet_extent(buf@);
    }
    match scan::packet_or_response(buf) {
        Ok((rest, packet)) => Some((offset(buf, rest), packet)),
        Err(_) => None,
    }
}

/// What a server knows between two reads from its client.
pub struct Session {
    /// Packets are acknowledged.
    pub ack_mode: bool,
    /// There is nothing more to read.
    pub done: bool,
}

/// What is to be done about the bytes that were read.
pub struct Turn {
    /// Send an acknowledgment.
    pub ack: bool,
    /// Then handle this data.
    pub data: Option<Vec<u8>>,
    /// Then drop this many bytes from the front of the input.
    pub length: usize,
}

/// The view of a [`Turn`].
#[verifier::ext_equal]
pub struct TurnView {
    pub ack: bool,
    pub data: Option<Seq<u8>>,
    pub length: int,
}

impl View for Turn {
    type V = TurnView;

    open spec fn view(&self) -> TurnView {
        TurnView {
            ack: self.ack,
            data: match self.data {
                Some(data) => Some(data@),
                None => None,
            },
            length: self.length as int,
        }
    }
}

/// What is to be done about the bytes `buf`, where packets are acknowledged or
/// not.  Data is acknowledged and handled; anything else that a client may
/// send is dropped; what is no packet yet is left where it is.
pub open spec fn turn_for(ack_mode: bool, buf: Seq<u8>) -> TurnView {
    match grammar::packet_or_response(buf) {
        Parsed::Done(rest, PacketView::Data(data, _)) => TurnView {
            ack: ack_mode,
            data: Some(data),
            length: buf.len() - rest.len(),
        },
        // Just ignore ACK/NACK/Interrupt
        Parsed::Done(rest, _) => TurnView {
            ack: false,
            data: None,
            length: buf.len() - rest.len(),
        },
        _ => TurnView { ack: false, data: None, length: 0 },
    }
}

/// A session that has read the bytes `buf`: it is over where there are none.
pub open spec fn after_read(session: Session, buf: Seq<u8>) -> Session {
    Session { ack_mode: session.ack_mode, done: session.done || buf.len() == 0 }
}

/// A session in which the data of a packet was handled.
pub open spec fn after_handling(session: Session, no_ack_mode: bool) -> Session {
    Session { ack_mode: session.ack_mode && !no_ack_mode, done: session.done }
}

/// What no event undoes: a session that is over stays over, and packets that
/// are not acknowledged any more stay unacknowledged.
pub open spec fn follows(before: Session, after: Session) -> bool {
    &&& before.done ==> after.done
    &&& !before.ack_mode ==> !after.ack_mode
}

impl Session {
    /// A session at its start.
    pub fn new() -> (s: Session)
        ensures
            s.ack_mode,
            !s.done,
    {
        Session { ack_mode: true, done: false }
    }

    /// Takes note of the bytes that can be read, and tells what to do about them.
    pub fn received(&mut self, buf: &[u8]) -> (turn: Turn)
        ensures
            follows(*old(self), *final(self)),
            *final(self) == after_read(*old(self), buf@),
            turn@ == turn_for(old(self).ack_mode, buf@),
            0 <= turn.length <= buf@.len(),
    {
        if buf.len() == 0 {
            self.done = true;
        }
        match run_parser(buf) {
            Some((length, Packet::Data(data, _))) => Turn {
                ack: self.ack_mode,
                data: Some(data),
                length,
            },
            Some((length, _)) => Turn { ack: false, data: None, length },
            None => Turn { ack: false, data: None, length: 0 },
        }
    }

    /// Takes note that nothing can be read any more.
    pub fn read_failed(&mut self)
        ensures
            follows(*old(self), *final(self)),
            final(self).ack_mode == old(self).ack_mode,
            final(self).done,
    {
        self.done = true;
    }

    /// Takes note of how the data of a packet was handled.
    pub fn handled(&mut self, no_ack_mode: bool)
        ensures
            follows(*old(self), *final(self)),
            *final(self) == after_handling(*old(self), no_ack_mode),
    {
        if no_ack_mode {
            self.ack_mode = false;
        }
    }
}

} // verus!
