//! From the bytes of a packet to the call of the handler, and from what came
//! back to the bytes of the answer.
//!
//! Each law takes the data of a packet apart into what a client wrote, in any
//! digits that stand for it, and says which method of the handler is called, what
//! it is handed, and what the answer tells of its result.  No other method is
//! called, and this one is called once.
use vstd::prelude::*;
use vstd::utf8::encode_utf8;
use crate::calls::Method;
use crate::digits::{spells, spells_bytes};
use crate::forms::{
    attached_process_read, attached_read, binary_for, binary_memory_written, commands_for,
    conditions_for, cont_read, ctrl_c_read, current_thread_read, detach_all_read, detach_read,
    each_behind, ends_lists, ends_row, extended_mode_read, features_listed, halt_reason_read,
    insert_breakpoint_read, insert_watchpoint_read, invoke_read, kill_all_read, kill_read,
    memory_read, memory_written, no_ack_mode_read, no_syscalls_read, pass_signals_read, ping_read,
    program_signals_read, randomization_off_read, randomization_on_read, register_read,
    registers_read, removal_read, reset_code_read, reset_read, search_read, set_thread_read,
    spells_each, step_read, syscalls_read, thread_info_read, write_register_read,
    write_registers_read,
};
use crate::grammar;
use crate::handler::{Error, Handler, ProcessType, StopReason};
use crate::laws::{ends_bytes, ends_number};
use crate::model::{
    bytes_deep_view, Breakpoint, BreakpointView, Bytecode, MemoryRegion, ThreadId, Watchpoint,
    ZType,
};
use crate::refusals::no_letter;
use crate::requests::{first_byte_decides, unknown_v};
use crate::response::Response;
use crate::server::{
    answers, invoked, methods_asked, reported_features, reports, turns_acks_off, Outcome,
};
use crate::threads::writes_thread;
use crate::told::{
    bytes_are_told, bytes_told, current_is_told, current_told, done_is_told, done_told,
    failure_is_told, failure_told, origin_is_told, origin_told, output_is_told, output_told,
    place_is_told, place_told, reply_to, stopped_is_told, stopped_told, text_is_told, text_told,
};

verus! {

broadcast use bytes_deep_view;

/// A word, two rows of digits with `sep` between them, and `rest`.
pub open spec fn two_numbers(
    word: Seq<char>,
    a: Seq<u8>,
    sep: Seq<char>,
    b: Seq<u8>,
    rest: Seq<u8>,
) -> Seq<u8> {
    encode_utf8(word) + (a + (encode_utf8(sep) + (b + rest)))
}

/// `v` holds the expressions of a list, in their order.
pub open spec fn holds_list(v: Option<Vec<Bytecode>>, list: Option<Seq<Seq<u8>>>) -> bool {
    match (v, list) {
        (None, None) => true,
        (Some(v), Some(l)) => v@.len() == l.len() && forall|j: int|
            0 <= j < l.len() ==> (#[trigger] v@[j]).bytecode@ == l[j],
        _ => false,
    }
}

/// `b` is a breakpoint at that address, of that kind, and with those conditions
/// and commands.
pub open spec fn holds(
    b: Breakpoint,
    addr: u64,
    kind: u64,
    conditions: Option<Seq<Seq<u8>>>,
    commands: Option<Seq<Seq<u8>>>,
) -> bool {
    &&& b.addr == addr
    &&& b.kind == kind
    &&& holds_list(b.conditions, conditions)
    &&& holds_list(b.commands, commands)
}

/// The view of a list of expressions says what it holds.
proof fn list_held(v: Option<Vec<Bytecode>>, list: Option<Seq<Seq<u8>>>)
    requires
        v.deep_view() == list,
    ensures
        holds_list(v, list),
{
    if let (Some(v), Some(l)) = (v, list) {
        assert(v.deep_view() == l);
        assert forall|j: int| 0 <= j < l.len() implies (#[trigger] v@[j]).bytecode@ == l[j] by {
            assert(v.deep_view()[j] == v@[j].deep_view());
        }
    }
}

/// The view of a breakpoint says what it holds.
proof fn held(
    b: Breakpoint,
    addr: u64,
    kind: u64,
    conditions: Option<Seq<Seq<u8>>>,
    commands: Option<Seq<Seq<u8>>>,
)
    requires
        b.deep_view() == (BreakpointView { addr, kind, conditions, commands }),
    ensures
        holds(b, addr, kind, conditions, commands),
{
    list_held(b.conditions, conditions);
    list_held(b.commands, commands);
}

/// `?` asks the handler why the target stopped, and the answer says so.
pub proof fn halt_reason_asked<H: Handler>(
    handler: &H,
    rest: Seq<u8>,
    outcome: Outcome,
)
    requires
        answers(handler, encode_utf8("?"@) + rest, outcome),
    ensures
        exists|r: Result<StopReason, Error>| #[trigger]
            call_ensures(H::halt_reason, (handler,), r)
                && stopped_told(r, reply_to(outcome)),
        methods_asked(encode_utf8("?"@) + rest) == seq![Method::HaltReason],
{
    halt_reason_read(rest);
    let r = choose|r: Result<StopReason, Error>| #[trigger]
        call_ensures(H::halt_reason, (handler,), r)
            && reports(outcome, r);
    stopped_is_told(r, outcome);
}

/// `s` asks the handler to make one step, and the answer says why the target
/// stopped then.
pub proof fn step_asked<H: Handler>(
    handler: &H,
    rest: Seq<u8>,
    outcome: Outcome,
)
    requires
        answers(handler, encode_utf8("s"@) + rest, outcome),
    ensures
        exists|r: Result<StopReason, Error>| #[trigger]
            call_ensures(H::step, (handler,), r)
                && stopped_told(r, reply_to(outcome)),
        methods_asked(encode_utf8("s"@) + rest) == seq![Method::Step],
{
    step_read(rest);
    let r = choose|r: Result<StopReason, Error>| #[trigger]
        call_ensures(H::step, (handler,), r)
            && reports(outcome, r);
    stopped_is_told(r, outcome);
}

/// `c` asks the handler to go on, and the answer says why the target stopped
/// then.
pub proof fn cont_asked<H: Handler>(
    handler: &H,
    rest: Seq<u8>,
    outcome: Outcome,
)
    requires
        answers(handler, encode_utf8("c"@) + rest, outcome),
    ensures
        exists|r: Result<StopReason, Error>| #[trigger]
            call_ensures(H::cont, (handler,), r)
                && stopped_told(r, reply_to(outcome)),
        methods_asked(encode_utf8("c"@) + rest) == seq![Method::Cont],
{
    cont_read(rest);
    let r = choose|r: Result<StopReason, Error>| #[trigger]
        call_ensures(H::cont, (handler,), r)
            && reports(outcome, r);
    stopped_is_told(r, outcome);
}

/// `g` asks the handler for the general registers, and the answer gives them.
pub proof fn registers_asked<H: Handler>(
    handler: &H,
    rest: Seq<u8>,
    outcome: Outcome,
)
    requires
        answers(handler, encode_utf8("g"@) + rest, outcome),
    ensures
        exists|r: Result<Vec<u8>, Error>| #[trigger]
            call_ensures(H::read_general_registers, (handler,), r)
                && bytes_told(r, reply_to(outcome)),
        methods_asked(encode_utf8("g"@) + rest) == seq![Method::ReadGeneralRegisters],
{
    registers_read(rest);
    let r = choose|r: Result<Vec<u8>, Error>| #[trigger]
        call_ensures(H::read_general_registers, (handler,), r)
            && reports(outcome, r);
    bytes_are_told(r, outcome);
}

/// `G` hands the handler the bytes that stand behind it for the general
/// registers.
pub proof fn registers_given<H: Handler>(
    handler: &H,
    h: Seq<u8>,
    bytes: Seq<u8>,
    rest: Seq<u8>,
    outcome: Outcome,
)
    requires
        bytes.len() > 0,
        spells_bytes(h, bytes),
        ends_bytes(rest),
        answers(handler, encode_utf8("G"@) + (h + rest), outcome),
    ensures
        exists|b: &[u8], r: Result<(), Error>| #[trigger]
            call_ensures(H::write_general_registers, (handler, b), r)
                && b@ == bytes
                && done_told(r, reply_to(outcome)),
        methods_asked(encode_utf8("G"@) + (h + rest)) == seq![Method::WriteGeneralRegisters],
{
    write_registers_read(h, bytes, rest);
    let (b, r) = choose|b: &[u8], r: Result<(), Error>| #[trigger]
        call_ensures(H::write_general_registers, (handler, b), r)
            && b@ == bytes
            && reports(outcome, r);
    done_is_told(r, outcome);
}

/// `p` asks the handler for the register of which the number stands behind it.
pub proof fn register_asked<H: Handler>(
    handler: &H,
    d: Seq<u8>,
    regno: u64,
    rest: Seq<u8>,
    outcome: Outcome,
)
    requires
        spells(d, regno as nat),
        ends_number(rest),
        answers(handler, encode_utf8("p"@) + (d + rest), outcome),
    ensures
        exists|r: Result<Vec<u8>, Error>| #[trigger]
            call_ensures(H::read_register, (handler, regno), r)
                && bytes_told(r, reply_to(outcome)),
        methods_asked(encode_utf8("p"@) + (d + rest)) == seq![Method::ReadRegister],
{
    register_read(d, regno, rest);
    let r = choose|r: Result<Vec<u8>, Error>| #[trigger]
        call_ensures(H::read_register, (handler, regno), r)
            && reports(outcome, r);
    bytes_are_told(r, outcome);
}

/// `P` hands the handler a register and the bytes for it.
pub proof fn register_given<H: Handler>(
    handler: &H,
    d: Seq<u8>,
    regno: u64,
    h: Seq<u8>,
    bytes: Seq<u8>,
    rest: Seq<u8>,
    outcome: Outcome,
)
    requires
        spells(d, regno as nat),
        bytes.len() > 0,
        spells_bytes(h, bytes),
        ends_bytes(rest),
        answers(handler, encode_utf8("P"@) + (d + (encode_utf8("="@) + (h + rest))), outcome),
    ensures
        exists|b: &[u8], r: Result<(), Error>| #[trigger]
            call_ensures(H::write_register, (handler, regno, b), r)
                && b@ == bytes
                && done_told(r, reply_to(outcome)),
        methods_asked(
            encode_utf8("P"@) + (d + (encode_utf8("="@) + (h + rest))),
        ) == seq![Method::WriteRegister],
{
    write_register_read(d, regno, h, bytes, rest);
    let (b, r) = choose|b: &[u8], r: Result<(), Error>| #[trigger]
        call_ensures(H::write_register, (handler, regno, b), r)
            && b@ == bytes
            && reports(outcome, r);
    done_is_told(r, outcome);
}

/// `m` asks the handler for the memory at the address and of the length that
/// stand behind it, and the answer gives it.
pub proof fn memory_asked<H: Handler>(
    handler: &H,
    da: Seq<u8>,
    address: u64,
    dn: Seq<u8>,
    length: u64,
    rest: Seq<u8>,
    outcome: Outcome,
)
    requires
        spells(da, address as nat),
        spells(dn, length as nat),
        ends_number(rest),
        answers(handler, two_numbers("m"@, da, ","@, dn, rest), outcome),
    ensures
        exists|r: Result<Vec<u8>, Error>| #[trigger]
            call_ensures(H::read_memory, (handler, MemoryRegion { address, length }), r)
                && bytes_told(r, reply_to(outcome)),
        methods_asked(two_numbers("m"@, da, ","@, dn, rest)) == seq![Method::ReadMemory],
{
    memory_read(da, address, dn, length, rest);
    let r = choose|r: Result<Vec<u8>, Error>| #[trigger]
        call_ensures(H::read_memory, (handler, MemoryRegion { address, length }), r)
            && reports(outcome, r);
    bytes_are_told(r, outcome);
}

/// `M` hands the handler an address and the bytes for it, where their number is
/// the length that it gives.
pub proof fn memory_given<H: Handler>(
    handler: &H,
    da: Seq<u8>,
    address: u64,
    dn: Seq<u8>,
    length: u64,
    h: Seq<u8>,
    bytes: Seq<u8>,
    rest: Seq<u8>,
    outcome: Outcome,
)
    requires
        spells(da, address as nat),
        spells(dn, length as nat),
        bytes.len() > 0,
        spells_bytes(h, bytes),
        ends_bytes(rest),
        bytes.len() == length,
        length <= usize::MAX,
        answers(handler, two_numbers("M"@, da, ","@, dn, encode_utf8(":"@) + (h + rest)), outcome),
    ensures
        exists|b: &[u8], r: Result<(), Error>| #[trigger]
            call_ensures(H::write_memory, (handler, address, b), r)
                && b@ == bytes
                && done_told(r, reply_to(outcome)),
        methods_asked(
            two_numbers("M"@, da, ","@, dn, encode_utf8(":"@) + (h + rest)),
        ) == seq![Method::WriteMemory],
{
    memory_written(da, address, dn, length, h, bytes, rest);
    let (b, r) = choose|b: &[u8], r: Result<(), Error>| #[trigger]
        call_ensures(H::write_memory, (handler, address, b), r)
            && b@ == bytes
            && reports(outcome, r);
    done_is_told(r, outcome);
}

/// `X` does the same with binary data.
pub proof fn binary_memory_given<H: Handler>(
    handler: &H,
    da: Seq<u8>,
    address: u64,
    dn: Seq<u8>,
    length: u64,
    coded: Seq<u8>,
    bytes: Seq<u8>,
    outcome: Outcome,
)
    requires
        spells(da, address as nat),
        spells(dn, length as nat),
        bytes.len() > 0,
        binary_for(coded, bytes),
        bytes.len() == length,
        length <= usize::MAX,
        answers(handler, two_numbers("X"@, da, ","@, dn, encode_utf8(":"@) + coded), outcome),
    ensures
        exists|b: &[u8], r: Result<(), Error>| #[trigger]
            call_ensures(H::write_memory, (handler, address, b), r)
                && b@ == bytes
                && done_told(r, reply_to(outcome)),
        methods_asked(
            two_numbers("X"@, da, ","@, dn, encode_utf8(":"@) + coded),
        ) == seq![Method::WriteMemory],
{
    binary_memory_written(da, address, dn, length, coded, bytes);
    let (b, r) = choose|b: &[u8], r: Result<(), Error>| #[trigger]
        call_ensures(H::write_memory, (handler, address, b), r)
            && b@ == bytes
            && reports(outcome, r);
    done_is_told(r, outcome);
}

/// `Hg` tells the handler which thread is the current one.
pub proof fn thread_set<H: Handler>(
    handler: &H,
    text: Seq<u8>,
    id: ThreadId,
    rest: Seq<u8>,
    outcome: Outcome,
)
    requires
        writes_thread(text, id, rest),
        answers(handler, encode_utf8("Hg"@) + (text + rest), outcome),
    ensures
        exists|r: Result<(), Error>| #[trigger]
            call_ensures(H::set_current_thread, (handler, id), r)
                && done_told(r, reply_to(outcome)),
        methods_asked(encode_utf8("Hg"@) + (text + rest)) == seq![Method::SetCurrentThread],
{
    set_thread_read(text, id, rest);
    let r = choose|r: Result<(), Error>| #[trigger]
        call_ensures(H::set_current_thread, (handler, id), r)
            && reports(outcome, r);
    done_is_told(r, outcome);
}

/// `T` asks the handler whether the thread behind it is alive.
pub proof fn thread_pinged<H: Handler>(
    handler: &H,
    text: Seq<u8>,
    id: ThreadId,
    rest: Seq<u8>,
    outcome: Outcome,
)
    requires
        writes_thread(text, id, rest),
        answers(handler, encode_utf8("T"@) + (text + rest), outcome),
    ensures
        exists|r: Result<(), Error>| #[trigger]
            call_ensures(H::ping_thread, (handler, id), r)
                && done_told(r, reply_to(outcome)),
        methods_asked(encode_utf8("T"@) + (text + rest)) == seq![Method::PingThread],
{
    ping_read(text, id, rest);
    let r = choose|r: Result<(), Error>| #[trigger]
        call_ensures(H::ping_thread, (handler, id), r)
            && reports(outcome, r);
    done_is_told(r, outcome);
}

/// `qThreadExtraInfo,` asks the handler what there is to say of a thread, and
/// the answer is that text.
pub proof fn thread_info_asked<H: Handler>(
    handler: &H,
    text: Seq<u8>,
    id: ThreadId,
    rest: Seq<u8>,
    outcome: Outcome,
)
    requires
        writes_thread(text, id, rest),
        answers(handler, encode_utf8("qThreadExtraInfo,"@) + (text + rest), outcome),
    ensures
        exists|r: Result<String, Error>| #[trigger]
            call_ensures(H::thread_info, (handler, id), r)
                && text_told(r, reply_to(outcome)),
        methods_asked(
            encode_utf8("qThreadExtraInfo,"@) + (text + rest),
        ) == seq![Method::ThreadInfo],
{
    thread_info_read(text, id, rest);
    let r = choose|r: Result<String, Error>| #[trigger]
        call_ensures(H::thread_info, (handler, id), r)
            && reports(outcome, r);
    text_is_told(r, outcome);
}

/// `vKill;` asks the handler to kill the process behind it.
pub proof fn process_killed<H: Handler>(
    handler: &H,
    d: Seq<u8>,
    pid: u64,
    rest: Seq<u8>,
    outcome: Outcome,
)
    requires
        spells(d, pid as nat),
        ends_number(rest),
        answers(handler, encode_utf8("vKill;"@) + (d + rest), outcome),
    ensures
        exists|r: Result<(), Error>| #[trigger]
            call_ensures(H::kill, (handler, Some(pid)), r)
                && done_told(r, reply_to(outcome)),
        methods_asked(encode_utf8("vKill;"@) + (d + rest)) == seq![Method::Kill],
{
    kill_read(d, pid, rest);
    let r = choose|r: Result<(), Error>| #[trigger]
        call_ensures(H::kill, (handler, Some(pid)), r)
            && reports(outcome, r);
    done_is_told(r, outcome);
}

/// `D;` asks the handler to detach from the process behind it.
pub proof fn process_detached<H: Handler>(
    handler: &H,
    d: Seq<u8>,
    pid: u64,
    rest: Seq<u8>,
    outcome: Outcome,
)
    requires
        spells(d, pid as nat),
        ends_number(rest),
        answers(handler, encode_utf8("D;"@) + (d + rest), outcome),
    ensures
        exists|r: Result<(), Error>| #[trigger]
            call_ensures(H::detach, (handler, Some(pid)), r)
                && done_told(r, reply_to(outcome)),
        methods_asked(encode_utf8("D;"@) + (d + rest)) == seq![Method::Detach],
{
    detach_read(d, pid, rest);
    let r = choose|r: Result<(), Error>| #[trigger]
        call_ensures(H::detach, (handler, Some(pid)), r)
            && reports(outcome, r);
    done_is_told(r, outcome);
}

/// `D` with no process behind it asks the handler to detach.
pub proof fn all_detached<H: Handler>(
    handler: &H,
    rest: Seq<u8>,
    outcome: Outcome,
)
    requires
        rest.len() > 0 && rest[0] == 0x3b ==> ends_number(rest.skip(1)),
        answers(handler, encode_utf8("D"@) + rest, outcome),
    ensures
        exists|r: Result<(), Error>| #[trigger]
            call_ensures(H::detach, (handler, None), r)
                && done_told(r, reply_to(outcome)),
        methods_asked(encode_utf8("D"@) + rest) == seq![Method::Detach],
{
    detach_all_read(rest);
    let r = choose|r: Result<(), Error>| #[trigger]
        call_ensures(H::detach, (handler, None), r)
            && reports(outcome, r);
    done_is_told(r, outcome);
}

/// `qAttached:` asks the handler how the process behind it came to be debugged.
pub proof fn origin_of_process_asked<H: Handler>(
    handler: &H,
    d: Seq<u8>,
    pid: u64,
    rest: Seq<u8>,
    outcome: Outcome,
)
    requires
        spells(d, pid as nat),
        ends_number(rest),
        answers(handler, encode_utf8("qAttached:"@) + (d + rest), outcome),
    ensures
        exists|r: Result<ProcessType, Error>| #[trigger]
            call_ensures(H::attached, (handler, Some(pid)), r)
                && origin_told(r, reply_to(outcome)),
        methods_asked(encode_utf8("qAttached:"@) + (d + rest)) == seq![Method::Attached],
{
    attached_process_read(d, pid, rest);
    let r = choose|r: Result<ProcessType, Error>| #[trigger]
        call_ensures(H::attached, (handler, Some(pid)), r)
            && reports(outcome, r);
    origin_is_told(r, outcome);
}

/// `qAttached` with no process behind it asks the handler how the process came to
/// be debugged.
pub proof fn origin_asked<H: Handler>(
    handler: &H,
    rest: Seq<u8>,
    outcome: Outcome,
)
    requires
        rest.len() > 0 && rest[0] == 0x3a ==> ends_number(rest.skip(1)),
        answers(handler, encode_utf8("qAttached"@) + rest, outcome),
    ensures
        exists|r: Result<ProcessType, Error>| #[trigger]
            call_ensures(H::attached, (handler, None), r)
                && origin_told(r, reply_to(outcome)),
        methods_asked(encode_utf8("qAttached"@) + rest) == seq![Method::Attached],
{
    attached_read(rest);
    let r = choose|r: Result<ProcessType, Error>| #[trigger]
        call_ensures(H::attached, (handler, None), r)
            && reports(outcome, r);
    origin_is_told(r, outcome);
}

/// `qC` asks the handler for the current thread, and the answer gives it.
pub proof fn current_thread_asked<H: Handler>(
    handler: &H,
    rest: Seq<u8>,
    outcome: Outcome,
)
    requires
        answers(handler, encode_utf8("qC"@) + rest, outcome),
    ensures
        exists|r: Result<Option<ThreadId>, Error>| #[trigger]
            call_ensures(H::current_thread, (handler,), r)
                && current_told(r, reply_to(outcome)),
        methods_asked(encode_utf8("qC"@) + rest) == seq![Method::CurrentThread],
{
    current_thread_read(rest);
    let r = choose|r: Result<Option<ThreadId>, Error>| #[trigger]
        call_ensures(H::current_thread, (handler,), r)
            && reports(outcome, r);
    current_is_told(r, outcome);
}

/// `qRcmd,` hands the handler a command, and the answer gives its output.
pub proof fn command_invoked<H: Handler>(
    handler: &H,
    h: Seq<u8>,
    bytes: Seq<u8>,
    rest: Seq<u8>,
    outcome: Outcome,
)
    requires
        bytes.len() > 0,
        spells_bytes(h, bytes),
        ends_bytes(rest),
        answers(handler, encode_utf8("qRcmd,"@) + (h + rest), outcome),
    ensures
        exists|b: &[u8], r: Result<String, Error>| #[trigger]
            call_ensures(H::invoke, (handler, b), r)
                && b@ == bytes
                && output_told(r, reply_to(outcome)),
        methods_asked(encode_utf8("qRcmd,"@) + (h + rest)) == seq![Method::Invoke],
{
    invoke_read(h, bytes, rest);
    let (b, r) = choose|b: &[u8], r: Result<String, Error>| #[trigger]
        call_ensures(H::invoke, (handler, b), r)
            && b@ == bytes
            && outcome == invoked(r);
    output_is_told(r);
}

/// `qSearch:memory:` asks the handler to look for bytes, at the address and in
/// the length that stand in front of them, and the answer says where they are.
pub proof fn memory_searched<H: Handler>(
    handler: &H,
    da: Seq<u8>,
    address: u64,
    dn: Seq<u8>,
    length: u64,
    h: Seq<u8>,
    bytes: Seq<u8>,
    rest: Seq<u8>,
    outcome: Outcome,
)
    requires
        spells(da, address as nat),
        spells(dn, length as nat),
        bytes.len() > 0,
        spells_bytes(h, bytes),
        ends_bytes(rest),
        answers(
            handler,
            two_numbers("qSearch:memory:"@, da, ";"@, dn, encode_utf8(";"@) + (h + rest)),
            outcome,
        ),
    ensures
        exists|b: &[u8], r: Result<Option<u64>, Error>| #[trigger]
            call_ensures(H::search_memory, (handler, address, length, b), r)
                && b@ == bytes
                && place_told(r, reply_to(outcome)),
        methods_asked(
            two_numbers("qSearch:memory:"@, da, ";"@, dn, encode_utf8(";"@) + (h + rest)),
        ) == seq![Method::SearchMemory],
{
    search_read(da, address, dn, length, h, bytes, rest);
    let (b, r) = choose|b: &[u8], r: Result<Option<u64>, Error>| #[trigger]
        call_ensures(H::search_memory, (handler, address, length, b), r)
            && b@ == bytes
            && reports(outcome, r);
    place_is_told(r, outcome);
}

/// `QDisableRandomization:0` asks the handler for address randomization.
pub proof fn randomization_wanted<H: Handler>(
    handler: &H,
    rest: Seq<u8>,
    outcome: Outcome,
)
    requires
        answers(handler, encode_utf8("QDisableRandomization:0"@) + rest, outcome),
    ensures
        exists|r: Result<(), Error>| #[trigger]
            call_ensures(H::set_address_randomization, (handler, true), r)
                && done_told(r, reply_to(outcome)),
        methods_asked(
            encode_utf8("QDisableRandomization:0"@) + rest,
        ) == seq![Method::SetAddressRandomization],
{
    randomization_on_read(rest);
    let r = choose|r: Result<(), Error>| #[trigger]
        call_ensures(H::set_address_randomization, (handler, true), r)
            && reports(outcome, r);
    done_is_told(r, outcome);
}

/// `QDisableRandomization:1` asks the handler to do without address
/// randomization.
pub proof fn randomization_unwanted<H: Handler>(
    handler: &H,
    rest: Seq<u8>,
    outcome: Outcome,
)
    requires
        answers(handler, encode_utf8("QDisableRandomization:1"@) + rest, outcome),
    ensures
        exists|r: Result<(), Error>| #[trigger]
            call_ensures(H::set_address_randomization, (handler, false), r)
                && done_told(r, reply_to(outcome)),
        methods_asked(
            encode_utf8("QDisableRandomization:1"@) + rest,
        ) == seq![Method::SetAddressRandomization],
{
    randomization_off_read(rest);
    let r = choose|r: Result<(), Error>| #[trigger]
        call_ensures(H::set_address_randomization, (handler, false), r)
            && reports(outcome, r);
    done_is_told(r, outcome);
}

/// `QCatchSyscalls:0` asks the handler to catch no system calls.
pub proof fn no_syscalls_caught<H: Handler>(
    handler: &H,
    rest: Seq<u8>,
    outcome: Outcome,
)
    requires
        answers(handler, encode_utf8("QCatchSyscalls:0"@) + rest, outcome),
    ensures
        exists|r: Result<(), Error>| #[trigger]
            call_ensures(H::catch_syscalls, (handler, None), r)
                && done_told(r, reply_to(outcome)),
        methods_asked(encode_utf8("QCatchSyscalls:0"@) + rest) == seq![Method::CatchSyscalls],
{
    no_syscalls_read(rest);
    let r = choose|r: Result<(), Error>| #[trigger]
        call_ensures(H::catch_syscalls, (handler, None), r)
            && reports(outcome, r);
    done_is_told(r, outcome);
}

/// `QCatchSyscalls:1` asks the handler to catch the system calls behind it.
pub proof fn syscalls_caught<H: Handler>(
    handler: &H,
    digits: Seq<Seq<u8>>,
    list: Seq<u64>,
    rest: Seq<u8>,
    outcome: Outcome,
)
    requires
        spells_each(digits, list),
        ends_row(rest),
        answers(handler, encode_utf8("QCatchSyscalls:1"@) + (each_behind(digits) + rest), outcome),
    ensures
        exists|v: Vec<u64>, r: Result<(), Error>| #[trigger]
            call_ensures(H::catch_syscalls, (handler, Some(v)), r)
                && v@ == list
                && done_told(r, reply_to(outcome)),
        methods_asked(
            encode_utf8("QCatchSyscalls:1"@) + (each_behind(digits) + rest),
        ) == seq![Method::CatchSyscalls],
{
    syscalls_read(digits, list, rest);
    let (v, r) = choose|v: Vec<u64>, r: Result<(), Error>| #[trigger]
        call_ensures(H::catch_syscalls, (handler, Some(v)), r)
            && v@ == list
            && reports(outcome, r);
    done_is_told(r, outcome);
}

/// `QPassSignals:` hands the handler the signals behind it, in their order.
pub proof fn signals_passed<H: Handler>(
    handler: &H,
    digits: Seq<Seq<u8>>,
    list: Seq<u64>,
    rest: Seq<u8>,
    outcome: Outcome,
)
    requires
        list.len() > 0,
        spells_each(digits, list),
        ends_row(rest),
        answers(
            handler,
            encode_utf8("QPassSignals:"@) + (digits[0] + (each_behind(digits.skip(1)) + rest)),
            outcome,
        ),
    ensures
        exists|v: Vec<u64>, r: Result<(), Error>| #[trigger]
            call_ensures(H::set_pass_signals, (handler, v), r)
                && v@ == list
                && done_told(r, reply_to(outcome)),
        methods_asked(
            encode_utf8("QPassSignals:"@) + (digits[0] + (each_behind(digits.skip(1)) + rest)),
        ) == seq![Method::SetPassSignals],
{
    pass_signals_read(digits, list, rest);
    let (v, r) = choose|v: Vec<u64>, r: Result<(), Error>| #[trigger]
        call_ensures(H::set_pass_signals, (handler, v), r)
            && v@ == list
            && reports(outcome, r);
    done_is_told(r, outcome);
}

/// `QProgramSignals:` hands the handler the signals behind it, in their order.
pub proof fn signals_programmed<H: Handler>(
    handler: &H,
    digits: Seq<Seq<u8>>,
    list: Seq<u64>,
    rest: Seq<u8>,
    outcome: Outcome,
)
    requires
        list.len() > 0,
        spells_each(digits, list),
        ends_row(rest),
        answers(
            handler,
            encode_utf8("QProgramSignals:"@) + (digits[0] + (each_behind(digits.skip(1)) + rest)),
            outcome,
        ),
    ensures
        exists|v: Vec<u64>, r: Result<(), Error>| #[trigger]
            call_ensures(H::set_program_signals, (handler, v), r)
                && v@ == list
                && done_told(r, reply_to(outcome)),
        methods_asked(
            encode_utf8("QProgramSignals:"@) + (digits[0] + (each_behind(digits.skip(1)) + rest)),
        ) == seq![Method::SetProgramSignals],
{
    program_signals_read(digits, list, rest);
    let (v, r) = choose|v: Vec<u64>, r: Result<(), Error>| #[trigger]
        call_ensures(H::set_program_signals, (handler, v), r)
            && v@ == list
            && reports(outcome, r);
    done_is_told(r, outcome);
}

/// `Z0,` asks the handler to insert a software breakpoint, at the address, of
/// the kind, and with the conditions and commands that stand behind it.
pub proof fn software_breakpoint_inserted<H: Handler>(
    handler: &H,
    da: Seq<u8>,
    addr: u64,
    dk: Seq<u8>,
    kind: u64,
    conditions_text: Seq<u8>,
    conditions: Option<Seq<Seq<u8>>>,
    commands_text: Seq<u8>,
    commands: Option<Seq<Seq<u8>>>,
    rest: Seq<u8>,
    outcome: Outcome,
)
    requires
        spells(da, addr as nat),
        spells(dk, kind as nat),
        conditions_for(conditions_text, conditions),
        commands_for(commands_text, commands),
        ends_lists(commands, rest),
        answers(
            handler,
            two_numbers("Z0,"@, da, ","@, dk, conditions_text + (commands_text + rest)),
            outcome,
        ),
    ensures
        exists|b: Breakpoint, r: Result<(), Error>| #[trigger]
            call_ensures(H::insert_software_breakpoint, (handler, b), r)
                && holds(b, addr, kind, conditions, commands)
                && done_told(r, reply_to(outcome)),
        methods_asked(
            two_numbers("Z0,"@, da, ","@, dk, conditions_text + (commands_text + rest)),
        ) == seq![Method::InsertSoftwareBreakpoint],
{
    reveal_strlit("Z0,");
    insert_breakpoint_read(
        "Z0,"@,
        ZType::SoftwareBreakpoint,
        da,
        addr,
        dk,
        kind,
        conditions_text,
        conditions,
        commands_text,
        commands,
        rest,
    );
    let (b, r) = choose|b: Breakpoint, r: Result<(), Error>| #[trigger]
        call_ensures(H::insert_software_breakpoint, (handler, b), r)
            && b.deep_view() == (BreakpointView { addr, kind, conditions, commands })
            && reports(outcome, r);
    held(b, addr, kind, conditions, commands);
    done_is_told(r, outcome);
}

/// `z0,` asks the handler to remove a software breakpoint, at the address and
/// of the kind that stand behind it.
pub proof fn software_breakpoint_removed<H: Handler>(
    handler: &H,
    da: Seq<u8>,
    addr: u64,
    dk: Seq<u8>,
    kind: u64,
    rest: Seq<u8>,
    outcome: Outcome,
)
    requires
        spells(da, addr as nat),
        spells(dk, kind as nat),
        ends_number(rest),
        answers(handler, two_numbers("z0,"@, da, ","@, dk, rest), outcome),
    ensures
        exists|b: Breakpoint, r: Result<(), Error>| #[trigger]
            call_ensures(H::remove_software_breakpoint, (handler, b), r)
                && holds(b, addr, kind, None, None)
                && done_told(r, reply_to(outcome)),
        methods_asked(
            two_numbers("z0,"@, da, ","@, dk, rest),
        ) == seq![Method::RemoveSoftwareBreakpoint],
{
    reveal_strlit("z0,");
    removal_read("z0,"@, ZType::SoftwareBreakpoint, da, addr, dk, kind, rest);
    let (b, r) = choose|b: Breakpoint, r: Result<(), Error>| #[trigger]
        call_ensures(H::remove_software_breakpoint, (handler, b), r)
            && b.deep_view() == (BreakpointView { addr, kind, conditions: None, commands: None })
            && reports(outcome, r);
    held(b, addr, kind, None, None);
    done_is_told(r, outcome);
}

/// `Z1,` asks the handler to insert a hardware breakpoint, at the address, of
/// the kind, and with the conditions and commands that stand behind it.
pub proof fn hardware_breakpoint_inserted<H: Handler>(
    handler: &H,
    da: Seq<u8>,
    addr: u64,
    dk: Seq<u8>,
    kind: u64,
    conditions_text: Seq<u8>,
    conditions: Option<Seq<Seq<u8>>>,
    commands_text: Seq<u8>,
    commands: Option<Seq<Seq<u8>>>,
    rest: Seq<u8>,
    outcome: Outcome,
)
    requires
        spells(da, addr as nat),
        spells(dk, kind as nat),
        conditions_for(conditions_text, conditions),
        commands_for(commands_text, commands),
        ends_lists(commands, rest),
        answers(
            handler,
            two_numbers("Z1,"@, da, ","@, dk, conditions_text + (commands_text + rest)),
            outcome,
        ),
    ensures
        exists|b: Breakpoint, r: Result<(), Error>| #[trigger]
            call_ensures(H::insert_hardware_breakpoint, (handler, b), r)
                && holds(b, addr, kind, conditions, commands)
                && done_told(r, reply_to(outcome)),
        methods_asked(
            two_numbers("Z1,"@, da, ","@, dk, conditions_text + (commands_text + rest)),
        ) == seq![Method::InsertHardwareBreakpoint],
{
    reveal_strlit("Z1,");
    insert_breakpoint_read(
        "Z1,"@,
        ZType::HardwareBreakpoint,
        da,
        addr,
        dk,
        kind,
        conditions_text,
        conditions,
        commands_text,
        commands,
        rest,
    );
    let (b, r) = choose|b: Breakpoint, r: Result<(), Error>| #[trigger]
        call_ensures(H::insert_hardware_breakpoint, (handler, b), r)
            && b.deep_view() == (BreakpointView { addr, kind, conditions, commands })
            && reports(outcome, r);
    held(b, addr, kind, conditions, commands);
    done_is_told(r, outcome);
}

/// `z1,` asks the handler to remove a hardware breakpoint, at the address and
/// of the kind that stand behind it.
pub proof fn hardware_breakpoint_removed<H: Handler>(
    handler: &H,
    da: Seq<u8>,
    addr: u64,
    dk: Seq<u8>,
    kind: u64,
    rest: Seq<u8>,
    outcome: Outcome,
)
    requires
        spells(da, addr as nat),
        spells(dk, kind as nat),
        ends_number(rest),
        answers(handler, two_numbers("z1,"@, da, ","@, dk, rest), outcome),
    ensures
        exists|b: Breakpoint, r: Result<(), Error>| #[trigger]
            call_ensures(H::remove_hardware_breakpoint, (handler, b), r)
                && holds(b, addr, kind, None, None)
                && done_told(r, reply_to(outcome)),
        methods_asked(
            two_numbers("z1,"@, da, ","@, dk, rest),
        ) == seq![Method::RemoveHardwareBreakpoint],
{
    reveal_strlit("z1,");
    removal_read("z1,"@, ZType::HardwareBreakpoint, da, addr, dk, kind, rest);
    let (b, r) = choose|b: Breakpoint, r: Result<(), Error>| #[trigger]
        call_ensures(H::remove_hardware_breakpoint, (handler, b), r)
            && b.deep_view() == (BreakpointView { addr, kind, conditions: None, commands: None })
            && reports(outcome, r);
    held(b, addr, kind, None, None);
    done_is_told(r, outcome);
}

/// `Z2,` asks the handler to insert a write watchpoint, at the address and of
/// the length that stand behind it.
pub proof fn write_watchpoint_inserted<H: Handler>(
    handler: &H,
    da: Seq<u8>,
    addr: u64,
    dk: Seq<u8>,
    n_bytes: u64,
    rest: Seq<u8>,
    outcome: Outcome,
)
    requires
        spells(da, addr as nat),
        spells(dk, n_bytes as nat),
        ends_number(rest),
        answers(handler, two_numbers("Z2,"@, da, ","@, dk, rest), outcome),
    ensures
        exists|r: Result<(), Error>| #[trigger]
            call_ensures(H::insert_write_watchpoint, (handler, Watchpoint { addr, n_bytes }), r)
                && done_told(r, reply_to(outcome)),
        methods_asked(
            two_numbers("Z2,"@, da, ","@, dk, rest),
        ) == seq![Method::InsertWriteWatchpoint],
{
    reveal_strlit("Z2,");
    insert_watchpoint_read("Z2,"@, ZType::WriteWatchpoint, da, addr, dk, n_bytes, rest);
    let r = choose|r: Result<(), Error>| #[trigger]
        call_ensures(H::insert_write_watchpoint, (handler, Watchpoint { addr, n_bytes }), r)
            && reports(outcome, r);
    done_is_told(r, outcome);
}

/// `z2,` asks the handler to remove a write watchpoint, at the address and of
/// the length that stand behind it.
pub proof fn write_watchpoint_removed<H: Handler>(
    handler: &H,
    da: Seq<u8>,
    addr: u64,
    dk: Seq<u8>,
    n_bytes: u64,
    rest: Seq<u8>,
    outcome: Outcome,
)
    requires
        spells(da, addr as nat),
        spells(dk, n_bytes as nat),
        ends_number(rest),
        answers(handler, two_numbers("z2,"@, da, ","@, dk, rest), outcome),
    ensures
        exists|r: Result<(), Error>| #[trigger]
            call_ensures(H::remove_write_watchpoint, (handler, Watchpoint { addr, n_bytes }), r)
                && done_told(r, reply_to(outcome)),
        methods_asked(
            two_numbers("z2,"@, da, ","@, dk, rest),
        ) == seq![Method::RemoveWriteWatchpoint],
{
    reveal_strlit("z2,");
    removal_read("z2,"@, ZType::WriteWatchpoint, da, addr, dk, n_bytes, rest);
    let r = choose|r: Result<(), Error>| #[trigger]
        call_ensures(H::remove_write_watchpoint, (handler, Watchpoint { addr, n_bytes }), r)
            && reports(outcome, r);
    done_is_told(r, outcome);
}

/// `Z3,` asks the handler to insert a read watchpoint, at the address and of
/// the length that stand behind it.
pub proof fn read_watchpoint_inserted<H: Handler>(
    handler: &H,
    da: Seq<u8>,
    addr: u64,
    dk: Seq<u8>,
    n_bytes: u64,
    rest: Seq<u8>,
    outcome: Outcome,
)
    requires
        spells(da, addr as nat),
        spells(dk, n_bytes as nat),
        ends_number(rest),
        answers(handler, two_numbers("Z3,"@, da, ","@, dk, rest), outcome),
    ensures
        exists|r: Result<(), Error>| #[trigger]
            call_ensures(H::insert_read_watchpoint, (handler, Watchpoint { addr, n_bytes }), r)
                && done_told(r, reply_to(outcome)),
        methods_asked(
            two_numbers("Z3,"@, da, ","@, dk, rest),
        ) == seq![Method::InsertReadWatchpoint],
{
    reveal_strlit("Z3,");
    insert_watchpoint_read("Z3,"@, ZType::ReadWatchpoint, da, addr, dk, n_bytes, rest);
    let r = choose|r: Result<(), Error>| #[trigger]
        call_ensures(H::insert_read_watchpoint, (handler, Watchpoint { addr, n_bytes }), r)
            && reports(outcome, r);
    done_is_told(r, outcome);
}

/// `z3,` asks the handler to remove a read watchpoint, at the address and of
/// the length that stand behind it.
pub proof fn read_watchpoint_removed<H: Handler>(
    handler: &H,
    da: Seq<u8>,
    addr: u64,
    dk: Seq<u8>,
    n_bytes: u64,
    rest: Seq<u8>,
    outcome: Outcome,
)
    requires
        spells(da, addr as nat),
        spells(dk, n_bytes as nat),
        ends_number(rest),
        answers(handler, two_numbers("z3,"@, da, ","@, dk, rest), outcome),
    ensures
        exists|r: Result<(), Error>| #[trigger]
            call_ensures(H::remove_read_watchpoint, (handler, Watchpoint { addr, n_bytes }), r)
                && done_told(r, reply_to(outcome)),
        methods_asked(
            two_numbers("z3,"@, da, ","@, dk, rest),
        ) == seq![Method::RemoveReadWatchpoint],
{
    reveal_strlit("z3,");
    removal_read("z3,"@, ZType::ReadWatchpoint, da, addr, dk, n_bytes, rest);
    let r = choose|r: Result<(), Error>| #[trigger]
        call_ensures(H::remove_read_watchpoint, (handler, Watchpoint { addr, n_bytes }), r)
            && reports(outcome, r);
    done_is_told(r, outcome);
}

/// `Z4,` asks the handler to insert an access watchpoint, at the address and of
/// the length that stand behind it.
pub proof fn access_watchpoint_inserted<H: Handler>(
    handler: &H,
    da: Seq<u8>,
    addr: u64,
    dk: Seq<u8>,
    n_bytes: u64,
    rest: Seq<u8>,
    outcome: Outcome,
)
    requires
        spells(da, addr as nat),
        spells(dk, n_bytes as nat),
        ends_number(rest),
        answers(handler, two_numbers("Z4,"@, da, ","@, dk, rest), outcome),
    ensures
        exists|r: Result<(), Error>| #[trigger]
            call_ensures(H::insert_access_watchpoint, (handler, Watchpoint { addr, n_bytes }), r)
                && done_told(r, reply_to(outcome)),
        methods_asked(
            two_numbers("Z4,"@, da, ","@, dk, rest),
        ) == seq![Method::InsertAccessWatchpoint],
{
    reveal_strlit("Z4,");
    insert_watchpoint_read("Z4,"@, ZType::AccessWatchpoint, da, addr, dk, n_bytes, rest);
    let r = choose|r: Result<(), Error>| #[trigger]
        call_ensures(H::insert_access_watchpoint, (handler, Watchpoint { addr, n_bytes }), r)
            && reports(outcome, r);
    done_is_told(r, outcome);
}

/// `z4,` asks the handler to remove an access watchpoint, at the address and of
/// the length that stand behind it.
pub proof fn access_watchpoint_removed<H: Handler>(
    handler: &H,
    da: Seq<u8>,
    addr: u64,
    dk: Seq<u8>,
    n_bytes: u64,
    rest: Seq<u8>,
    outcome: Outcome,
)
    requires
        spells(da, addr as nat),
        spells(dk, n_bytes as nat),
        ends_number(rest),
        answers(handler, two_numbers("z4,"@, da, ","@, dk, rest), outcome),
    ensures
        exists|r: Result<(), Error>| #[trigger]
            call_ensures(H::remove_access_watchpoint, (handler, Watchpoint { addr, n_bytes }), r)
                && done_told(r, reply_to(outcome)),
        methods_asked(
            two_numbers("z4,"@, da, ","@, dk, rest),
        ) == seq![Method::RemoveAccessWatchpoint],
{
    reveal_strlit("z4,");
    removal_read("z4,"@, ZType::AccessWatchpoint, da, addr, dk, n_bytes, rest);
    let r = choose|r: Result<(), Error>| #[trigger]
        call_ensures(H::remove_access_watchpoint, (handler, Watchpoint { addr, n_bytes }), r)
            && reports(outcome, r);
    done_is_told(r, outcome);
}

/// `k` asks the handler to kill, and the answer is empty, whatever came back.
pub proof fn all_killed<H: Handler>(handler: &H, rest: Seq<u8>, outcome: Outcome)
    requires
        answers(handler, encode_utf8("k"@) + rest, outcome),
    ensures
        exists|r: Result<(), Error>| #[trigger] call_ensures(H::kill, (handler, None), r),
        reply_to(outcome).len() == 0,
        methods_asked(encode_utf8("k"@) + rest) == seq![Method::Kill],
{
    kill_all_read(rest);
}

/// `qSupported:` asks the handler for its features, whatever the client lists.
/// The answer gives the size of a packet, and then those features in their order,
/// each behind a `;`.
pub proof fn features_asked<H: Handler>(handler: &H, t: Seq<u8>, outcome: Outcome)
    requires
        answers(handler, encode_utf8("qSupported"@) + (encode_utf8(":"@) + t), outcome),
    ensures
        exists|extra: Vec<String>| #[trigger]
            call_ensures(H::query_supported_features, (handler,), extra)
                && reply_to(outcome) == encode_utf8("PacketSize=65536"@ + listed(extra)),
        methods_asked(encode_utf8("qSupported"@) + (encode_utf8(":"@) + t)) == seq![
            Method::QuerySupportedFeatures,
        ],
{
    features_listed(t);
    let extra = choose|extra: Vec<String>| #[trigger]
        call_ensures(H::query_supported_features, (handler,), extra) && (
        outcome matches Ok(Response::String(text)) && text@ == reported_features(
            extra.deep_view(),
        ));
    features_in_order(extra.deep_view());
    assert(extra.deep_view() =~= Seq::new(extra@.len(), |j: int| extra@[j]@));
}

/// Some texts in their order, each behind a `;`.
pub open spec fn texts_behind(texts: Seq<Seq<char>>) -> Seq<char>
    decreases texts.len(),
{
    if texts.len() == 0 {
        seq![]
    } else {
        ";"@ + texts[0] + texts_behind(texts.skip(1))
    }
}

/// The features of a handler in their order, each behind a `;`.
pub open spec fn listed(extra: Vec<String>) -> Seq<char> {
    texts_behind(Seq::new(extra@.len(), |j: int| extra@[j]@))
}

/// The last text stands at the end.
proof fn last_text(texts: Seq<Seq<char>>)
    requires
        texts.len() > 0,
    ensures
        texts_behind(texts) == texts_behind(texts.drop_last()) + ";"@ + texts.last(),
    decreases texts.len(),
{
    if texts.len() == 1 {
        assert(texts_behind(texts.skip(1)) =~= seq![]);
        assert(texts_behind(texts.drop_last()) =~= seq![]);
        assert(texts_behind(texts) =~= ";"@ + texts[0]);
        assert(seq![] + ";"@ + texts.last() =~= ";"@ + texts[0]);
    } else {
        last_text(texts.skip(1));
        assert(texts.skip(1).drop_last() =~= texts.drop_last().skip(1));
        assert(texts_behind(texts) =~= texts_behind(texts.drop_last()) + ";"@ + texts.last());
    }
}

/// What a server reports of itself is the size of a packet, and then the features
/// of its handler in their order, each behind a `;`.
pub proof fn features_in_order(extra: Seq<Seq<char>>)
    ensures
        reported_features(extra) == "PacketSize=65536"@ + texts_behind(extra),
    decreases extra.len(),
{
    let items = seq!["PacketSize=65536"@] + extra;
    if extra.len() == 0 {
        assert(texts_behind(extra) =~= seq![]);
        assert("PacketSize=65536"@ + texts_behind(extra) =~= "PacketSize=65536"@);
    } else {
        features_in_order(extra.drop_last());
        last_text(extra);
        assert(items.drop_last() =~= seq!["PacketSize=65536"@] + extra.drop_last());
        assert(reported_features(extra) =~= "PacketSize=65536"@ + texts_behind(extra));
    }
}

/// `!` is granted, and the handler is not asked.
pub proof fn extended_mode_granted<H: Handler>(handler: &H, rest: Seq<u8>, outcome: Outcome)
    requires
        answers(handler, encode_utf8("!"@) + rest, outcome),
    ensures
        reply_to(outcome) == encode_utf8("OK"@),
        methods_asked(encode_utf8("!"@) + rest) == Seq::<Method>::empty(),
{
    extended_mode_read(rest);
}

/// `QStartNoAckMode` is granted, and the handler is not asked.
pub proof fn no_ack_mode_granted<H: Handler>(handler: &H, rest: Seq<u8>, outcome: Outcome)
    requires
        answers(handler, encode_utf8("QStartNoAckMode"@) + rest, outcome),
    ensures
        reply_to(outcome) == encode_utf8("OK"@),
        turns_acks_off(encode_utf8("QStartNoAckMode"@) + rest),
        methods_asked(encode_utf8("QStartNoAckMode"@) + rest) == Seq::<Method>::empty(),
{
    no_ack_mode_read(rest);
}

/// The answer is empty, which says that the request is not supported, and the
/// handler is not asked.
pub open spec fn not_supported(data: Seq<u8>, outcome: Outcome) -> bool {
    reply_to(outcome).len() == 0 && methods_asked(data) == Seq::<Method>::empty()
}

/// A reset is not supported, neither with `r` nor with `R` and two bytes.
pub proof fn reset_not_supported<H: Handler>(
    handler: &H,
    code: Seq<u8>,
    rest: Seq<u8>,
    outcome: Outcome,
)
    ensures
        answers(handler, encode_utf8("r"@) + rest, outcome) ==> not_supported(
            encode_utf8("r"@) + rest,
            outcome,
        ),
        code.len() == 2 && answers(handler, encode_utf8("R"@) + (code + rest), outcome)
            ==> not_supported(encode_utf8("R"@) + (code + rest), outcome),
{
    reset_read(rest);
    if code.len() == 2 {
        reset_code_read(code, rest);
    }
}

/// `vCtrlC` is not supported.
pub proof fn ctrl_c_not_supported<H: Handler>(handler: &H, rest: Seq<u8>, outcome: Outcome)
    requires
        answers(handler, encode_utf8("vCtrlC"@) + rest, outcome),
    ensures
        not_supported(encode_utf8("vCtrlC"@) + rest, outcome),
{
    ctrl_c_read(rest);
}

/// A `v` packet that starts with neither `vCtrlC` nor `vKill;` is not supported.
pub proof fn unknown_v_not_supported<H: Handler>(handler: &H, data: Seq<u8>, outcome: Outcome)
    requires
        data.len() > 0,
        data[0] == 0x76,
        !encode_utf8("vCtrlC"@).is_prefix_of(data),
        !encode_utf8("vKill;"@).is_prefix_of(data),
        answers(handler, data, outcome),
    ensures
        not_supported(data, outcome),
{
    unknown_v(data);
}

/// Data that is no command is not supported.
pub proof fn no_command_not_supported<H: Handler>(handler: &H, data: Seq<u8>, outcome: Outcome)
    requires
        !(grammar::command(data) is Done),
        answers(handler, data, outcome),
    ensures
        not_supported(data, outcome),
{
}

/// Nothing is supported that does not start with one of the letters that
/// commands start with, nor is a packet without data.
pub proof fn other_letters_not_supported<H: Handler>(
    handler: &H,
    data: Seq<u8>,
    outcome: Outcome,
)
    requires
        data.len() > 0 ==> !encode_utf8("!?DgscGHkmMpPqQrRTvXzZ"@).contains(data[0]),
        answers(handler, data, outcome),
    ensures
        not_supported(data, outcome),
{
    first_byte_decides(data);
    if data.len() > 0 {
        no_letter(data[0]);
    }
}

/// The length that a request to write memory gives is not the number of bytes
/// that came with it: the answer is error 1, and the handler is not asked.
pub proof fn wrong_length_refused<H: Handler>(
    handler: &H,
    da: Seq<u8>,
    address: u64,
    dn: Seq<u8>,
    length: u64,
    h: Seq<u8>,
    bytes: Seq<u8>,
    rest: Seq<u8>,
    outcome: Outcome,
)
    requires
        spells(da, address as nat),
        spells(dn, length as nat),
        bytes.len() > 0,
        spells_bytes(h, bytes),
        ends_bytes(rest),
        bytes.len() != length,
        length <= usize::MAX,
        answers(
            handler,
            two_numbers("M"@, da, ","@, dn, encode_utf8(":"@) + (h + rest)),
            outcome,
        ),
    ensures
        failure_told(Error::Error(1), reply_to(outcome)),
        methods_asked(
            two_numbers("M"@, da, ","@, dn, encode_utf8(":"@) + (h + rest)),
        ) == Seq::<Method>::empty(),
{
    memory_written(da, address, dn, length, h, bytes, rest);
    failure_is_told(Error::Error(1));
}

/// The same with binary data.
pub proof fn wrong_binary_length_refused<H: Handler>(
    handler: &H,
    da: Seq<u8>,
    address: u64,
    dn: Seq<u8>,
    length: u64,
    coded: Seq<u8>,
    bytes: Seq<u8>,
    outcome: Outcome,
)
    requires
        spells(da, address as nat),
        spells(dn, length as nat),
        bytes.len() > 0,
        binary_for(coded, bytes),
        bytes.len() != length,
        length <= usize::MAX,
        answers(
            handler,
            two_numbers("X"@, da, ","@, dn, encode_utf8(":"@) + coded),
            outcome,
        ),
    ensures
        failure_told(Error::Error(1), reply_to(outcome)),
        methods_asked(
            two_numbers("X"@, da, ","@, dn, encode_utf8(":"@) + coded),
        ) == Seq::<Method>::empty(),
{
    binary_memory_written(da, address, dn, length, coded, bytes);
    failure_is_told(Error::Error(1));
}

/// Whatever the data of a packet, the handler is asked for one thing at most.
pub proof fn asked_once_at_most(data: Seq<u8>)
    ensures
        methods_asked(data).len() <= 1,
{
}

} // verus!
