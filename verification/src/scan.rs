//! The parsers, defined on every input.
//!
//! Each function finds what the part of the grammar with the same name says,
//! and leaves a tail of its input over.
use vstd::prelude::*;
use crate::combine::{
    front_of, rest_from, run_ends, scan_is_not, scan_many0, scan_many1, scan_separated_list,
    scan_separated_nonempty_list, scan_tag, scan_take, tag, take,
};
use crate::grammar;
use crate::hex::{is_hex, number_of_digits, value_of_digit};
use crate::model::{
    bytes_deep_view, numbers_deep_view, Breakpoint, Bytecode, Command, FeatureSupported,
    GDBFeatureSupported, Id, Known, MemoryRegion, Packet, Query, ThreadId, Watchpoint, ZAction,
    ZType,
};
use crate::outcome::{
    completed, leaves_tail, parsed, refused, skipped_is_tail, tail_of_tail, whole_is_tail, within,
    ErrorKind, Needed, Step, Stop,
};
use crate::text::text_of;

verus! {

broadcast use {tail_of_tail, skipped_is_tail, bytes_deep_view, numbers_deep_view};

/// The text `t`, standing for `v`.
fn scan_word<'a, T: DeepView>(i: &'a [u8], t: &str, v: T) -> (r: Step<'a, T>)
    ensures
        parsed(r) == tag(i@, t@).mapped(|_u: ()| v.deep_view()),
        leaves_tail(r, i@),
{
    let (rest, _) = scan_tag(i, t)?;
    Ok((rest, v))
}

/// A number in hexadecimal.
pub fn hex_value<'a>(i: &'a [u8]) -> (r: Step<'a, u64>)
    ensures
        parsed(r) == grammar::hex_value(i@),
        leaves_tail(r, i@),
{
    proof {
        reveal(grammar::hex_value);
    }
    let mut k: usize = 0;
    while k < i.len() && nom::is_hex_digit(i[k])
        invariant
            k <= i@.len(),
            forall|j: int| 0 <= j < k ==> is_hex(#[trigger] i@[j]),
        decreases i.len() - k,
    {
        k += 1;
    }
    proof {
        run_ends(i@, grammar::hex_digits(), k as int);
    }
    if i.len() == 0 {
        Err(Stop::Incomplete(Needed::Size(1)))
    } else if k == 0 {
        Err(Stop::Error(ErrorKind::TakeWhile1))
    } else {
        match number_of_digits(front_of(i, k)) {
            Some(n) => Ok((rest_from(i, k), n)),
            None => Err(Stop::Undefined),
        }
    }
}

/// A hexadecimal digit.
pub fn hex_digit<'a>(i: &'a [u8]) -> (r: Step<'a, char>)
    ensures
        parsed(r) == grammar::hex_digit(i@),
        leaves_tail(r, i@),
        r matches Ok((_, c)) ==> is_hex(c as u8),
{
    proof {
        reveal(grammar::hex_digit);
    }
    if i.len() == 0 {
        Err(Stop::Incomplete(Needed::Size(1)))
    } else if !nom::is_hex_digit(i[0]) {
        Err(Stop::Error(ErrorKind::OneOf))
    } else {
        Ok((rest_from(i, 1), i[0] as char))
    }
}

/// A byte as two hexadecimal digits.
pub fn hex_byte<'a>(i: &'a [u8]) -> (r: Step<'a, u8>)
    ensures
        parsed(r) == grammar::hex_byte(i@),
        leaves_tail(r, i@),
{
    proof {
        reveal(grammar::hex_byte);
    }
    let (i1, digit0) = hex_digit(i)?;
    let (i2, digit1) = within(i, i1, hex_digit(i1))?;
    let high: u8 = value_of_digit(digit0 as u8);
    let low: u8 = value_of_digit(digit1 as u8);
    Ok((i2, 16 * high + low))
}

/// At least one byte in hexadecimal.
pub fn hex_byte_sequence<'a>(i: &'a [u8]) -> (r: Step<'a, Vec<u8>>)
    ensures
        parsed(r) == grammar::hex_byte_sequence(i@),
        leaves_tail(r, i@),
{
    proof {
        reveal(grammar::hex_byte_sequence);
    }
    scan_many1(i, hex_byte, Ghost(grammar::hex_bytes()))
}

/// The checksum of a packet.
pub fn checksum<'a>(i: &'a [u8]) -> (r: Step<'a, u8>)
    ensures
        parsed(r) == grammar::checksum(i@),
        leaves_tail(r, i@),
{
    proof {
        reveal(grammar::checksum);
    }
    if i.len() < 2 {
        Err(Stop::Incomplete(Needed::Size(2)))
    } else if nom::is_hex_digit(i[0]) && nom::is_hex_digit(i[1]) {
        let high: u8 = value_of_digit(i[0]);
        let low: u8 = value_of_digit(i[1]);
        Ok((rest_from(i, 2), 16 * high + low))
    } else if i[0] == 0x2b && nom::is_hex_digit(i[1]) {
        Ok((rest_from(i, 2), value_of_digit(i[1])))
    } else {
        Err(Stop::Error(ErrorKind::MapRes))
    }
}

/// The data of a packet.
fn packet_data<'a>(i: &'a [u8]) -> (r: Step<'a, Vec<u8>>)
    ensures
        parsed(r) == grammar::packet_data(i@),
        leaves_tail(r, i@),
{
    proof {
        reveal(grammar::packet_data);
    }
    match scan_is_not(i, "#") {
        Ok((rest, data)) => Ok((rest, vstd::slice::slice_to_vec(data))),
        Err(Stop::Error(_)) => {
            proof {
                whole_is_tail(i@);
            }
            Ok((i, Vec::new()))
        },
        Err(e) => Err(e),
    }
}

/// A packet with data.  The checksum is read, but not compared with the data.
pub fn packet<'a>(i: &'a [u8]) -> (r: Step<'a, (Vec<u8>, u8)>)
    ensures
        parsed(r) == grammar::packet(i@),
        leaves_tail(r, i@),
{
    proof {
        reveal(grammar::packet);
    }
    let (i1, _) = scan_tag(i, "$")?;
    let (i2, data) = within(i, i1, packet_data(i1))?;
    let (i3, _) = within(i, i2, scan_tag(i2, "#"))?;
    let (i4, sum) = within(i, i3, checksum(i3))?;
    Ok((i4, (data, sum)))
}

/// Anything that a client may send.
pub fn packet_or_response<'a>(i: &'a [u8]) -> (r: Step<'a, Packet>)
    ensures
        parsed(r) == grammar::packet_or_response(i@),
        leaves_tail(r, i@),
{
    proof {
        reveal(grammar::packet_or_response);
    }
    let r = match packet(i) {
        Ok((rest, (data, sum))) => Ok((rest, Packet::Data(data, sum))),
        Err(e) => Err(e),
    };
    if !refused(&r) {
        return r;
    }
    let r = scan_word(i, "+", Packet::Ack);
    if !refused(&r) {
        return r;
    }
    let r = scan_word(i, "-", Packet::Nack);
    if !refused(&r) {
        return r;
    }
    let r = scan_word(i, "\x03", Packet::Interrupt);
    if !refused(&r) {
        return r;
    }
    Err(Stop::Error(ErrorKind::Alt))
}

/// Bytes that have to be text.
fn as_text<'a>(r: Step<'a, &'a [u8]>) -> (out: Step<'a, &'a str>)
    ensures
        parsed(out) == grammar::as_text(parsed(r)),
        out matches Ok((rest, _)) ==> r matches Ok((rest0, _)) && rest == rest0,
{
    match r {
        Ok((rest, bytes)) => {
            assert(bytes.deep_view() =~= bytes@);
            match text_of(bytes) {
                Some(text) => Ok((rest, text)),
                None => Err(Stop::Error(ErrorKind::MapRes)),
            }
        },
        Err(e) => Err(e),
    }
}

/// The name of a feature.
pub fn gdbfeature<'a>(i: &'a [u8]) -> (r: Step<'a, Known<'a>>)
    ensures
        parsed(r) == grammar::gdbfeature(i@),
        leaves_tail(r, i@),
{
    proof {
        reveal(grammar::gdbfeature);
    }
    let (rest, name) = as_text(scan_is_not(i, ";="))?;
    Ok((rest, Known::named(name)))
}

/// A feature and what the client says of it, where nothing else is in the input.
fn feature_clause<'a>(i: &'a [u8]) -> (r: Step<'a, GDBFeatureSupported<'a>>)
    ensures
        parsed(r) == grammar::feature_clause(i@),
{
    proof {
        reveal(grammar::feature_clause);
    }
    if i.len() == 0 {
        return Err(Stop::Incomplete(Needed::Size(2)));
    }
    let last: u8 = i[i.len() - 1];
    let first = front_of(i, i.len() - 1);
    assert(first@ == i@.drop_last());
    if last == 0x2b {
        let (rest, feature) = gdbfeature(first)?;
        Ok((rest, GDBFeatureSupported(feature, FeatureSupported::Yes)))
    } else if last == 0x2d {
        let (rest, feature) = gdbfeature(first)?;
        Ok((rest, GDBFeatureSupported(feature, FeatureSupported::No)))
    } else {
        let (i1, feature) = gdbfeature(i)?;
        let (i2, _) = within(i, i1, scan_tag(i1, "="))?;
        let (i3, value) = within(i, i2, as_text(scan_is_not(i2, ";")))?;
        Ok((i3, GDBFeatureSupported(feature, FeatureSupported::Value(value))))
    }
}

/// A feature and what the client says of it.
pub fn gdbfeaturesupported<'a>(i: &'a [u8]) -> (r: Step<'a, GDBFeatureSupported<'a>>)
    ensures
        parsed(r) == grammar::gdbfeaturesupported(i@),
        leaves_tail(r, i@),
{
    proof {
        reveal(grammar::gdbfeaturesupported);
    }
    let (rest, f) = scan_is_not(i, ";")?;
    let (_, clause) = feature_clause(f)?;
    Ok((rest, clause))
}

/// A request to search memory: where, how far, and for what.
pub fn q_search_memory<'a>(i: &'a [u8]) -> (r: Step<'a, (u64, u64, Vec<u8>)>)
    ensures
        parsed(r) == grammar::q_search_memory(i@),
        leaves_tail(r, i@),
{
    completed(search_memory_parts(i))
}

/// The parts of a request to search memory.
fn search_memory_parts<'a>(i: &'a [u8]) -> (r: Step<'a, (u64, u64, Vec<u8>)>)
    ensures
        parsed(r).completed() == grammar::q_search_memory(i@),
        leaves_tail(r, i@),
{
    proof {
        reveal(grammar::q_search_memory);
    }
    let (i1, _) = scan_tag(i, "qSearch:memory:")?;
    let (i2, address) = within(i, i1, hex_value(i1))?;
    let (i3, _) = within(i, i2, scan_tag(i2, ";"))?;
    let (i4, length) = within(i, i3, hex_value(i3))?;
    let (i5, _) = within(i, i4, scan_tag(i4, ";"))?;
    let (i6, data) = within(i, i5, hex_byte_sequence(i5))?;
    Ok((i6, (address, length, data)))
}

/// A `;` and a number.
fn further_number<'a>(i: &'a [u8]) -> (r: Step<'a, u64>)
    ensures
        parsed(r) == grammar::further_number(i@),
        leaves_tail(r, i@),
{
    proof {
        reveal(grammar::further_number);
    }
    let (i1, _) = scan_tag(i, ";")?;
    within(i, i1, hex_value(i1))
}

/// What the two packets that write memory have in common.  `binary` tells which
/// of the two ways the data is written in.
fn memory_write<'a>(i: &'a [u8], letter: &str, binary: bool) -> (r: Step<'a, (u64, u64, Vec<u8>)>)
    ensures
        binary ==> parsed(r).completed() == grammar::memory_write(
            i@,
            letter@,
            |t: Seq<u8>| grammar::binary_byte_sequence(t),
        ),
        !binary ==> parsed(r).completed() == grammar::memory_write(
            i@,
            letter@,
            |t: Seq<u8>| grammar::hex_byte_sequence(t),
        ),
        leaves_tail(r, i@),
{
    proof {
        reveal(grammar::memory_write);
    }
    let (i1, _) = scan_tag(i, letter)?;
    let (i2, address) = within(i, i1, hex_value(i1))?;
    let (i3, _) = within(i, i2, scan_tag(i2, ","))?;
    let (i4, length) = within(i, i3, hex_value(i3))?;
    let (i5, _) = within(i, i4, scan_tag(i4, ":"))?;
    let (i6, data) = if binary {
        within(i, i5, binary_byte_sequence(i5))?
    } else {
        within(i, i5, hex_byte_sequence(i5))?
    };
    Ok((i6, (address, length, data)))
}

/// A request to write memory: the address, the length, and the data in hexadecimal.
pub fn write_memory<'a>(i: &'a [u8]) -> (r: Step<'a, (u64, u64, Vec<u8>)>)
    ensures
        parsed(r) == grammar::write_memory(i@),
        leaves_tail(r, i@),
{
    proof {
        reveal(grammar::write_memory);
    }
    completed(memory_write(i, "M", false))
}

/// A byte of binary data.
pub fn binary_byte<'a>(i: &'a [u8]) -> (r: Step<'a, u8>)
    ensures
        parsed(r) == grammar::binary_byte(i@),
        leaves_tail(r, i@),
{
    proof {
        reveal(grammar::binary_byte);
    }
    let r = match escaped_byte(i) {
        Ok((rest, b)) => Ok((rest, b[0] ^ 0x20)),
        Err(e) => Err(e),
    };
    let r = completed(r);
    if !refused(&r) {
        return r;
    }
    let r = match scan_take(i, 1) {
        Ok((rest, b)) => {
            assert(b@.len() == 1);
            Ok((rest, b[0]))
        },
        Err(e) => Err(e),
    };
    let r = completed(r);
    if !refused(&r) {
        return r;
    }
    Err(Stop::Error(ErrorKind::Alt))
}

/// A `}` and the byte behind it.
fn escaped_byte<'a>(i: &'a [u8]) -> (r: Step<'a, &'a [u8]>)
    ensures
        parsed(r) == tag(i@, "}"@).followed_by(i@, |_u: (), s1: Seq<u8>| take(s1, 1)),
        leaves_tail(r, i@),
        r matches Ok((_, b)) ==> b@.len() == 1,
{
    let (i1, _) = scan_tag(i, "}")?;
    let (i2, b) = within(i, i1, scan_take(i1, 1))?;
    Ok((i2, b))
}

/// At least one byte of binary data.
pub fn binary_byte_sequence<'a>(i: &'a [u8]) -> (r: Step<'a, Vec<u8>>)
    ensures
        parsed(r) == grammar::binary_byte_sequence(i@),
        leaves_tail(r, i@),
{
    proof {
        reveal(grammar::binary_byte_sequence);
    }
    scan_many1(i, binary_byte, Ghost(grammar::binary_bytes()))
}

/// A request to write memory: the address, the length, and binary data.
pub fn write_memory_binary<'a>(i: &'a [u8]) -> (r: Step<'a, (u64, u64, Vec<u8>)>)
    ensures
        parsed(r) == grammar::write_memory_binary(i@),
        leaves_tail(r, i@),
{
    proof {
        reveal(grammar::write_memory_binary);
    }
    completed(memory_write(i, "X", true))
}

/// A request to read memory: the address and the length.
pub fn read_memory<'a>(i: &'a [u8]) -> (r: Step<'a, (u64, u64)>)
    ensures
        parsed(r) == grammar::read_memory(i@),
        leaves_tail(r, i@),
{
    proof {
        reveal(grammar::read_memory);
    }
    let (i1, _) = scan_tag(i, "m")?;
    let (i2, address) = within(i, i1, hex_value(i1))?;
    let (i3, _) = within(i, i2, scan_tag(i2, ","))?;
    let (i4, length) = within(i, i3, hex_value(i3))?;
    Ok((i4, (address, length)))
}

/// A request to read a register.
pub fn read_register<'a>(i: &'a [u8]) -> (r: Step<'a, u64>)
    ensures
        parsed(r) == grammar::read_register(i@),
        leaves_tail(r, i@),
{
    proof {
        reveal(grammar::read_register);
    }
    let (i1, _) = scan_tag(i, "p")?;
    within(i, i1, hex_value(i1))
}

/// A request to write a register: which one, and its contents.
pub fn write_register<'a>(i: &'a [u8]) -> (r: Step<'a, (u64, Vec<u8>)>)
    ensures
        parsed(r) == grammar::write_register(i@),
        leaves_tail(r, i@),
{
    proof {
        reveal(grammar::write_register);
    }
    let (i1, _) = scan_tag(i, "P")?;
    let (i2, regno) = within(i, i1, hex_value(i1))?;
    let (i3, _) = within(i, i2, scan_tag(i2, "="))?;
    let (i4, bytes) = within(i, i3, hex_byte_sequence(i3))?;
    Ok((i4, (regno, bytes)))
}

/// A request to write the general registers.
pub fn write_general_registers<'a>(i: &'a [u8]) -> (r: Step<'a, Vec<u8>>)
    ensures
        parsed(r) == grammar::write_general_registers(i@),
        leaves_tail(r, i@),
{
    proof {
        reveal(grammar::write_general_registers);
    }
    let (i1, _) = scan_tag(i, "G")?;
    within(i, i1, hex_byte_sequence(i1))
}

/// Whether a number is one that no process or thread has.
fn no_id(val: u64) -> (b: bool)
    ensures
        b == grammar::no_id(val),
{
    val as u32 == 0 || val as u32 == u32::MAX
}

/// The number of a process or thread.
fn id_number<'a>(i: &'a [u8]) -> (r: Step<'a, Id>)
    ensures
        parsed(r) == grammar::id_number(i@),
        leaves_tail(r, i@),
{
    proof {
        reveal(grammar::id_number);
    }
    let (rest, val) = hex_value(i)?;
    if no_id(val) {
        Err(Stop::Error(ErrorKind::MapRes))
    } else {
        Ok((rest, Id::Id(val as u32)))
    }
}

/// A process or thread id.
pub fn parse_thread_id_element<'a>(i: &'a [u8]) -> (r: Step<'a, Id>)
    ensures
        parsed(r) == grammar::parse_thread_id_element(i@),
        leaves_tail(r, i@),
{
    proof {
        reveal(grammar::parse_thread_id_element);
    }
    let r = completed(scan_word(i, "0", Id::Any));
    if !refused(&r) {
        return r;
    }
    let r = completed(scan_word(i, "-1", Id::All));
    if !refused(&r) {
        return r;
    }
    let r = completed(id_number(i));
    if !refused(&r) {
        return r;
    }
    Err(Stop::Error(ErrorKind::Alt))
}

/// A `p`, a process, a `.` and a thread.
fn process_and_thread<'a>(i: &'a [u8]) -> (r: Step<'a, ThreadId>)
    ensures
        parsed(r) == grammar::process_and_thread(i@),
        leaves_tail(r, i@),
{
    proof {
        reveal(grammar::process_and_thread);
    }
    let (i1, _) = scan_tag(i, "p")?;
    let (i2, pid) = within(i, i1, parse_thread_id_element(i1))?;
    let (i3, _) = within(i, i2, scan_tag(i2, "."))?;
    let (i4, tid) = within(i, i3, parse_thread_id_element(i3))?;
    Ok((i4, ThreadId { pid, tid }))
}

/// Whether the input is a `.` and a number that no thread has.
fn names_no_thread(i: &[u8]) -> (b: bool)
    ensures
        b == grammar::names_no_thread(i@),
{
    proof {
        reveal(grammar::names_no_thread);
    }
    match scan_tag(i, ".") {
        Ok((i1, _)) => match hex_value(i1) {
            Ok((_, val)) => no_id(val),
            Err(_) => false,
        },
        Err(_) => false,
    }
}

/// A `p` and a process.
fn process_alone<'a>(i: &'a [u8]) -> (r: Step<'a, Id>)
    ensures
        parsed(r) == grammar::process_alone(i@),
        leaves_tail(r, i@),
{
    proof {
        reveal(grammar::process_alone);
    }
    let (i1, _) = scan_tag(i, "p")?;
    let (i2, pid) = within(i, i1, parse_thread_id_element(i1))?;
    if names_no_thread(i2) {
        return Err(Stop::Error(ErrorKind::MapRes));
    }
    Ok((i2, pid))
}

/// A thread-id.
pub fn parse_thread_id<'a>(i: &'a [u8]) -> (r: Step<'a, ThreadId>)
    ensures
        parsed(r) == grammar::parse_thread_id(i@),
        leaves_tail(r, i@),
{
    proof {
        reveal(grammar::parse_thread_id);
    }
    let r = match completed(parse_thread_id_element(i)) {
        Ok((rest, pid)) => Ok((rest, ThreadId { pid, tid: Id::Any })),
        Err(e) => Err(e),
    };
    if !refused(&r) {
        return r;
    }
    let r = completed(process_and_thread(i));
    if !refused(&r) {
        return r;
    }
    let r = match completed(process_alone(i)) {
        Ok((rest, pid)) => Ok((rest, ThreadId { pid, tid: Id::All })),
        Err(e) => Err(e),
    };
    if !refused(&r) {
        return r;
    }
    Err(Stop::Error(ErrorKind::Alt))
}

/// The `T` packet.
pub fn parse_ping_thread<'a>(i: &'a [u8]) -> (r: Step<'a, ThreadId>)
    ensures
        parsed(r) == grammar::parse_ping_thread(i@),
        leaves_tail(r, i@),
{
    proof {
        reveal(grammar::parse_ping_thread);
    }
    let (i1, _) = scan_tag(i, "T")?;
    within(i, i1, parse_thread_id(i1))
}

/// The process that a `vKill` packet names.
fn killed_process<'a>(i: &'a [u8]) -> (r: Step<'a, u64>)
    ensures
        parsed(r) == grammar::killed_process(i@),
        leaves_tail(r, i@),
{
    proof {
        reveal(grammar::killed_process);
    }
    let (i1, _) = scan_tag(i, "vKill;")?;
    within(i, i1, hex_value(i1))
}

/// Whatever follows a `v`.
fn v_rest<'a>(i: &'a [u8]) -> (r: Step<'a, &'a [u8]>)
    ensures
        parsed(r) == grammar::v_rest(i@),
        leaves_tail(r, i@),
{
    proof {
        reveal(grammar::v_rest);
    }
    let (i1, _) = scan_tag(i, "v")?;
    within(i, i1, scan_take(i1, i1.len()))
}

/// The packets that start with `v`.
pub fn v_command<'a>(i: &'a [u8]) -> (r: Step<'a, Command<'a>>)
    ensures
        parsed(r) == grammar::v_command(i@),
        leaves_tail(r, i@),
{
    proof {
        reveal(grammar::v_command);
    }
    let r = completed(scan_word(i, "vCtrlC", Command::CtrlC));
    if !refused(&r) {
        return r;
    }
    let r = match completed(killed_process(i)) {
        Ok((rest, pid)) => Ok((rest, Command::Kill(Some(pid)))),
        Err(e) => Err(e),
    };
    if !refused(&r) {
        return r;
    }
    let r = match completed(v_rest(i)) {
        Ok((rest, _)) => Ok((rest, Command::UnknownVCommand)),
        Err(e) => Err(e),
    };
    if !refused(&r) {
        return r;
    }
    Err(Stop::Error(ErrorKind::Alt))
}

/// The `H` packet.
pub fn parse_h_packet<'a>(i: &'a [u8]) -> (r: Step<'a, ThreadId>)
    ensures
        parsed(r) == grammar::parse_h_packet(i@),
        leaves_tail(r, i@),
{
    proof {
        reveal(grammar::parse_h_packet);
    }
    let (i1, _) = scan_tag(i, "Hg")?;
    within(i, i1, parse_thread_id(i1))
}

/// The process that a `D` packet names.
fn detached_process<'a>(i: &'a [u8]) -> (r: Step<'a, u64>)
    ensures
        parsed(r) == grammar::detached_process(i@),
        leaves_tail(r, i@),
{
    proof {
        reveal(grammar::detached_process);
    }
    let (i1, _) = scan_tag(i, "D;")?;
    within(i, i1, hex_value(i1))
}

/// The `D` packet.
pub fn parse_d_packet<'a>(i: &'a [u8]) -> (r: Step<'a, Option<u64>>)
    ensures
        parsed(r) == grammar::parse_d_packet(i@),
        leaves_tail(r, i@),
{
    proof {
        reveal(grammar::parse_d_packet);
    }
    let r = match completed(detached_process(i)) {
        Ok((rest, pid)) => Ok((rest, Some(pid))),
        Err(e) => Err(e),
    };
    if !refused(&r) {
        return r;
    }
    let r = completed(scan_word(i, "D", None));
    if !refused(&r) {
        return r;
    }
    Err(Stop::Error(ErrorKind::Alt))
}

/// The letter of a `Z` or `z` packet.
pub fn parse_z_action<'a>(i: &'a [u8]) -> (r: Step<'a, ZAction>)
    ensures
        parsed(r) == grammar::parse_z_action(i@),
        leaves_tail(r, i@),
{
    proof {
        reveal(grammar::parse_z_action);
    }
    let r = completed(scan_word(i, "z", ZAction::Remove));
    if !refused(&r) {
        return r;
    }
    let r = completed(scan_word(i, "Z", ZAction::Insert));
    if !refused(&r) {
        return r;
    }
    Err(Stop::Error(ErrorKind::Alt))
}

/// The digit behind that letter.
pub fn parse_z_type<'a>(i: &'a [u8]) -> (r: Step<'a, ZType>)
    ensures
        parsed(r) == grammar::parse_z_type(i@),
        leaves_tail(r, i@),
{
    proof {
        reveal(grammar::parse_z_type);
    }
    let r = completed(scan_word(i, "0", ZType::SoftwareBreakpoint));
    if !refused(&r) {
        return r;
    }
    let r = completed(scan_word(i, "1", ZType::HardwareBreakpoint));
    if !refused(&r) {
        return r;
    }
    let r = completed(scan_word(i, "2", ZType::WriteWatchpoint));
    if !refused(&r) {
        return r;
    }
    let r = completed(scan_word(i, "3", ZType::ReadWatchpoint));
    if !refused(&r) {
        return r;
    }
    let r = completed(scan_word(i, "4", ZType::AccessWatchpoint));
    if !refused(&r) {
        return r;
    }
    Err(Stop::Error(ErrorKind::Alt))
}

/// A bytecode expression.
pub fn parse_cond_or_command_expression<'a>(i: &'a [u8]) -> (r: Step<'a, Bytecode>)
    ensures
        parsed(r) == grammar::parse_cond_or_command_expression(i@),
        leaves_tail(r, i@),
{
    proof {
        reveal(grammar::parse_cond_or_command_expression);
    }
    let (i1, _) = scan_tag(i, "X")?;
    let (i2, len) = within(i, i1, hex_value(i1))?;
    let (i3, _) = within(i, i2, scan_tag(i2, ","))?;
    let (i4, expr) = within(i, i3, scan_take(i3, len as usize))?;
    Ok((i4, Bytecode { bytecode: vstd::slice::slice_to_vec(expr) }))
}

/// The conditions of a breakpoint.
pub fn parse_condition_list<'a>(i: &'a [u8]) -> (r: Step<'a, Vec<Bytecode>>)
    ensures
        parsed(r) == grammar::parse_condition_list(i@),
        leaves_tail(r, i@),
{
    proof {
        reveal(grammar::parse_condition_list);
    }
    let (i1, _) = scan_tag(i, ";")?;
    within(
        i,
        i1,
        scan_many1(i1, parse_cond_or_command_expression, Ghost(grammar::expressions())),
    )
}

/// The conditions of a breakpoint, if the input goes on with conditions.
pub fn maybe_condition_list<'a>(i: &'a [u8]) -> (r: Step<'a, Option<Vec<Bytecode>>>)
    ensures
        parsed(r) == grammar::maybe_condition_list(i@),
        leaves_tail(r, i@),
{
    proof {
        reveal(grammar::maybe_condition_list);
    }
    // An Incomplete here really means "not enough input to match a
    // condition list", and that's OK.  An Error is *probably* that the
    // input contains a command list rather than a condition list; the
    // two are identical in their first character.
    match parse_condition_list(i) {
        Ok((rest, list)) => Ok((rest, Some(list))),
        Err(Stop::Undefined) => Err(Stop::Undefined),
        Err(_) => {
            proof {
                whole_is_tail(i@);
            }
            Ok((i, None))
        },
    }
}

/// A persistence flag, a `,` and expressions.
fn persistent_expressions<'a>(i: &'a [u8]) -> (r: Step<'a, Vec<Bytecode>>)
    ensures
        parsed(r) == grammar::persistent_expressions(i@),
        leaves_tail(r, i@),
{
    proof {
        reveal(grammar::persistent_expressions);
    }
    let (i1, _) = hex_value(i)?;
    let (i2, _) = within(i, i1, scan_tag(i1, ","))?;
    within(
        i,
        i2,
        scan_many1(i2, parse_cond_or_command_expression, Ghost(grammar::expressions())),
    )
}

/// The expressions behind `;cmds`.
fn command_expressions<'a>(i: &'a [u8]) -> (r: Step<'a, Vec<Bytecode>>)
    ensures
        parsed(r) == grammar::command_expressions(i@),
        leaves_tail(r, i@),
{
    proof {
        reveal(grammar::command_expressions);
    }
    let r = completed(persistent_expressions(i));
    if !refused(&r) {
        return r;
    }
    let r = completed(
        scan_many1(i, parse_cond_or_command_expression, Ghost(grammar::expressions())),
    );
    if !refused(&r) {
        return r;
    }
    Err(Stop::Error(ErrorKind::Alt))
}

/// The commands of a breakpoint.
pub fn parse_command_list<'a>(i: &'a [u8]) -> (r: Step<'a, Vec<Bytecode>>)
    ensures
        parsed(r) == grammar::parse_command_list(i@),
        leaves_tail(r, i@),
{
    proof {
        reveal(grammar::parse_command_list);
    }
    let (i1, _) = scan_tag(i, ";cmds")?;
    within(i, i1, command_expressions(i1))
}

/// The commands of a breakpoint, if the input is long enough for any.
pub fn maybe_command_list<'a>(i: &'a [u8]) -> (r: Step<'a, Option<Vec<Bytecode>>>)
    ensures
        parsed(r) == grammar::maybe_command_list(i@),
        leaves_tail(r, i@),
{
    proof {
        reveal(grammar::maybe_command_list);
    }
    // An Incomplete here really means "not enough input to match a
    // command list", and that's OK.
    match parse_command_list(i) {
        Ok((rest, list)) => Ok((rest, Some(list))),
        Err(Stop::Incomplete(_)) => {
            proof {
                whole_is_tail(i@);
            }
            Ok((i, None))
        },
        Err(e) => Err(e),
    }
}

/// The conditions and the commands of a breakpoint.
pub fn parse_cond_and_command_list<'a>(i: &'a [u8]) -> (r: Step<
    'a,
    (Option<Vec<Bytecode>>, Option<Vec<Bytecode>>),
>)
    ensures
        parsed(r) == grammar::parse_cond_and_command_list(i@),
        leaves_tail(r, i@),
{
    proof {
        reveal(grammar::parse_cond_and_command_list);
    }
    let (i1, conditions) = maybe_condition_list(i)?;
    let (i2, commands) = within(i, i1, maybe_command_list(i1))?;
    Ok((i2, (conditions, commands)))
}

/// The front part of a `Z` or `z` packet.
fn z_head<'a>(i: &'a [u8]) -> (r: Step<'a, (ZAction, ZType, u64, u64)>)
    ensures
        parsed(r) == grammar::z_head(i@),
        leaves_tail(r, i@),
{
    proof {
        reveal(grammar::z_head);
    }
    let (i1, action) = parse_z_action(i)?;
    let (i2, type_) = within(i, i1, parse_z_type(i1))?;
    let (i3, _) = within(i, i2, scan_tag(i2, ","))?;
    let (i4, addr) = within(i, i3, hex_value(i3))?;
    let (i5, _) = within(i, i4, scan_tag(i4, ","))?;
    let (i6, kind) = within(i, i5, hex_value(i5))?;
    Ok((i6, (action, type_, addr, kind)))
}

/// What is left of a `Z` packet behind its front part.
pub fn insert_command<'a>(rest: &'a [u8], type_: ZType, addr: u64, kind: u64) -> (r: Step<
    'a,
    Command<'a>,
>)
    ensures
        parsed(r) == grammar::insert_command(rest@, type_, addr, kind),
        leaves_tail(r, rest@),
{
    proof {
        reveal(grammar::insert_command);
        whole_is_tail(rest@);
    }
    match type_ {
        // Software and hardware breakpoints both permit optional condition
        // lists and commands that are evaluated on the target when
        // breakpoints are hit.
        ZType::SoftwareBreakpoint => match parse_cond_and_command_list(rest) {
            Ok((rest, (conditions, commands))) => Ok(
                (
                    rest,
                    Command::InsertSoftwareBreakpoint(
                        Breakpoint::new(addr, kind, conditions, commands),
                    ),
                ),
            ),
            Err(_) => Err(Stop::Undefined),
        },
        ZType::HardwareBreakpoint => match parse_cond_and_command_list(rest) {
            Ok((rest, (conditions, commands))) => Ok(
                (
                    rest,
                    Command::InsertHardwareBreakpoint(
                        Breakpoint::new(addr, kind, conditions, commands),
                    ),
                ),
            ),
            Err(_) => Err(Stop::Undefined),
        },
        ZType::WriteWatchpoint => Ok(
            (rest, Command::InsertWriteWatchpoint(Watchpoint::new(addr, kind))),
        ),
        ZType::ReadWatchpoint => Ok(
            (rest, Command::InsertReadWatchpoint(Watchpoint::new(addr, kind))),
        ),
        ZType::AccessWatchpoint => Ok(
            (rest, Command::InsertAccessWatchpoint(Watchpoint::new(addr, kind))),
        ),
    }
}

/// The command that a `z` packet stands for.
pub fn remove_command<'a>(type_: ZType, addr: u64, kind: u64) -> (c: Command<'a>)
    ensures
        c.deep_view() == grammar::remove_command(type_, addr, kind),
{
    match type_ {
        ZType::SoftwareBreakpoint => Command::RemoveSoftwareBreakpoint(
            Breakpoint::new(addr, kind, None, None),
        ),
        ZType::HardwareBreakpoint => Command::RemoveHardwareBreakpoint(
            Breakpoint::new(addr, kind, None, None),
        ),
        ZType::WriteWatchpoint => Command::RemoveWriteWatchpoint(Watchpoint::new(addr, kind)),
        ZType::ReadWatchpoint => Command::RemoveReadWatchpoint(Watchpoint::new(addr, kind)),
        ZType::AccessWatchpoint => Command::RemoveAccessWatchpoint(Watchpoint::new(addr, kind)),
    }
}

/// The `Z` and `z` packets.
pub fn parse_z_packet<'a>(i: &'a [u8]) -> (r: Step<'a, Command<'a>>)
    ensures
        parsed(r) == grammar::parse_z_packet(i@),
        leaves_tail(r, i@),
{
    proof {
        reveal(grammar::parse_z_packet);
    }
    let (rest, (action, type_, addr, kind)) = z_head(i)?;
    match action {
        ZAction::Insert => insert_command(rest, type_, addr, kind),
        ZAction::Remove => Ok((rest, remove_command(type_, addr, kind))),
    }
}

/// The features that a `qSupported` packet lists.
fn supported_features<'a>(i: &'a [u8]) -> (r: Step<'a, Vec<GDBFeatureSupported<'a>>>)
    ensures
        parsed(r) == grammar::supported_features(i@),
        leaves_tail(r, i@),
{
    proof {
        reveal(grammar::supported_features);
    }
    let (i1, _) = scan_tag(i, "qSupported")?;
    let (i2, _) = within(i, i1, scan_tag(i1, ":"))?;
    within(i, i2, scan_separated_list(i2, ";", gdbfeaturesupported, Ghost(grammar::features())))
}

/// The command that a `qRcmd` packet holds.
fn invoked_command<'a>(i: &'a [u8]) -> (r: Step<'a, Vec<u8>>)
    ensures
        parsed(r) == grammar::invoked_command(i@),
        leaves_tail(r, i@),
{
    proof {
        reveal(grammar::invoked_command);
    }
    let (i1, _) = scan_tag(i, "qRcmd,")?;
    within(i, i1, hex_byte_sequence(i1))
}

/// The process that a `qAttached` packet names.
fn attached_process<'a>(i: &'a [u8]) -> (r: Step<'a, u64>)
    ensures
        parsed(r) == grammar::attached_process(i@),
        leaves_tail(r, i@),
{
    proof {
        reveal(grammar::attached_process);
    }
    let (i1, _) = scan_tag(i, "qAttached:")?;
    within(i, i1, hex_value(i1))
}

/// The system calls that a `QCatchSyscalls` packet lists.
fn caught_syscalls<'a>(i: &'a [u8]) -> (r: Step<'a, Vec<u64>>)
    ensures
        parsed(r) == grammar::caught_syscalls(i@),
        leaves_tail(r, i@),
{
    proof {
        reveal(grammar::caught_syscalls);
    }
    let (i1, _) = scan_tag(i, "QCatchSyscalls:1")?;
    within(i, i1, scan_many0(i1, further_number, Ghost(grammar::further_numbers())))
}

/// The signals that a `QPassSignals` packet lists.
fn pass_signals<'a>(i: &'a [u8]) -> (r: Step<'a, Vec<u64>>)
    ensures
        parsed(r) == grammar::pass_signals(i@),
        leaves_tail(r, i@),
{
    proof {
        reveal(grammar::pass_signals);
    }
    let (i1, _) = scan_tag(i, "QPassSignals:")?;
    within(i, i1, scan_separated_nonempty_list(i1, ";", hex_value, Ghost(grammar::numbers())))
}

/// The signals that a `QProgramSignals` packet lists.
fn program_signals<'a>(i: &'a [u8]) -> (r: Step<'a, Vec<u64>>)
    ensures
        parsed(r) == grammar::program_signals(i@),
        leaves_tail(r, i@),
{
    proof {
        reveal(grammar::program_signals);
    }
    let (i1, _) = scan_tag(i, "QProgramSignals:")?;
    within(i, i1, scan_separated_nonempty_list(i1, ";", hex_value, Ghost(grammar::numbers())))
}

/// The thread that a `qThreadExtraInfo` packet names.
fn described_thread<'a>(i: &'a [u8]) -> (r: Step<'a, ThreadId>)
    ensures
        parsed(r) == grammar::described_thread(i@),
        leaves_tail(r, i@),
{
    proof {
        reveal(grammar::described_thread);
    }
    let (i1, _) = scan_tag(i, "qThreadExtraInfo,")?;
    within(i, i1, parse_thread_id(i1))
}

/// A query or a setting.
pub fn query<'a>(i: &'a [u8]) -> (r: Step<'a, Query<'a>>)
    ensures
        parsed(r) == grammar::query(i@),
        leaves_tail(r, i@),
{
    proof {
        reveal(grammar::query);
    }
    let r = completed(scan_word(i, "qC", Query::CurrentThread));
    if !refused(&r) {
        return r;
    }
    let r = match completed(supported_features(i)) {
        Ok((rest, features)) => Ok((rest, Query::SupportedFeatures(features))),
        Err(e) => Err(e),
    };
    if !refused(&r) {
        return r;
    }
    let r = match completed(invoked_command(i)) {
        Ok((rest, bytes)) => Ok((rest, Query::Invoke(bytes))),
        Err(e) => Err(e),
    };
    if !refused(&r) {
        return r;
    }
    let r = match completed(q_search_memory(i)) {
        Ok((rest, (address, length, bytes))) => Ok(
            (rest, Query::SearchMemory { address, length, bytes }),
        ),
        Err(e) => Err(e),
    };
    if !refused(&r) {
        return r;
    }
    let r = completed(scan_word(i, "QStartNoAckMode", Query::StartNoAckMode));
    if !refused(&r) {
        return r;
    }
    let r = match completed(attached_process(i)) {
        Ok((rest, value)) => Ok((rest, Query::Attached(Some(value)))),
        Err(e) => Err(e),
    };
    if !refused(&r) {
        return r;
    }
    let r = completed(scan_word(i, "qAttached", Query::Attached(None)));
    if !refused(&r) {
        return r;
    }
    let r = completed(scan_word(i, "QDisableRandomization:0", Query::AddressRandomization(true)));
    if !refused(&r) {
        return r;
    }
    let r = completed(scan_word(i, "QDisableRandomization:1", Query::AddressRandomization(false)));
    if !refused(&r) {
        return r;
    }
    let r = completed(scan_word(i, "QCatchSyscalls:0", Query::CatchSyscalls(None)));
    if !refused(&r) {
        return r;
    }
    let r = match completed(caught_syscalls(i)) {
        Ok((rest, calls)) => Ok((rest, Query::CatchSyscalls(Some(calls)))),
        Err(e) => Err(e),
    };
    if !refused(&r) {
        return r;
    }
    let r = match completed(pass_signals(i)) {
        Ok((rest, signals)) => Ok((rest, Query::PassSignals(signals))),
        Err(e) => Err(e),
    };
    if !refused(&r) {
        return r;
    }
    let r = match completed(program_signals(i)) {
        Ok((rest, signals)) => Ok((rest, Query::ProgramSignals(signals))),
        Err(e) => Err(e),
    };
    if !refused(&r) {
        return r;
    }
    let r = match completed(described_thread(i)) {
        Ok((rest, id)) => Ok((rest, Query::ThreadInfo(id))),
        Err(e) => Err(e),
    };
    if !refused(&r) {
        return r;
    }
    Err(Stop::Error(ErrorKind::Alt))
}

/// The two characters behind an `R`.
fn reset_code<'a>(i: &'a [u8]) -> (r: Step<'a, &'a [u8]>)
    ensures
        parsed(r) == grammar::reset_code(i@),
        leaves_tail(r, i@),
{
    proof {
        reveal(grammar::reset_code);
    }
    let (i1, _) = scan_tag(i, "R")?;
    within(i, i1, scan_take(i1, 2))
}

/// The data of a packet.
pub fn command<'a>(i: &'a [u8]) -> (r: Step<'a, Command<'a>>)
    ensures
        parsed(r) == grammar::command(i@),
        leaves_tail(r, i@),
{
    proof {
        reveal(grammar::command);
    }
    let r = scan_word(i, "!", Command::EnableExtendedMode);
    if !refused(&r) {
        return r;
    }
    let r = scan_word(i, "?", Command::TargetHaltReason);
    if !refused(&r) {
        return r;
    }
    let r = match parse_d_packet(i) {
        Ok((rest, pid)) => Ok((rest, Command::Detach(pid))),
        Err(e) => Err(e),
    };
    if !refused(&r) {
        return r;
    }
    let r = scan_word(i, "g", Command::ReadGeneralRegisters);
    if !refused(&r) {
        return r;
    }
    let r = scan_word(i, "s", Command::Step);
    if !refused(&r) {
        return r;
    }
    let r = scan_word(i, "c", Command::Continue);
    if !refused(&r) {
        return r;
    }
    let r = match write_general_registers(i) {
        Ok((rest, bytes)) => Ok((rest, Command::WriteGeneralRegisters(bytes))),
        Err(e) => Err(e),
    };
    if !refused(&r) {
        return r;
    }
    let r = match parse_h_packet(i) {
        Ok((rest, id)) => Ok((rest, Command::SetCurrentThread(id))),
        Err(e) => Err(e),
    };
    if !refused(&r) {
        return r;
    }
    let r = scan_word(i, "k", Command::Kill(None));
    if !refused(&r) {
        return r;
    }
    let r = match read_memory(i) {
        Ok((rest, (addr, length))) => Ok(
            (rest, Command::ReadMemory(MemoryRegion::new(addr, length))),
        ),
        Err(e) => Err(e),
    };
    if !refused(&r) {
        return r;
    }
    let r = match write_memory(i) {
        Ok((rest, (addr, length, bytes))) => Ok(
            (rest, Command::WriteMemory(MemoryRegion::new(addr, length), bytes)),
        ),
        Err(e) => Err(e),
    };
    if !refused(&r) {
        return r;
    }
    let r = match read_register(i) {
        Ok((rest, regno)) => Ok((rest, Command::ReadRegister(regno))),
        Err(e) => Err(e),
    };
    if !refused(&r) {
        return r;
    }
    let r = match write_register(i) {
        Ok((rest, (regno, bytes))) => Ok((rest, Command::WriteRegister(regno, bytes))),
        Err(e) => Err(e),
    };
    if !refused(&r) {
        return r;
    }
    let r = match query(i) {
        Ok((rest, q)) => Ok((rest, Command::Query(q))),
        Err(e) => Err(e),
    };
    if !refused(&r) {
        return r;
    }
    let r = scan_word(i, "r", Command::Reset);
    if !refused(&r) {
        return r;
    }
    let r = match reset_code(i) {
        Ok((rest, _)) => Ok((rest, Command::Reset)),
        Err(e) => Err(e),
    };
    if !refused(&r) {
        return r;
    }
    let r = match parse_ping_thread(i) {
        Ok((rest, id)) => Ok((rest, Command::PingThread(id))),
        Err(e) => Err(e),
    };
    if !refused(&r) {
        return r;
    }
    let r = v_command(i);
    if !refused(&r) {
        return r;
    }
    let r = match write_memory_binary(i) {
        Ok((rest, (addr, length, bytes))) => Ok(
            (rest, Command::WriteMemory(MemoryRegion::new(addr, length), bytes)),
        ),
        Err(e) => Err(e),
    };
    if !refused(&r) {
        return r;
    }
    let r = parse_z_packet(i);
    if !refused(&r) {
        return r;
    }
    Err(Stop::Error(ErrorKind::Alt))
}

} // verus!
