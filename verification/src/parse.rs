//! The parsers that packets are read with.
//!
//! Each one is asked only about inputs for which the grammar defines an
//! outcome; those that cannot meet a number that is too large take any input.
use vstd::prelude::*;
use crate::defined::{
    binary_byte_defined, binary_byte_sequence_defined, gdbfeature_defined,
    gdbfeaturesupported_defined, hex_byte_defined, hex_byte_sequence_defined, packet_defined,
    packet_or_response_defined, parse_z_action_defined, parse_z_type_defined,
    write_general_registers_defined,
};
use crate::grammar;
use crate::model::{
    Bytecode, Command, GDBFeatureSupported, Id, Known, Packet, Query, ThreadId, ZAction, ZType,
};
use crate::outcome::{finish, tail_of, IResult};
use crate::scan;

verus! {

/// The checksum of a packet.
pub fn checksum<'a>(i: &'a [u8]) -> (r: IResult<&'a [u8], u8>)
    ensures
        r.parsed() == grammar::checksum(i@),
        r matches IResult::Done(rest, _) ==> tail_of(rest@, i@),
{
    proof {
        reveal(grammar::checksum);
    }
    finish(scan::checksum(i))
}

/// A packet with data.  The checksum is read, but not compared with the data.
pub fn packet<'a>(i: &'a [u8]) -> (r: IResult<&'a [u8], (Vec<u8>, u8)>)
    ensures
        r.parsed() == grammar::packet(i@),
        r matches IResult::Done(rest, _) ==> tail_of(rest@, i@),
{
    proof {
        packet_defined(i@);
    }
    finish(scan::packet(i))
}

/// Anything that a client may send.
pub fn packet_or_response<'a>(i: &'a [u8]) -> (r: IResult<&'a [u8], Packet>)
    ensures
        r.parsed() == grammar::packet_or_response(i@),
        r matches IResult::Done(rest, _) ==> tail_of(rest@, i@),
{
    proof {
        packet_or_response_defined(i@);
    }
    finish(scan::packet_or_response(i))
}

/// The name of a feature.
pub fn gdbfeature<'a>(i: &'a [u8]) -> (r: IResult<&'a [u8], Known<'a>>)
    ensures
        r.parsed() == grammar::gdbfeature(i@),
        r matches IResult::Done(rest, _) ==> tail_of(rest@, i@),
{
    proof {
        gdbfeature_defined(i@);
    }
    finish(scan::gdbfeature(i))
}

/// A feature and what the client says of it.
pub fn gdbfeaturesupported<'a>(i: &'a [u8]) -> (r: IResult<&'a [u8], GDBFeatureSupported<'a>>)
    ensures
        r.parsed() == grammar::gdbfeaturesupported(i@),
        r matches IResult::Done(rest, _) ==> tail_of(rest@, i@),
{
    proof {
        gdbfeaturesupported_defined(i@);
    }
    finish(scan::gdbfeaturesupported(i))
}

/// A request to search memory: where, how far, and for what.
pub fn q_search_memory<'a>(i: &'a [u8]) -> (r: IResult<&'a [u8], (u64, u64, Vec<u8>)>)
    requires
        !(grammar::q_search_memory(i@) is Undefined),
    ensures
        r.parsed() == grammar::q_search_memory(i@),
        r matches IResult::Done(rest, _) ==> tail_of(rest@, i@),
{
    finish(scan::q_search_memory(i))
}

/// A query or a setting.
pub fn query<'a>(i: &'a [u8]) -> (r: IResult<&'a [u8], Query<'a>>)
    requires
        !(grammar::query(i@) is Undefined),
    ensures
        r.parsed() == grammar::query(i@),
        r matches IResult::Done(rest, _) ==> tail_of(rest@, i@),
{
    finish(scan::query(i))
}

/// A number in hexadecimal.
pub fn hex_value<'a>(i: &'a [u8]) -> (r: IResult<&'a [u8], u64>)
    requires
        !(grammar::hex_value(i@) is Undefined),
    ensures
        r.parsed() == grammar::hex_value(i@),
        r matches IResult::Done(rest, _) ==> tail_of(rest@, i@),
{
    finish(scan::hex_value(i))
}

/// A hexadecimal digit.
pub fn hex_digit<'a>(i: &'a [u8]) -> (r: IResult<&'a [u8], char>)
    ensures
        r.parsed() == grammar::hex_digit(i@),
        r matches IResult::Done(rest, _) ==> tail_of(rest@, i@),
{
    proof {
        reveal(grammar::hex_digit);
    }
    finish(scan::hex_digit(i))
}

/// A byte as two hexadecimal digits.
pub fn hex_byte<'a>(i: &'a [u8]) -> (r: IResult<&'a [u8], u8>)
    ensures
        r.parsed() == grammar::hex_byte(i@),
        r matches IResult::Done(rest, _) ==> tail_of(rest@, i@),
{
    proof {
        hex_byte_defined(i@);
    }
    finish(scan::hex_byte(i))
}

/// At least one byte in hexadecimal.
pub fn hex_byte_sequence<'a>(i: &'a [u8]) -> (r: IResult<&'a [u8], Vec<u8>>)
    ensures
        r.parsed() == grammar::hex_byte_sequence(i@),
        r matches IResult::Done(rest, _) ==> tail_of(rest@, i@),
{
    proof {
        hex_byte_sequence_defined(i@);
    }
    finish(scan::hex_byte_sequence(i))
}

/// A request to write memory: the address, the length, and the data in hexadecimal.
pub fn write_memory<'a>(i: &'a [u8]) -> (r: IResult<&'a [u8], (u64, u64, Vec<u8>)>)
    requires
        !(grammar::write_memory(i@) is Undefined),
    ensures
        r.parsed() == grammar::write_memory(i@),
        r matches IResult::Done(rest, _) ==> tail_of(rest@, i@),
{
    finish(scan::write_memory(i))
}

/// A byte of binary data.
pub fn binary_byte<'a>(i: &'a [u8]) -> (r: IResult<&'a [u8], u8>)
    ensures
        r.parsed() == grammar::binary_byte(i@),
        r matches IResult::Done(rest, _) ==> tail_of(rest@, i@),
{
    proof {
        binary_byte_defined(i@);
    }
    finish(scan::binary_byte(i))
}

/// At least one byte of binary data.
pub fn binary_byte_sequence<'a>(i: &'a [u8]) -> (r: IResult<&'a [u8], Vec<u8>>)
    ensures
        r.parsed() == grammar::binary_byte_sequence(i@),
        r matches IResult::Done(rest, _) ==> tail_of(rest@, i@),
{
    proof {
        binary_byte_sequence_defined(i@);
    }
    finish(scan::binary_byte_sequence(i))
}

/// A request to write memory: the address, the length, and binary data.
pub fn write_memory_binary<'a>(i: &'a [u8]) -> (r: IResult<&'a [u8], (u64, u64, Vec<u8>)>)
    requires
        !(grammar::write_memory_binary(i@) is Undefined),
    ensures
        r.parsed() == grammar::write_memory_binary(i@),
        r matches IResult::Done(rest, _) ==> tail_of(rest@, i@),
{
    finish(scan::write_memory_binary(i))
}

/// A request to read memory: the address and the length.
pub fn read_memory<'a>(i: &'a [u8]) -> (r: IResult<&'a [u8], (u64, u64)>)
    requires
        !(grammar::read_memory(i@) is Undefined),
    ensures
        r.parsed() == grammar::read_memory(i@),
        r matches IResult::Done(rest, _) ==> tail_of(rest@, i@),
{
    finish(scan::read_memory(i))
}

/// A request to read a register.
pub fn read_register<'a>(i: &'a [u8]) -> (r: IResult<&'a [u8], u64>)
    requires
        !(grammar::read_register(i@) is Undefined),
    ensures
        r.parsed() == grammar::read_register(i@),
        r matches IResult::Done(rest, _) ==> tail_of(rest@, i@),
{
    finish(scan::read_register(i))
}

/// A request to write a register: which one, and its contents.
pub fn write_register<'a>(i: &'a [u8]) -> (r: IResult<&'a [u8], (u64, Vec<u8>)>)
    requires
        !(grammar::write_register(i@) is Undefined),
    ensures
        r.parsed() == grammar::write_register(i@),
        r matches IResult::Done(rest, _) ==> tail_of(rest@, i@),
{
    finish(scan::write_register(i))
}

/// A request to write the general registers.
pub fn write_general_registers<'a>(i: &'a [u8]) -> (r: IResult<&'a [u8], Vec<u8>>)
    ensures
        r.parsed() == grammar::write_general_registers(i@),
        r matches IResult::Done(rest, _) ==> tail_of(rest@, i@),
{
    proof {
        write_general_registers_defined(i@);
    }
    finish(scan::write_general_registers(i))
}

/// A process or thread id.
pub fn parse_thread_id_element<'a>(i: &'a [u8]) -> (r: IResult<&'a [u8], Id>)
    requires
        !(grammar::parse_thread_id_element(i@) is Undefined),
    ensures
        r.parsed() == grammar::parse_thread_id_element(i@),
        r matches IResult::Done(rest, _) ==> tail_of(rest@, i@),
{
    finish(scan::parse_thread_id_element(i))
}

/// A thread-id.
pub fn parse_thread_id<'a>(i: &'a [u8]) -> (r: IResult<&'a [u8], ThreadId>)
    requires
        !(grammar::parse_thread_id(i@) is Undefined),
    ensures
        r.parsed() == grammar::parse_thread_id(i@),
        r matches IResult::Done(rest, _) ==> tail_of(rest@, i@),
{
    finish(scan::parse_thread_id(i))
}

/// The `T` packet.
pub fn parse_ping_thread<'a>(i: &'a [u8]) -> (r: IResult<&'a [u8], ThreadId>)
    requires
        !(grammar::parse_ping_thread(i@) is Undefined),
    ensures
        r.parsed() == grammar::parse_ping_thread(i@),
        r matches IResult::Done(rest, _) ==> tail_of(rest@, i@),
{
    finish(scan::parse_ping_thread(i))
}

/// The packets that start with `v`.
pub fn v_command<'a>(i: &'a [u8]) -> (r: IResult<&'a [u8], Command<'a>>)
    requires
        !(grammar::v_command(i@) is Undefined),
    ensures
        r.parsed() == grammar::v_command(i@),
        r matches IResult::Done(rest, _) ==> tail_of(rest@, i@),
{
    finish(scan::v_command(i))
}

/// The `H` packet.
pub fn parse_h_packet<'a>(i: &'a [u8]) -> (r: IResult<&'a [u8], ThreadId>)
    requires
        !(grammar::parse_h_packet(i@) is Undefined),
    ensures
        r.parsed() == grammar::parse_h_packet(i@),
        r matches IResult::Done(rest, _) ==> tail_of(rest@, i@),
{
    finish(scan::parse_h_packet(i))
}

/// The `D` packet.
pub fn parse_d_packet<'a>(i: &'a [u8]) -> (r: IResult<&'a [u8], Option<u64>>)
    requires
        !(grammar::parse_d_packet(i@) is Undefined),
    ensures
        r.parsed() == grammar::parse_d_packet(i@),
        r matches IResult::Done(rest, _) ==> tail_of(rest@, i@),
{
    finish(scan::parse_d_packet(i))
}

/// The letter of a `Z` or `z` packet.
pub fn parse_z_action<'a>(i: &'a [u8]) -> (r: IResult<&'a [u8], ZAction>)
    ensures
        r.parsed() == grammar::parse_z_action(i@),
        r matches IResult::Done(rest, _) ==> tail_of(rest@, i@),
{
    proof {
        parse_z_action_defined(i@);
    }
    finish(scan::parse_z_action(i))
}

/// The digit behind that letter.
pub fn parse_z_type<'a>(i: &'a [u8]) -> (r: IResult<&'a [u8], ZType>)
    ensures
        r.parsed() == grammar::parse_z_type(i@),
        r matches IResult::Done(rest, _) ==> tail_of(rest@, i@),
{
    proof {
        parse_z_type_defined(i@);
    }
    finish(scan::parse_z_type(i))
}

/// A bytecode expression.
pub fn parse_cond_or_command_expression<'a>(i: &'a [u8]) -> (r: IResult<&'a [u8], Bytecode>)
    requires
        !(grammar::parse_cond_or_command_expression(i@) is Undefined),
    ensures
        r.parsed() == grammar::parse_cond_or_command_expression(i@),
        r matches IResult::Done(rest, _) ==> tail_of(rest@, i@),
{
    finish(scan::parse_cond_or_command_expression(i))
}

/// The conditions of a breakpoint.
pub fn parse_condition_list<'a>(i: &'a [u8]) -> (r: IResult<&'a [u8], Vec<Bytecode>>)
    requires
        !(grammar::parse_condition_list(i@) is Undefined),
    ensures
        r.parsed() == grammar::parse_condition_list(i@),
        r matches IResult::Done(rest, _) ==> tail_of(rest@, i@),
{
    finish(scan::parse_condition_list(i))
}

/// The conditions of a breakpoint, if the input goes on with conditions.
pub fn maybe_condition_list<'a>(i: &'a [u8]) -> (r: IResult<&'a [u8], Option<Vec<Bytecode>>>)
    requires
        !(grammar::maybe_condition_list(i@) is Undefined),
    ensures
        r.parsed() == grammar::maybe_condition_list(i@),
        r matches IResult::Done(rest, _) ==> tail_of(rest@, i@),
{
    finish(scan::maybe_condition_list(i))
}

/// The commands of a breakpoint.
pub fn parse_command_list<'a>(i: &'a [u8]) -> (r: IResult<&'a [u8], Vec<Bytecode>>)
    requires
        !(grammar::parse_command_list(i@) is Undefined),
    ensures
        r.parsed() == grammar::parse_command_list(i@),
        r matches IResult::Done(rest, _) ==> tail_of(rest@, i@),
{
    finish(scan::parse_command_list(i))
}

/// The commands of a breakpoint, if the input is long enough for any.
pub fn maybe_command_list<'a>(i: &'a [u8]) -> (r: IResult<&'a [u8], Option<Vec<Bytecode>>>)
    requires
        !(grammar::maybe_command_list(i@) is Undefined),
    ensures
        r.parsed() == grammar::maybe_command_list(i@),
        r matches IResult::Done(rest, _) ==> tail_of(rest@, i@),
{
    finish(scan::maybe_command_list(i))
}

/// The conditions and the commands of a breakpoint.
pub fn parse_cond_and_command_list<'a>(i: &'a [u8]) -> (r: IResult<
    &'a [u8],
    (Option<Vec<Bytecode>>, Option<Vec<Bytecode>>),
>)
    requires
        !(grammar::parse_cond_and_command_list(i@) is Undefined),
    ensures
        r.parsed() == grammar::parse_cond_and_command_list(i@),
        r matches IResult::Done(rest, _) ==> tail_of(rest@, i@),
{
    finish(scan::parse_cond_and_command_list(i))
}

/// The `Z` and `z` packets.
pub fn parse_z_packet<'a>(i: &'a [u8]) -> (r: IResult<&'a [u8], Command<'a>>)
    requires
        !(grammar::parse_z_packet(i@) is Undefined),
    ensures
        r.parsed() == grammar::parse_z_packet(i@),
        r matches IResult::Done(rest, _) ==> tail_of(rest@, i@),
{
    finish(scan::parse_z_packet(i))
}

/// The data of a packet.
pub fn command<'a>(i: &'a [u8]) -> (r: IResult<&'a [u8], Command<'a>>)
    requires
        !(grammar::command(i@) is Undefined),
    ensures
        r.parsed() == grammar::command(i@),
        r matches IResult::Done(rest, _) ==> tail_of(rest@, i@),
{
    finish(scan::command(i))
}

/// What is left of a `Z` packet behind its front part.
pub fn insert_command<'a>(rest: &'a [u8], type_: ZType, addr: u64, kind: u64) -> (r: IResult<
    &'a [u8],
    Command<'a>,
>)
    requires
        !(grammar::insert_command(rest@, type_, addr, kind) is Undefined),
    ensures
        r.parsed() == grammar::insert_command(rest@, type_, addr, kind),
        r matches IResult::Done(left, _) ==> tail_of(left@, rest@),
{
    finish(scan::insert_command(rest, type_, addr, kind))
}

/// The command that a `z` packet stands for.
pub fn remove_command<'a>(type_: ZType, addr: u64, kind: u64) -> (c: Command<'a>)
    ensures
        c.deep_view() == grammar::remove_command(type_, addr, kind),
{
    scan::remove_command(type_, addr, kind)
}

} // verus!
