//! Where the grammar has an outcome: some of its parts have one on every input,
//! the others wherever all numbers fit.
use vstd::prelude::*;
use crate::combine::{
    free_of, is_not, many0, many1, more, run_holds, separated, separated_list,
    separated_nonempty_list, tag, take,
};
use crate::grammar;
use crate::model::ZAction;
use crate::outcome::{skipped_is_tail, tail_of, tail_of_tail, whole_is_tail, Parsed};
use crate::requests::first_byte_decides;

verus! {

broadcast use {tail_of_tail, skipped_is_tail};

proof fn more_defined<T>(s: Seq<u8>, p: spec_fn(Seq<u8>) -> Parsed<T>)
    requires
        forall|t: Seq<u8>| !(#[trigger] p(t) is Undefined),
    ensures
        !(more(s, p) is Undefined),
    decreases s.len(),
{
    if let Parsed::Done(rest, _) = p(s) {
        if rest.len() < s.len() {
            more_defined(rest, p);
        }
    }
}

/// A row of items is defined where its items are.
pub proof fn many1_defined<T>(s: Seq<u8>, p: spec_fn(Seq<u8>) -> Parsed<T>)
    requires
        forall|t: Seq<u8>| !(#[trigger] p(t) is Undefined),
    ensures
        !(many1(s, p) is Undefined),
{
    if let Parsed::Done(rest, _) = p(s) {
        more_defined(rest, p);
    }
}

/// There is an outcome on every input.
pub proof fn packet_defined(s: Seq<u8>)
    ensures
        !(grammar::packet(s) is Undefined),
{
    reveal(tag);
    reveal(is_not);
    reveal(grammar::packet);
    reveal(grammar::packet_data);
    reveal(grammar::checksum);
}

/// There is an outcome on every input.
pub proof fn packet_or_response_defined(s: Seq<u8>)
    ensures
        !(grammar::packet_or_response(s) is Undefined),
{
    reveal(tag);
    reveal(grammar::packet_or_response);
    packet_defined(s);
}

/// There is an outcome on every input.
pub proof fn gdbfeature_defined(s: Seq<u8>)
    ensures
        !(grammar::gdbfeature(s) is Undefined),
{
    reveal(is_not);
    reveal(grammar::gdbfeature);
}

/// There is an outcome on every input.
pub proof fn gdbfeaturesupported_defined(s: Seq<u8>)
    ensures
        !(grammar::gdbfeaturesupported(s) is Undefined),
{
    reveal(tag);
    reveal(is_not);
    reveal(grammar::gdbfeaturesupported);
    reveal(grammar::feature_clause);
    if let Parsed::Done(_, f) = is_not(s, ";"@) {
        gdbfeature_defined(f);
        gdbfeature_defined(f.drop_last());
    }
}

/// There is an outcome on every input.
pub proof fn hex_byte_defined(s: Seq<u8>)
    ensures
        !(grammar::hex_byte(s) is Undefined),
{
    reveal(grammar::hex_byte);
    reveal(grammar::hex_digit);
}

/// There is an outcome on every input.
pub proof fn hex_byte_sequence_defined(s: Seq<u8>)
    ensures
        !(grammar::hex_byte_sequence(s) is Undefined),
{
    reveal(grammar::hex_byte_sequence);
    assert forall|t: Seq<u8>| !(#[trigger] grammar::hex_bytes()(t) is Undefined) by {
        hex_byte_defined(t);
    }
    many1_defined(s, grammar::hex_bytes());
}

/// There is an outcome on every input.
pub proof fn binary_byte_defined(s: Seq<u8>)
    ensures
        !(grammar::binary_byte(s) is Undefined),
{
    reveal(tag);
    reveal(take);
    reveal(grammar::binary_byte);
}

/// There is an outcome on every input.
pub proof fn binary_byte_sequence_defined(s: Seq<u8>)
    ensures
        !(grammar::binary_byte_sequence(s) is Undefined),
{
    reveal(grammar::binary_byte_sequence);
    assert forall|t: Seq<u8>| !(#[trigger] grammar::binary_bytes()(t) is Undefined) by {
        binary_byte_defined(t);
    }
    many1_defined(s, grammar::binary_bytes());
}

/// There is an outcome on every input.
pub proof fn write_general_registers_defined(s: Seq<u8>)
    ensures
        !(grammar::write_general_registers(s) is Undefined),
{
    reveal(tag);
    reveal(grammar::write_general_registers);
    if let Parsed::Done(rest, _) = tag(s, "G"@) {
        hex_byte_sequence_defined(rest);
    }
}

/// There is an outcome on every input.
pub proof fn parse_z_action_defined(s: Seq<u8>)
    ensures
        !(grammar::parse_z_action(s) is Undefined),
{
    reveal(tag);
    reveal(grammar::parse_z_action);
}

/// There is an outcome on every input.
pub proof fn parse_z_type_defined(s: Seq<u8>)
    ensures
        !(grammar::parse_z_type(s) is Undefined),
{
    reveal(tag);
    reveal(grammar::parse_z_type);
}

/// Wherever a number stands in `s`, it fits into 64 bits.
pub open spec fn numbers_fit(s: Seq<u8>) -> bool {
    forall|t: Seq<u8>| #[trigger] tail_of(t, s) ==> !(grammar::hex_value(t) is Undefined)
}

/// There is an outcome, and what it leaves over is a tail of the input.
pub open spec fn settled<T>(r: Parsed<T>, s: Seq<u8>) -> bool {
    match r {
        Parsed::Done(rest, _) => tail_of(rest, s),
        Parsed::Undefined => false,
        _ => true,
    }
}

/// What holds of the numbers of an input holds of those of its tails.
broadcast proof fn tails_fit(t: Seq<u8>, s: Seq<u8>)
    requires
        numbers_fit(s),
        #[trigger] tail_of(t, s),
    ensures
        #[trigger] numbers_fit(t),
{
    assert forall|u: Seq<u8>| #[trigger] tail_of(u, t) implies !(grammar::hex_value(
        u,
    ) is Undefined) by {
        tail_of_tail(u, t, s);
    }
}

broadcast proof fn tag_settled(s: Seq<u8>, t: Seq<char>)
    ensures
        settled(#[trigger] tag(s, t), s),
{
    reveal(tag);
}

broadcast proof fn take_settled(s: Seq<u8>, n: nat)
    ensures
        settled(#[trigger] take(s, n), s),
{
    reveal(take);
}

broadcast proof fn hex_value_settled(s: Seq<u8>)
    requires
        numbers_fit(s),
    ensures
        settled(#[trigger] grammar::hex_value(s), s),
{
    whole_is_tail(s);
    reveal(grammar::hex_value);
    run_holds(s, grammar::hex_digits());
}

broadcast group group_settled {
    tails_fit,
    tag_settled,
    take_settled,
    hex_value_settled,
}

/// `p` has an outcome on every input of which the numbers fit.
pub open spec fn settles<T>(p: spec_fn(Seq<u8>) -> Parsed<T>) -> bool {
    forall|t: Seq<u8>| numbers_fit(t) ==> settled(#[trigger] p(t), t)
}

proof fn many0_settled<T>(s: Seq<u8>, p: spec_fn(Seq<u8>) -> Parsed<T>)
    requires
        numbers_fit(s),
        settles(p),
    ensures
        settled(many0(s, p), s),
    decreases s.len(),
{
    whole_is_tail(s);
    if let Parsed::Done(rest, _) = p(s) {
        if rest.len() < s.len() {
            tails_fit(rest, s);
            many0_settled(rest, p);
        }
    }
}

proof fn more_settled<T>(s: Seq<u8>, p: spec_fn(Seq<u8>) -> Parsed<T>)
    requires
        numbers_fit(s),
        settles(p),
    ensures
        settled(more(s, p), s),
    decreases s.len(),
{
    whole_is_tail(s);
    if let Parsed::Done(rest, _) = p(s) {
        if rest.len() < s.len() {
            tails_fit(rest, s);
            more_settled(rest, p);
        }
    }
}

proof fn many1_settled<T>(s: Seq<u8>, p: spec_fn(Seq<u8>) -> Parsed<T>)
    requires
        numbers_fit(s),
        settles(p),
    ensures
        settled(many1(s, p), s),
{
    if let Parsed::Done(rest, _) = p(s) {
        tails_fit(rest, s);
        more_settled(rest, p);
    }
}

proof fn separated_settled<T>(s: Seq<u8>, sep: Seq<char>, p: spec_fn(Seq<u8>) -> Parsed<T>)
    requires
        numbers_fit(s),
        settles(p),
    ensures
        settled(separated(s, sep, p), s),
    decreases s.len(),
{
    whole_is_tail(s);
    tag_settled(s, sep);
    if let Parsed::Done(mid, _) = tag(s, sep) {
        tails_fit(mid, s);
        if let Parsed::Done(rest, _) = p(mid) {
            if mid.len() < s.len() && rest.len() < mid.len() {
                tails_fit(rest, mid);
                separated_settled(rest, sep, p);
            }
        }
    }
}

proof fn lists_settled<T>(s: Seq<u8>, sep: Seq<char>, p: spec_fn(Seq<u8>) -> Parsed<T>)
    requires
        numbers_fit(s),
        settles(p),
    ensures
        settled(separated_list(s, sep, p), s),
        settled(separated_nonempty_list(s, sep, p), s),
{
    whole_is_tail(s);
    if let Parsed::Done(rest, _) = p(s) {
        tails_fit(rest, s);
        separated_settled(rest, sep, p);
    }
}

proof fn hex_digit_settled(s: Seq<u8>)
    requires
        numbers_fit(s),
    ensures
        settled(grammar::hex_digit(s), s),
{
    broadcast use group_settled;

    reveal(grammar::hex_digit);
}

proof fn hex_byte_settled(s: Seq<u8>)
    requires
        numbers_fit(s),
    ensures
        settled(grammar::hex_byte(s), s),
{
    broadcast use group_settled;

    reveal(grammar::hex_byte);
    hex_digit_settled(s);
    if let Parsed::Done(rest, _) = grammar::hex_digit(s) {
        hex_digit_settled(rest);
    }
}

proof fn hex_byte_sequence_settled(s: Seq<u8>)
    requires
        numbers_fit(s),
    ensures
        settled(grammar::hex_byte_sequence(s), s),
{
    broadcast use group_settled;

    reveal(grammar::hex_byte_sequence);
    assert forall|t: Seq<u8>| numbers_fit(t) implies settled(
        #[trigger] grammar::hex_bytes()(t),
        t,
    ) by {
        hex_byte_settled(t);
    }
    many1_settled(s, grammar::hex_bytes());
}

proof fn binary_byte_settled(s: Seq<u8>)
    requires
        numbers_fit(s),
    ensures
        settled(grammar::binary_byte(s), s),
{
    broadcast use group_settled;

    reveal(grammar::binary_byte);
}

proof fn binary_byte_sequence_settled(s: Seq<u8>)
    requires
        numbers_fit(s),
    ensures
        settled(grammar::binary_byte_sequence(s), s),
{
    broadcast use group_settled;

    reveal(grammar::binary_byte_sequence);
    assert forall|t: Seq<u8>| numbers_fit(t) implies settled(
        #[trigger] grammar::binary_bytes()(t),
        t,
    ) by {
        binary_byte_settled(t);
    }
    many1_settled(s, grammar::binary_bytes());
}

proof fn write_general_registers_settled(s: Seq<u8>)
    requires
        numbers_fit(s),
    ensures
        settled(grammar::write_general_registers(s), s),
{
    broadcast use group_settled;

    reveal(grammar::write_general_registers);
    if let Parsed::Done(rest, _) = tag(s, "G"@) {
        hex_byte_sequence_settled(rest);
    }
}

proof fn read_register_settled(s: Seq<u8>)
    requires
        numbers_fit(s),
    ensures
        settled(grammar::read_register(s), s),
{
    broadcast use group_settled;

    reveal(grammar::read_register);
}

proof fn read_memory_settled(s: Seq<u8>)
    requires
        numbers_fit(s),
    ensures
        settled(grammar::read_memory(s), s),
{
    broadcast use group_settled;

    reveal(grammar::read_memory);
}

/// What the packets have in common that hold two numbers and some data.
proof fn two_numbers_and_data<T>(
    s: Seq<u8>,
    word: Seq<char>,
    sep: Seq<char>,
    last: Seq<char>,
    data_of: spec_fn(Seq<u8>) -> Parsed<T>,
)
    requires
        numbers_fit(s),
        settles(data_of),
    ensures
        settled(
            tag(s, word).followed_by(
                s,
                |_u: (), s1: Seq<u8>|
                    grammar::hex_value(s1).followed_by(
                        s1,
                        |address: u64, s2: Seq<u8>|
                            tag(s2, sep).followed_by(
                                s2,
                                |_u: (), s3: Seq<u8>|
                                    grammar::hex_value(s3).followed_by(
                                        s3,
                                        |length: u64, s4: Seq<u8>|
                                            tag(s4, last).followed_by(
                                                s4,
                                                |_u: (), s5: Seq<u8>|
                                                    data_of(s5).mapped(
                                                        |data: T| (address, length, data),
                                                    ),
                                            ),
                                    ),
                            ),
                    ),
            ),
            s,
        ),
{
    broadcast use group_settled;

}

proof fn q_search_memory_settled(s: Seq<u8>)
    requires
        numbers_fit(s),
    ensures
        settled(grammar::q_search_memory(s), s),
{
    broadcast use group_settled;

    reveal(grammar::q_search_memory);
    let data_of = |t: Seq<u8>| grammar::hex_byte_sequence(t);
    assert forall|t: Seq<u8>| numbers_fit(t) implies settled(#[trigger] data_of(t), t) by {
        hex_byte_sequence_settled(t);
    }
    two_numbers_and_data(s, "qSearch:memory:"@, ";"@, ";"@, data_of);
}

proof fn write_memory_settled(s: Seq<u8>)
    requires
        numbers_fit(s),
    ensures
        settled(grammar::write_memory(s), s),
{
    broadcast use group_settled;

    reveal(grammar::write_memory);
    reveal(grammar::memory_write);
    let data_of = |t: Seq<u8>| grammar::hex_byte_sequence(t);
    assert forall|t: Seq<u8>| numbers_fit(t) implies settled(#[trigger] data_of(t), t) by {
        hex_byte_sequence_settled(t);
    }
    two_numbers_and_data(s, "M"@, ","@, ":"@, data_of);
}

proof fn write_memory_binary_settled(s: Seq<u8>)
    requires
        numbers_fit(s),
    ensures
        settled(grammar::write_memory_binary(s), s),
{
    broadcast use group_settled;

    reveal(grammar::write_memory_binary);
    reveal(grammar::memory_write);
    let data_of = |t: Seq<u8>| grammar::binary_byte_sequence(t);
    assert forall|t: Seq<u8>| numbers_fit(t) implies settled(#[trigger] data_of(t), t) by {
        binary_byte_sequence_settled(t);
    }
    two_numbers_and_data(s, "X"@, ","@, ":"@, data_of);
}

proof fn write_register_settled(s: Seq<u8>)
    requires
        numbers_fit(s),
    ensures
        settled(grammar::write_register(s), s),
{
    broadcast use group_settled;

    reveal(grammar::write_register);
    if let Parsed::Done(s1, _) = tag(s, "P"@) {
        if let Parsed::Done(s2, _) = grammar::hex_value(s1) {
            if let Parsed::Done(s3, _) = tag(s2, "="@) {
                hex_byte_sequence_settled(s3);
            }
        }
    }
}

proof fn parse_thread_id_element_settled(s: Seq<u8>)
    requires
        numbers_fit(s),
    ensures
        settled(grammar::parse_thread_id_element(s), s),
{
    broadcast use group_settled;

    reveal(grammar::id_number);
    reveal(grammar::parse_thread_id_element);
}

proof fn process_and_thread_settled(s: Seq<u8>)
    requires
        numbers_fit(s),
    ensures
        settled(grammar::process_and_thread(s), s),
{
    broadcast use group_settled;

    reveal(grammar::process_and_thread);
    if let Parsed::Done(s1, _) = tag(s, "p"@) {
        parse_thread_id_element_settled(s1);
        if let Parsed::Done(s2, _) = grammar::parse_thread_id_element(s1) {
            if let Parsed::Done(s3, _) = tag(s2, "."@) {
                parse_thread_id_element_settled(s3);
            }
        }
    }
}

proof fn parse_thread_id_settled(s: Seq<u8>)
    requires
        numbers_fit(s),
    ensures
        settled(grammar::parse_thread_id(s), s),
{
    broadcast use group_settled;

    reveal(grammar::parse_thread_id);
    reveal(grammar::process_alone);
    parse_thread_id_element_settled(s);
    process_and_thread_settled(s);
    if let Parsed::Done(rest, _) = tag(s, "p"@) {
        parse_thread_id_element_settled(rest);
    }
}

proof fn parse_ping_thread_settled(s: Seq<u8>)
    requires
        numbers_fit(s),
    ensures
        settled(grammar::parse_ping_thread(s), s),
{
    broadcast use group_settled;

    reveal(grammar::parse_ping_thread);
    if let Parsed::Done(rest, _) = tag(s, "T"@) {
        parse_thread_id_settled(rest);
    }
}

proof fn parse_h_packet_settled(s: Seq<u8>)
    requires
        numbers_fit(s),
    ensures
        settled(grammar::parse_h_packet(s), s),
{
    broadcast use group_settled;

    reveal(grammar::parse_h_packet);
    if let Parsed::Done(rest, _) = tag(s, "Hg"@) {
        parse_thread_id_settled(rest);
    }
}

proof fn v_command_settled(s: Seq<u8>)
    requires
        numbers_fit(s),
    ensures
        settled(grammar::v_command(s), s),
{
    broadcast use group_settled;

    reveal(grammar::v_command);
    reveal(grammar::killed_process);
    reveal(grammar::v_rest);
}

proof fn parse_d_packet_settled(s: Seq<u8>)
    requires
        numbers_fit(s),
    ensures
        settled(grammar::parse_d_packet(s), s),
{
    broadcast use group_settled;

    reveal(grammar::parse_d_packet);
    reveal(grammar::detached_process);
}

proof fn further_number_settled(s: Seq<u8>)
    requires
        numbers_fit(s),
    ensures
        settled(grammar::further_number(s), s),
{
    broadcast use group_settled;

    reveal(grammar::further_number);
}

proof fn gdbfeaturesupported_settled(s: Seq<u8>)
    ensures
        settled(grammar::gdbfeaturesupported(s), s),
{
    gdbfeaturesupported_defined(s);
    reveal(grammar::gdbfeaturesupported);
    reveal(is_not);
    run_holds(s, free_of(";"@));
}

proof fn supported_features_settled(s: Seq<u8>)
    requires
        numbers_fit(s),
    ensures
        settled(grammar::supported_features(s), s),
{
    broadcast use group_settled;

    reveal(grammar::supported_features);
    assert forall|t: Seq<u8>| numbers_fit(t) implies settled(
        #[trigger] grammar::features()(t),
        t,
    ) by {
        gdbfeaturesupported_settled(t);
    }
    if let Parsed::Done(rest, _) = tag(s, "qSupported"@) {
        if let Parsed::Done(list, _) = tag(rest, ":"@) {
            lists_settled(list, ";"@, grammar::features());
        }
    }
}

proof fn invoked_command_settled(s: Seq<u8>)
    requires
        numbers_fit(s),
    ensures
        settled(grammar::invoked_command(s), s),
{
    broadcast use group_settled;

    reveal(grammar::invoked_command);
    if let Parsed::Done(rest, _) = tag(s, "qRcmd,"@) {
        hex_byte_sequence_settled(rest);
    }
}

proof fn attached_process_settled(s: Seq<u8>)
    requires
        numbers_fit(s),
    ensures
        settled(grammar::attached_process(s), s),
{
    broadcast use group_settled;

    reveal(grammar::attached_process);
}

proof fn caught_syscalls_settled(s: Seq<u8>)
    requires
        numbers_fit(s),
    ensures
        settled(grammar::caught_syscalls(s), s),
{
    broadcast use group_settled;

    reveal(grammar::caught_syscalls);
    assert forall|t: Seq<u8>| numbers_fit(t) implies settled(
        #[trigger] grammar::further_numbers()(t),
        t,
    ) by {
        further_number_settled(t);
    }
    if let Parsed::Done(rest, _) = tag(s, "QCatchSyscalls:1"@) {
        many0_settled(rest, grammar::further_numbers());
    }
}

proof fn pass_signals_settled(s: Seq<u8>)
    requires
        numbers_fit(s),
    ensures
        settled(grammar::pass_signals(s), s),
{
    broadcast use group_settled;

    reveal(grammar::pass_signals);
    assert(settles(grammar::numbers()));
    if let Parsed::Done(rest, _) = tag(s, "QPassSignals:"@) {
        lists_settled(rest, ";"@, grammar::numbers());
    }
}

proof fn program_signals_settled(s: Seq<u8>)
    requires
        numbers_fit(s),
    ensures
        settled(grammar::program_signals(s), s),
{
    broadcast use group_settled;

    reveal(grammar::program_signals);
    assert(settles(grammar::numbers()));
    if let Parsed::Done(rest, _) = tag(s, "QProgramSignals:"@) {
        lists_settled(rest, ";"@, grammar::numbers());
    }
}

proof fn described_thread_settled(s: Seq<u8>)
    requires
        numbers_fit(s),
    ensures
        settled(grammar::described_thread(s), s),
{
    broadcast use group_settled;

    reveal(grammar::described_thread);
    if let Parsed::Done(rest, _) = tag(s, "qThreadExtraInfo,"@) {
        parse_thread_id_settled(rest);
    }
}

proof fn query_settled(s: Seq<u8>)
    requires
        numbers_fit(s),
    ensures
        settled(grammar::query(s), s),
{
    supported_features_settled(s);
    invoked_command_settled(s);
    q_search_memory_settled(s);
    attached_process_settled(s);
    caught_syscalls_settled(s);
    pass_signals_settled(s);
    program_signals_settled(s);
    described_thread_settled(s);
    tag_settled(s, "qC"@);
    tag_settled(s, "QStartNoAckMode"@);
    tag_settled(s, "qAttached"@);
    tag_settled(s, "QDisableRandomization:0"@);
    tag_settled(s, "QDisableRandomization:1"@);
    tag_settled(s, "QCatchSyscalls:0"@);
    reveal(grammar::query);
}

proof fn z_head_settled(s: Seq<u8>)
    requires
        numbers_fit(s),
    ensures
        settled(grammar::z_head(s), s),
{
    broadcast use group_settled;

    reveal(grammar::z_head);
    reveal(grammar::parse_z_action);
    reveal(grammar::parse_z_type);
}

proof fn parse_cond_or_command_expression_settled(s: Seq<u8>)
    requires
        numbers_fit(s),
    ensures
        settled(grammar::parse_cond_or_command_expression(s), s),
{
    broadcast use group_settled;

    reveal(grammar::parse_cond_or_command_expression);
}

/// Where all numbers fit, there is an outcome for a row of bytecode expressions.
pub proof fn expressions_settled(s: Seq<u8>)
    requires
        numbers_fit(s),
    ensures
        settled(many1(s, grammar::expressions()), s),
{
    assert forall|t: Seq<u8>| numbers_fit(t) implies settled(
        #[trigger] grammar::expressions()(t),
        t,
    ) by {
        parse_cond_or_command_expression_settled(t);
    }
    many1_settled(s, grammar::expressions());
}

proof fn command_expressions_settled(s: Seq<u8>)
    requires
        numbers_fit(s),
    ensures
        settled(grammar::command_expressions(s), s),
{
    broadcast use group_settled;

    reveal(grammar::command_expressions);
    reveal(grammar::persistent_expressions);
    expressions_settled(s);
    if let Parsed::Done(s1, _) = grammar::hex_value(s) {
        if let Parsed::Done(s2, _) = tag(s1, ","@) {
            expressions_settled(s2);
        }
    }
}

/// Where all numbers fit, there is an outcome for the conditions of a breakpoint.
pub proof fn parse_condition_list_settled(s: Seq<u8>)
    requires
        numbers_fit(s),
    ensures
        settled(grammar::parse_condition_list(s), s),
{
    broadcast use group_settled;

    reveal(grammar::parse_condition_list);
    if let Parsed::Done(rest, _) = tag(s, ";"@) {
        expressions_settled(rest);
    }
}

/// Where all numbers fit, there is an outcome for the commands of a breakpoint.
pub proof fn parse_command_list_settled(s: Seq<u8>)
    requires
        numbers_fit(s),
    ensures
        settled(grammar::parse_command_list(s), s),
{
    broadcast use group_settled;

    reveal(grammar::parse_command_list);
    if let Parsed::Done(rest, _) = tag(s, ";cmds"@) {
        command_expressions_settled(rest);
    }
}

/// An input starts with the front part of a packet that inserts a breakpoint.
pub open spec fn inserts_breakpoint(s: Seq<u8>) -> bool {
    grammar::z_head(s) matches Parsed::Done(_, (ZAction::Insert, type_, _, _)) && (
    type_ is SoftwareBreakpoint || type_ is HardwareBreakpoint)
}

/// There is an outcome for the data of every packet in which all numbers fit
/// into 64 bits, unless it inserts a breakpoint.  For one that does, there is
/// an outcome where its lists of conditions and commands can be read.
pub proof fn command_defined(s: Seq<u8>)
    requires
        numbers_fit(s),
        inserts_breakpoint(s) ==> (grammar::z_head(s) matches Parsed::Done(rest, _)
            && grammar::parse_cond_and_command_list(rest) is Done),
    ensures
        !(grammar::command(s) is Undefined),
{
    broadcast use group_settled;

    first_byte_decides(s);
    reveal(grammar::parse_z_packet);
    reveal(grammar::insert_command);
    reveal(grammar::reset_code);
    parse_d_packet_settled(s);
    write_general_registers_settled(s);
    parse_h_packet_settled(s);
    read_memory_settled(s);
    write_memory_settled(s);
    read_register_settled(s);
    write_register_settled(s);
    query_settled(s);
    parse_ping_thread_settled(s);
    v_command_settled(s);
    write_memory_binary_settled(s);
    z_head_settled(s);
}

} // verus!
