//! Which command a packet is, in whatever digits a client writes its numbers
//! and bytes, and whatever follows.
use vstd::prelude::*;
use vstd::utf8::{encode_utf8, is_ascii_chars_encode_utf8};
use crate::combine::{
    free_of, is_not, many0, many1, more, one_byte, run_ends, run_holds, separated, separated_list,
    separated_nonempty_list, tag, tag_accepts, tag_refuses, tag_refuses_at, take,
};
use crate::defined::gdbfeaturesupported_defined;
use crate::digits::{bytes_read, number_read, spells, spells_bytes};
use crate::grammar;
use crate::hex::{hex_number, is_hex};
use crate::laws::{ends_bytes, ends_number};
use crate::lists::{all_measured, give_lengths, gives_length, measured};
use crate::model::{CommandView, MemoryRegion, QueryView, ThreadId, ZAction, ZType};
use crate::outcome::Parsed;
use crate::queries::{passed_over, query_chosen, query_words, words_lead};
use crate::requests::{
    action_read_back, action_text, ends_expressions, first_byte_decides, inserts, punctuation,
    query_refused, tag_at_end, type_read_back, type_text, word_leads,
};
use crate::threads::{thread_form_read, writes_thread};

verus! {

/// A `!` asks for extended mode, whatever follows it.
pub proof fn extended_mode_read(rest: Seq<u8>)
    ensures
        grammar::command(encode_utf8("!"@) + rest) == Parsed::Done(
            rest,
            CommandView::EnableExtendedMode,
        ),
{
    reveal_strlit("!");
    word_leads("!"@, rest);
}

/// A `?` asks why the target stopped, whatever follows it.
pub proof fn halt_reason_read(rest: Seq<u8>)
    ensures
        grammar::command(encode_utf8("?"@) + rest) == Parsed::Done(
            rest,
            CommandView::TargetHaltReason,
        ),
{
    reveal_strlit("?");
    word_leads("?"@, rest);
}

/// A `g` asks for the general registers, whatever follows it.
pub proof fn registers_read(rest: Seq<u8>)
    ensures
        grammar::command(encode_utf8("g"@) + rest) == Parsed::Done(
            rest,
            CommandView::ReadGeneralRegisters,
        ),
{
    reveal_strlit("g");
    word_leads("g"@, rest);
}

/// A `s` asks for a step, whatever follows it.
pub proof fn step_read(rest: Seq<u8>)
    ensures
        grammar::command(encode_utf8("s"@) + rest) == Parsed::Done(rest, CommandView::Step),
{
    reveal_strlit("s");
    word_leads("s"@, rest);
}

/// A `c` asks to go on, whatever follows it.
pub proof fn cont_read(rest: Seq<u8>)
    ensures
        grammar::command(encode_utf8("c"@) + rest) == Parsed::Done(rest, CommandView::Continue),
{
    reveal_strlit("c");
    word_leads("c"@, rest);
}

/// A `k` asks to kill, whatever follows it.
pub proof fn kill_all_read(rest: Seq<u8>)
    ensures
        grammar::command(encode_utf8("k"@) + rest) == Parsed::Done(rest, CommandView::Kill(None)),
{
    reveal_strlit("k");
    word_leads("k"@, rest);
}

/// A `r` asks for a reset, whatever follows it.
pub proof fn reset_read(rest: Seq<u8>)
    ensures
        grammar::command(encode_utf8("r"@) + rest) == Parsed::Done(rest, CommandView::Reset),
{
    reveal_strlit("r");
    word_leads("r"@, rest);
}

/// An `R` and two bytes ask for a reset.
pub proof fn reset_code_read(code: Seq<u8>, rest: Seq<u8>)
    requires
        code.len() == 2,
    ensures
        grammar::command(encode_utf8("R"@) + (code + rest)) == Parsed::Done(
            rest,
            CommandView::Reset,
        ),
{
    reveal(grammar::reset_code);
    reveal(take);
    reveal_strlit("R");
    word_leads("R"@, code + rest);
    assert((code + rest).skip(2) =~= rest);
}

/// `vCtrlC` asks for an interrupt, whatever follows it.
pub proof fn ctrl_c_read(rest: Seq<u8>)
    ensures
        grammar::command(encode_utf8("vCtrlC"@) + rest) == Parsed::Done(rest, CommandView::CtrlC),
{
    reveal(grammar::v_command);
    reveal_strlit("vCtrlC");
    word_leads("vCtrlC"@, rest);
}

/// `vKill;` and a number ask to kill that process.
pub proof fn kill_read(d: Seq<u8>, pid: u64, rest: Seq<u8>)
    requires
        spells(d, pid as nat),
        ends_number(rest),
    ensures
        grammar::command(encode_utf8("vKill;"@) + (d + rest)) == Parsed::Done(
            rest,
            CommandView::Kill(Some(pid)),
        ),
{
    reveal(grammar::v_command);
    reveal(grammar::killed_process);
    reveal_strlit("vKill;");
    word_leads("vKill;"@, d + rest);
    reveal_strlit("vCtrlC");
    passed_over("vKill;"@, d + rest, "vCtrlC"@, 1);
    number_read(d, pid, rest);
}

/// `D;` and a number ask to detach from that process.
pub proof fn detach_read(d: Seq<u8>, pid: u64, rest: Seq<u8>)
    requires
        spells(d, pid as nat),
        ends_number(rest),
    ensures
        grammar::command(encode_utf8("D;"@) + (d + rest)) == Parsed::Done(
            rest,
            CommandView::Detach(Some(pid)),
        ),
{
    reveal(grammar::parse_d_packet);
    reveal(grammar::detached_process);
    reveal_strlit("D;");
    word_leads("D;"@, d + rest);
    number_read(d, pid, rest);
}

/// A `D` with no process behind it asks to detach.
pub proof fn detach_all_read(rest: Seq<u8>)
    requires
        rest.len() > 0 && rest[0] == 0x3b ==> ends_number(rest.skip(1)),
    ensures
        grammar::command(encode_utf8("D"@) + rest) == Parsed::Done(rest, CommandView::Detach(None)),
{
    reveal(grammar::parse_d_packet);
    reveal(grammar::detached_process);
    reveal_strlit("D");
    reveal_strlit("D;");
    word_leads("D"@, rest);
    one_byte("D"@);
    is_ascii_chars_encode_utf8("D;"@);
    let s = encode_utf8("D"@) + rest;
    let e = encode_utf8("D;"@);
    assert(e[0] == "D;"@[0] as u8);
    assert(e[1] == "D;"@[1] as u8);
    if rest.len() == 0 {
        assert(tag(s, "D;"@) is Incomplete) by {
            reveal(tag);
            assert(s =~= e.subrange(0, 1));
        }
    } else if rest[0] == 0x3b {
        let t = rest.skip(1);
        assert(s =~= e + t);
        tag_accepts("D;"@, t);
        reveal(grammar::hex_value);
        run_ends(t, grammar::hex_digits(), 0);
    } else {
        assert(s[1] == rest[0]);
        tag_refuses_at(s, "D;"@, 1);
    }
}

/// A `G` and bytes ask to write the general registers.
pub proof fn write_registers_read(h: Seq<u8>, bytes: Seq<u8>, rest: Seq<u8>)
    requires
        bytes.len() > 0,
        spells_bytes(h, bytes),
        ends_bytes(rest),
    ensures
        grammar::command(encode_utf8("G"@) + (h + rest)) == Parsed::Done(
            rest,
            CommandView::WriteGeneralRegisters(bytes),
        ),
{
    reveal(grammar::write_general_registers);
    reveal_strlit("G");
    word_leads("G"@, h + rest);
    bytes_read(h, bytes, rest);
}

/// A `p` and a number ask for that register.
pub proof fn register_read(d: Seq<u8>, regno: u64, rest: Seq<u8>)
    requires
        spells(d, regno as nat),
        ends_number(rest),
    ensures
        grammar::command(encode_utf8("p"@) + (d + rest)) == Parsed::Done(
            rest,
            CommandView::ReadRegister(regno),
        ),
{
    reveal(grammar::read_register);
    reveal_strlit("p");
    word_leads("p"@, d + rest);
    number_read(d, regno, rest);
}

/// A `P`, a number, a `=` and bytes ask to write that register.
pub proof fn write_register_read(
    d: Seq<u8>,
    regno: u64,
    h: Seq<u8>,
    bytes: Seq<u8>,
    rest: Seq<u8>,
)
    requires
        spells(d, regno as nat),
        bytes.len() > 0,
        spells_bytes(h, bytes),
        ends_bytes(rest),
    ensures
        grammar::command(
            encode_utf8("P"@) + (d + (encode_utf8("="@) + (h + rest))),
        ) == Parsed::Done(rest, CommandView::WriteRegister(regno, bytes)),
{
    reveal(grammar::write_register);
    punctuation();
    let s3 = h + rest;
    let s2 = encode_utf8("="@) + s3;
    reveal_strlit("P");
    word_leads("P"@, d + s2);
    assert(s2[0] == 0x3d);
    number_read(d, regno, s2);
    tag_accepts("="@, s3);
    bytes_read(h, bytes, rest);
}

/// An `m`, an address, a `,` and a length ask for that memory.
pub proof fn memory_read(da: Seq<u8>, address: u64, dn: Seq<u8>, length: u64, rest: Seq<u8>)
    requires
        spells(da, address as nat),
        spells(dn, length as nat),
        ends_number(rest),
    ensures
        grammar::command(
            encode_utf8("m"@) + (da + (encode_utf8(","@) + (dn + rest))),
        ) == Parsed::Done(rest, CommandView::ReadMemory(MemoryRegion { address, length })),
{
    reveal(grammar::read_memory);
    punctuation();
    let s3 = dn + rest;
    let s2 = encode_utf8(","@) + s3;
    reveal_strlit("m");
    word_leads("m"@, da + s2);
    assert(s2[0] == 0x2c);
    number_read(da, address, s2);
    tag_accepts(","@, s3);
    number_read(dn, length, rest);
}

/// What the two packets that write memory have in common.
proof fn memory_write_read(
    letter: Seq<char>,
    da: Seq<u8>,
    address: u64,
    dn: Seq<u8>,
    length: u64,
    s5: Seq<u8>,
    rest: Seq<u8>,
    bytes: Seq<u8>,
    data_of: spec_fn(Seq<u8>) -> Parsed<Seq<u8>>,
)
    requires
        spells(da, address as nat),
        spells(dn, length as nat),
        data_of(s5) == Parsed::Done(rest, bytes),
    ensures
        grammar::memory_write(
            encode_utf8(letter) + (da + (encode_utf8(","@) + (dn + (encode_utf8(":"@) + s5)))),
            letter,
            data_of,
        ) == Parsed::Done(rest, (address, length, bytes)),
{
    reveal(grammar::memory_write);
    punctuation();
    let s4 = encode_utf8(":"@) + s5;
    let s3 = dn + s4;
    let s2 = encode_utf8(","@) + s3;
    tag_accepts(letter, da + s2);
    assert(s2[0] == 0x2c);
    number_read(da, address, s2);
    tag_accepts(","@, s3);
    assert(s4[0] == 0x3a);
    number_read(dn, length, s4);
    tag_accepts(":"@, s5);
}

/// An `M`, an address, a `,`, a length, a `:` and bytes ask to write memory.
pub proof fn memory_written(
    da: Seq<u8>,
    address: u64,
    dn: Seq<u8>,
    length: u64,
    h: Seq<u8>,
    bytes: Seq<u8>,
    rest: Seq<u8>,
)
    requires
        spells(da, address as nat),
        spells(dn, length as nat),
        bytes.len() > 0,
        spells_bytes(h, bytes),
        ends_bytes(rest),
    ensures
        grammar::command(
            encode_utf8("M"@) + (da + (encode_utf8(","@) + (dn + (encode_utf8(":"@) + (h
                + rest))))),
        ) == Parsed::Done(rest, CommandView::WriteMemory(MemoryRegion { address, length }, bytes)),
{
    reveal(grammar::write_memory);
    reveal_strlit("M");
    let s5 = h + rest;
    word_leads("M"@, da + (encode_utf8(","@) + (dn + (encode_utf8(":"@) + s5))));
    bytes_read(h, bytes, rest);
    let f = |t: Seq<u8>| grammar::hex_byte_sequence(t);
    memory_write_read("M"@, da, address, dn, length, s5, rest, bytes, f);
}

/// `coded` stands for `bytes` in binary data: a byte stands for itself, and a
/// `}` and a byte stand for that byte with one bit turned over.  A `}` at the very
/// end stands for itself.
pub open spec fn binary_for(coded: Seq<u8>, bytes: Seq<u8>) -> bool
    decreases bytes.len(),
{
    if bytes.len() == 0 {
        coded.len() == 0
    } else {
        ||| coded.len() > 0 && coded[0] != 0x7d && coded[0] == bytes[0] && binary_for(
            coded.skip(1),
            bytes.skip(1),
        )
        ||| coded.len() > 1 && coded[0] == 0x7d && coded[1] == bytes[0] ^ 0x20 && binary_for(
            coded.skip(2),
            bytes.skip(1),
        )
        ||| coded == seq![0x7du8] && bytes == seq![0x7du8]
    }
}

/// A byte of binary data is read.
proof fn first_binary(coded: Seq<u8>, bytes: Seq<u8>) -> (left: Seq<u8>)
    requires
        bytes.len() > 0,
        binary_for(coded, bytes),
    ensures
        left.len() < coded.len(),
        binary_for(left, bytes.skip(1)),
        grammar::binary_byte(coded) == Parsed::Done(left, bytes[0]),
{
    reveal(grammar::binary_byte);
    reveal(take);
    reveal_strlit("}");
    one_byte("}"@);
    if coded.len() == 1 && coded[0] == 0x7d {
        let left = coded.skip(1);
        let none = Seq::<u8>::empty();
        assert(coded =~= encode_utf8("}"@) + none);
        tag_accepts("}"@, none);
        assert(left =~= none);
        left
    } else if coded[0] == 0x7d {
        let left = coded.skip(2);
        assert(coded =~= encode_utf8("}"@) + coded.skip(1));
        tag_accepts("}"@, coded.skip(1));
        assert(coded.skip(1).skip(1) =~= left);
        let b = bytes[0];
        assert((b ^ 0x20) ^ 0x20 == b) by (bit_vector);
        left
    } else {
        tag_refuses(coded, "}"@);
        coded.skip(1)
    }
}

/// Behind a byte of binary data, any number of them is read.
proof fn more_binary(coded: Seq<u8>, bytes: Seq<u8>)
    requires
        binary_for(coded, bytes),
    ensures
        more(coded, grammar::binary_bytes()) == Parsed::Done(Seq::<u8>::empty(), bytes),
    decreases bytes.len(),
{
    if bytes.len() == 0 {
        assert(coded =~= Seq::<u8>::empty());
        assert(bytes =~= seq![]);
    } else {
        let left = first_binary(coded, bytes);
        more_binary(left, bytes.skip(1));
        assert(grammar::binary_bytes()(coded) == Parsed::Done(left, bytes[0]));
        assert(seq![bytes[0]] + bytes.skip(1) =~= bytes);
    }
}

/// Bytes are read from binary data, whichever of them stand behind a `}`.
pub proof fn binary_read(coded: Seq<u8>, bytes: Seq<u8>)
    requires
        bytes.len() > 0,
        binary_for(coded, bytes),
    ensures
        grammar::binary_byte_sequence(coded) == Parsed::Done(Seq::<u8>::empty(), bytes),
{
    reveal(grammar::binary_byte_sequence);
    let left = first_binary(coded, bytes);
    more_binary(left, bytes.skip(1));
    assert(grammar::binary_bytes()(coded) == Parsed::Done(left, bytes[0]));
    assert(seq![bytes[0]] + bytes.skip(1) =~= bytes);
    assert(many1(coded, grammar::binary_bytes()) is Done);
}

/// An `X`, an address, a `,`, a length, a `:` and binary data ask to write memory.
pub proof fn binary_memory_written(
    da: Seq<u8>,
    address: u64,
    dn: Seq<u8>,
    length: u64,
    coded: Seq<u8>,
    bytes: Seq<u8>,
)
    requires
        spells(da, address as nat),
        spells(dn, length as nat),
        bytes.len() > 0,
        binary_for(coded, bytes),
    ensures
        grammar::command(
            encode_utf8("X"@) + (da + (encode_utf8(","@) + (dn + (encode_utf8(":"@) + coded)))),
        ) == Parsed::Done(
            Seq::<u8>::empty(),
            CommandView::WriteMemory(MemoryRegion { address, length }, bytes),
        ),
{
    reveal(grammar::write_memory_binary);
    reveal_strlit("X");
    word_leads("X"@, da + (encode_utf8(","@) + (dn + (encode_utf8(":"@) + coded))));
    binary_read(coded, bytes);
    let f = |t: Seq<u8>| grammar::binary_byte_sequence(t);
    let none = Seq::<u8>::empty();
    memory_write_read("X"@, da, address, dn, length, coded, none, bytes, f);
}

/// A `T` and a thread ask whether that thread is alive.
pub proof fn ping_read(text: Seq<u8>, id: ThreadId, rest: Seq<u8>)
    requires
        writes_thread(text, id, rest),
    ensures
        grammar::command(encode_utf8("T"@) + (text + rest)) == Parsed::Done(
            rest,
            CommandView::PingThread(id),
        ),
{
    reveal(grammar::parse_ping_thread);
    reveal_strlit("T");
    word_leads("T"@, text + rest);
    thread_form_read(text, id, rest);
}

/// `Hg` and a thread make that thread the current one.
pub proof fn set_thread_read(text: Seq<u8>, id: ThreadId, rest: Seq<u8>)
    requires
        writes_thread(text, id, rest),
    ensures
        grammar::command(encode_utf8("Hg"@) + (text + rest)) == Parsed::Done(
            rest,
            CommandView::SetCurrentThread(id),
        ),
{
    reveal(grammar::parse_h_packet);
    reveal_strlit("Hg");
    word_leads("Hg"@, text + rest);
    thread_form_read(text, id, rest);
}

/// An expression behind the digits of its length is read.
proof fn measured_read(digits: Seq<u8>, e: Seq<u8>, rest: Seq<u8>)
    requires
        gives_length(digits, e),
    ensures
        grammar::parse_cond_or_command_expression(measured(digits, e) + rest) == Parsed::Done(
            rest,
            e,
        ),
        measured(digits, e).len() > 0,
{
    reveal(grammar::parse_cond_or_command_expression);
    reveal(take);
    punctuation();
    let s3 = e + rest;
    let s2 = encode_utf8(","@) + s3;
    let s1 = digits + s2;
    assert(measured(digits, e) + rest =~= encode_utf8("X"@) + s1);
    tag_accepts("X"@, s1);
    assert(s2[0] == 0x2c);
    number_read(digits, hex_number(digits) as u64, s2);
    tag_accepts(","@, s3);
    assert(s3.skip(e.len() as int) =~= rest);
    assert(s3.take(e.len() as int) =~= e);
}

/// The lengths of all expressions but the first are those of all but the first.
proof fn lengths_of_others(lengths: Seq<Seq<u8>>, list: Seq<Seq<u8>>)
    requires
        list.len() > 0,
        give_lengths(lengths, list),
    ensures
        gives_length(lengths[0], list[0]),
        give_lengths(lengths.skip(1), list.skip(1)),
{
    let (a, b) = (lengths.skip(1), list.skip(1));
    assert(gives_length(lengths[0], list[0]));
    assert forall|j: int| 0 <= j < b.len() implies gives_length(#[trigger] a[j], b[j]) by {
        assert(a[j] == lengths[j + 1]);
        assert(b[j] == list[j + 1]);
    }
}

/// Behind an expression, any number of them is read.
proof fn more_measured_read(lengths: Seq<Seq<u8>>, list: Seq<Seq<u8>>, rest: Seq<u8>)
    requires
        give_lengths(lengths, list),
        ends_expressions(rest),
    ensures
        more(all_measured(lengths, list) + rest, grammar::expressions()) == Parsed::Done(
            rest,
            list,
        ),
    decreases list.len(),
{
    let s = all_measured(lengths, list) + rest;
    if list.len() == 0 {
        assert(s =~= rest);
        assert(list =~= seq![]);
        if rest.len() > 0 {
            reveal(grammar::parse_cond_or_command_expression);
            reveal_strlit("X");
            tag_refuses(rest, "X"@);
            assert(grammar::expressions()(s) is Error);
        }
    } else {
        lengths_of_others(lengths, list);
        let left = all_measured(lengths.skip(1), list.skip(1)) + rest;
        assert(s =~= measured(lengths[0], list[0]) + left);
        measured_read(lengths[0], list[0], left);
        more_measured_read(lengths.skip(1), list.skip(1), rest);
        assert(grammar::expressions()(s) == Parsed::Done(left, list[0]));
        assert(seq![list[0]] + list.skip(1) =~= list);
    }
}

/// Expressions, each behind the digits of its length, are read.
proof fn all_measured_read(lengths: Seq<Seq<u8>>, list: Seq<Seq<u8>>, rest: Seq<u8>)
    requires
        list.len() > 0,
        give_lengths(lengths, list),
        ends_expressions(rest),
    ensures
        many1(all_measured(lengths, list) + rest, grammar::expressions()) == Parsed::Done(
            rest,
            list,
        ),
        all_measured(lengths, list).len() > 0,
        all_measured(lengths, list)[0] == 0x58,
{
    let s = all_measured(lengths, list) + rest;
    punctuation();
    lengths_of_others(lengths, list);
    let left = all_measured(lengths.skip(1), list.skip(1)) + rest;
    assert(s =~= measured(lengths[0], list[0]) + left);
    measured_read(lengths[0], list[0], left);
    more_measured_read(lengths.skip(1), list.skip(1), rest);
    assert(grammar::expressions()(s) == Parsed::Done(left, list[0]));
    assert(seq![list[0]] + list.skip(1) =~= list);
}

/// `text` stands for the conditions of a breakpoint: nothing where there are
/// none, or a `;` and at least one expression.
pub open spec fn conditions_for(text: Seq<u8>, conditions: Option<Seq<Seq<u8>>>) -> bool {
    match conditions {
        None => text.len() == 0,
        Some(list) => list.len() > 0 && conditions_listed(text, list),
    }
}

/// A `;` and expressions, each behind the digits of its length.
pub open spec fn conditions_listed(text: Seq<u8>, list: Seq<Seq<u8>>) -> bool {
    exists|lengths: Seq<Seq<u8>>| #[trigger]
        give_lengths(lengths, list) && text == encode_utf8(";"@) + all_measured(lengths, list)
}

/// `flag` is a persistence flag, a number and a `,`, or nothing.
pub open spec fn flag_form(flag: Seq<u8>) -> bool {
    flag.len() == 0 || exists|d: Seq<u8>, n: u64| #[trigger]
        spells(d, n as nat) && flag == d + encode_utf8(","@)
}

/// `text` stands for the commands of a breakpoint: nothing where there are
/// none, or `;cmds`, perhaps a flag, and at least one expression.
pub open spec fn commands_for(text: Seq<u8>, commands: Option<Seq<Seq<u8>>>) -> bool {
    match commands {
        None => text.len() == 0,
        Some(list) => list.len() > 0 && commands_listed(text, list),
    }
}

/// `;cmds`, perhaps a flag, and expressions, each behind the digits of its length.
pub open spec fn commands_listed(text: Seq<u8>, list: Seq<Seq<u8>>) -> bool {
    exists|flag: Seq<u8>, lengths: Seq<Seq<u8>>| #[trigger]
        flag_form(flag) && #[trigger] give_lengths(lengths, list) && text == encode_utf8(";cmds"@)
            + (flag + all_measured(lengths, list))
}

/// What may stand behind the conditions and commands of a breakpoint.
pub open spec fn ends_lists(commands: Option<Seq<Seq<u8>>>, rest: Seq<u8>) -> bool {
    ends_expressions(rest) && (commands is None ==> rest.len() == 0)
}

/// The commands of a breakpoint are read.
proof fn commands_form_read(text: Seq<u8>, commands: Option<Seq<Seq<u8>>>, rest: Seq<u8>)
    requires
        commands_for(text, commands),
        ends_lists(commands, rest),
    ensures
        grammar::maybe_command_list(text + rest) == Parsed::Done(rest, commands),
        commands is Some ==> text.len() > 1 && text[0] == 0x3b && text[1] == 0x63,
{
    reveal(grammar::maybe_command_list);
    reveal(grammar::parse_command_list);
    reveal(grammar::command_expressions);
    reveal(grammar::persistent_expressions);
    reveal_strlit(";cmds");
    is_ascii_chars_encode_utf8(";cmds"@);
    punctuation();
    match commands {
        None => {
            assert(text + rest =~= Seq::<u8>::empty());
            assert(rest =~= Seq::<u8>::empty());
            tag_at_end(";cmds"@);
        },
        Some(list) => {
            let (flag, lengths) = choose|flag: Seq<u8>, lengths: Seq<Seq<u8>>| #[trigger]
                flag_form(flag) && #[trigger] give_lengths(lengths, list) && text == encode_utf8(
                    ";cmds"@,
                ) + (flag + all_measured(lengths, list));
            let s2 = all_measured(lengths, list) + rest;
            let s1 = flag + s2;
            assert(encode_utf8(";cmds"@)[0] == ";cmds"@[0] as u8);
            assert(encode_utf8(";cmds"@)[1] == ";cmds"@[1] as u8);
            assert(text + rest =~= encode_utf8(";cmds"@) + s1);
            tag_accepts(";cmds"@, s1);
            all_measured_read(lengths, list, rest);
            assert(s2[0] == 0x58);
            if flag.len() == 0 {
                assert(s1 =~= s2);
                reveal(grammar::hex_value);
                run_ends(s1, grammar::hex_digits(), 0);
            } else {
                let (d, n) = choose|d: Seq<u8>, n: u64| #[trigger]
                    spells(d, n as nat) && flag == d + encode_utf8(","@);
                let t = encode_utf8(","@) + s2;
                assert(s1 =~= d + t);
                assert(t[0] == 0x2c);
                number_read(d, n, t);
                tag_accepts(","@, s2);
            }
        },
    }
}

/// The conditions and commands of a breakpoint are read.
pub proof fn lists_read(
    conditions_text: Seq<u8>,
    conditions: Option<Seq<Seq<u8>>>,
    commands_text: Seq<u8>,
    commands: Option<Seq<Seq<u8>>>,
    rest: Seq<u8>,
)
    requires
        conditions_for(conditions_text, conditions),
        commands_for(commands_text, commands),
        ends_lists(commands, rest),
    ensures
        grammar::parse_cond_and_command_list(
            conditions_text + (commands_text + rest),
        ) == Parsed::Done(rest, (conditions, commands)),
        ({
            let t = conditions_text + (commands_text + rest);
            t.len() > 0 && (conditions is Some || commands is Some) ==> t[0] == 0x3b
        }),
{
    reveal(grammar::parse_cond_and_command_list);
    reveal(grammar::maybe_condition_list);
    reveal(grammar::parse_condition_list);
    punctuation();
    commands_form_read(commands_text, commands, rest);
    let left = commands_text + rest;
    let s = conditions_text + left;
    match conditions {
        Some(list) => {
            let lengths = choose|lengths: Seq<Seq<u8>>| #[trigger]
                give_lengths(lengths, list) && conditions_text == encode_utf8(";"@) + all_measured(
                    lengths,
                    list,
                );
            let s1 = all_measured(lengths, list) + left;
            assert(s =~= encode_utf8(";"@) + s1);
            tag_accepts(";"@, s1);
            assert(left.len() > 0 ==> left[0] != 0x58);
            all_measured_read(lengths, list, left);
        },
        None => {
            assert(s =~= left);
            if commands is None {
                assert(s =~= Seq::<u8>::empty());
                tag_at_end(";"@);
            } else {
                let s1 = left.skip(1);
                assert(left[0] == commands_text[0]);
                assert(left[1] == commands_text[1]);
                assert(s =~= encode_utf8(";"@) + s1);
                tag_accepts(";"@, s1);
                reveal(grammar::parse_cond_or_command_expression);
                reveal_strlit("X");
                assert(s1[0] == 0x63);
                tag_refuses(s1, "X"@);
                assert(grammar::expressions()(s1) is Error);
            }
        },
    }
}

/// The three characters that a packet starts with which inserts or removes
/// something.
pub open spec fn z_word(word: Seq<char>, action: ZAction, type_: ZType) -> bool {
    &&& word.len() == 3
    &&& word[0] == if action == ZAction::Insert {
        'Z'
    } else {
        'z'
    }
    &&& word[1] == match type_ {
        ZType::SoftwareBreakpoint => '0',
        ZType::HardwareBreakpoint => '1',
        ZType::WriteWatchpoint => '2',
        ZType::ReadWatchpoint => '3',
        ZType::AccessWatchpoint => '4',
    }
    &&& word[2] == ','
}

/// The front part of a packet that inserts or removes something is read.
pub(crate) proof fn z_head_read(
    word: Seq<char>,
    action: ZAction,
    type_: ZType,
    da: Seq<u8>,
    addr: u64,
    dk: Seq<u8>,
    kind: u64,
    rest: Seq<u8>,
)
    requires
        z_word(word, action, type_),
        spells(da, addr as nat),
        spells(dk, kind as nat),
        ends_number(rest),
    ensures
        ({
            let s = encode_utf8(word) + (da + (encode_utf8(","@) + (dk + rest)));
            &&& grammar::z_head(s) == Parsed::Done(rest, (action, type_, addr, kind))
            &&& grammar::command(s) == grammar::parse_z_packet(s).or_none()
        }),
{
    reveal(grammar::z_head);
    punctuation();
    let s5 = dk + rest;
    let s4 = encode_utf8(","@) + s5;
    let s3 = da + s4;
    let s2 = encode_utf8(","@) + s3;
    let s1 = encode_utf8(type_text(type_)) + s2;
    let s0 = encode_utf8(action_text(action)) + s1;
    let s = encode_utf8(word) + s3;
    assert(s =~= s0) by {
        is_ascii_chars_encode_utf8(word);
        reveal_strlit("z");
        reveal_strlit("Z");
        reveal_strlit("0");
        reveal_strlit("1");
        reveal_strlit("2");
        reveal_strlit("3");
        reveal_strlit("4");
        one_byte(action_text(action));
        one_byte(type_text(type_));
        assert(encode_utf8(word)[0] == word[0] as u8);
        assert(encode_utf8(word)[1] == word[1] as u8);
        assert(encode_utf8(word)[2] == word[2] as u8);
        assert(encode_utf8(word) =~= encode_utf8(action_text(action)) + encode_utf8(
            type_text(type_),
        ) + encode_utf8(","@));
    }
    action_read_back(action, s1);
    type_read_back(type_, s2);
    tag_accepts(","@, s3);
    assert(s4[0] == 0x2c);
    number_read(da, addr, s4);
    tag_accepts(","@, s5);
    number_read(dk, kind, rest);
    assert(s[0] == 0x5a || s[0] == 0x7a);
    first_byte_decides(s);
}

/// A request to insert a watchpoint is read.
pub(crate) proof fn insert_watchpoint_read(
    word: Seq<char>,
    type_: ZType,
    da: Seq<u8>,
    addr: u64,
    dk: Seq<u8>,
    n_bytes: u64,
    rest: Seq<u8>,
)
    requires
        z_word(word, ZAction::Insert, type_),
        type_ is WriteWatchpoint || type_ is ReadWatchpoint || type_ is AccessWatchpoint,
        spells(da, addr as nat),
        spells(dk, n_bytes as nat),
        ends_number(rest),
    ensures
        grammar::command(encode_utf8(word) + (da + (encode_utf8(","@) + (dk + rest))))
            == Parsed::Done(rest, inserts(type_, addr, n_bytes, None, None)),
{
    reveal(grammar::parse_z_packet);
    reveal(grammar::insert_command);
    z_head_read(word, ZAction::Insert, type_, da, addr, dk, n_bytes, rest);
}

/// A request to remove something is read.
pub(crate) proof fn removal_read(
    word: Seq<char>,
    type_: ZType,
    da: Seq<u8>,
    addr: u64,
    dk: Seq<u8>,
    kind: u64,
    rest: Seq<u8>,
)
    requires
        z_word(word, ZAction::Remove, type_),
        spells(da, addr as nat),
        spells(dk, kind as nat),
        ends_number(rest),
    ensures
        grammar::command(encode_utf8(word) + (da + (encode_utf8(","@) + (dk + rest))))
            == Parsed::Done(rest, grammar::remove_command(type_, addr, kind)),
{
    reveal(grammar::parse_z_packet);
    z_head_read(word, ZAction::Remove, type_, da, addr, dk, kind, rest);
}

/// A request to insert a breakpoint is read, with its conditions and commands.
pub(crate) proof fn insert_breakpoint_read(
    word: Seq<char>,
    type_: ZType,
    da: Seq<u8>,
    addr: u64,
    dk: Seq<u8>,
    kind: u64,
    conditions_text: Seq<u8>,
    conditions: Option<Seq<Seq<u8>>>,
    commands_text: Seq<u8>,
    commands: Option<Seq<Seq<u8>>>,
    rest: Seq<u8>,
)
    requires
        z_word(word, ZAction::Insert, type_),
        type_ is SoftwareBreakpoint || type_ is HardwareBreakpoint,
        spells(da, addr as nat),
        spells(dk, kind as nat),
        conditions_for(conditions_text, conditions),
        commands_for(commands_text, commands),
        ends_lists(commands, rest),
    ensures
        grammar::command(
            encode_utf8(word) + (da + (encode_utf8(","@) + (dk + (conditions_text + (commands_text
                + rest))))),
        ) == Parsed::Done(rest, inserts(type_, addr, kind, conditions, commands)),
{
    reveal(grammar::parse_z_packet);
    reveal(grammar::insert_command);
    let left = conditions_text + (commands_text + rest);
    lists_read(conditions_text, conditions, commands_text, commands, rest);
    if conditions is None && commands is None {
        assert(left =~= Seq::<u8>::empty());
    }
    z_head_read(word, ZAction::Insert, type_, da, addr, dk, kind, left);
}

/// A query is read as what it starts with says.
proof fn query_read(n: int, rest: Seq<u8>, left: Seq<u8>, q: QueryView)
    requires
        0 <= n < query_words().len(),
        grammar::query(encode_utf8(query_words()[n]) + rest) == Parsed::Done(left, q),
    ensures
        grammar::command(encode_utf8(query_words()[n]) + rest) == Parsed::Done(
            left,
            CommandView::Query(q),
        ),
{
    let s = encode_utf8(query_words()[n]) + rest;
    if s.len() > 0 && s[0] != 0x71 && s[0] != 0x51 {
        query_refused(s);
    }
    first_byte_decides(s);
    if s.len() == 0 {
        query_chosen(n, Seq::<u8>::empty());
        assert(s =~= encode_utf8(query_words()[n]) + Seq::<u8>::empty());
    }
}

/// A query that is a word and nothing else is read, whatever follows it.
proof fn word_query_read(n: int, rest: Seq<u8>, q: QueryView)
    requires
        n == 0 && q == QueryView::CurrentThread || n == 4 && q == QueryView::StartNoAckMode || n
            == 7 && q == QueryView::AddressRandomization(true) || n == 8 && q
            == QueryView::AddressRandomization(false) || n == 9 && q == QueryView::CatchSyscalls(
            None,
        ),
    ensures
        grammar::command(encode_utf8(query_words()[n]) + rest) == Parsed::Done(
            rest,
            CommandView::Query(q),
        ),
{
    query_chosen(n, rest);
    reveal(grammar::query);
    query_read(n, rest, rest, q);
}

/// `qC` asks for the current thread, whatever follows it.
pub proof fn current_thread_read(rest: Seq<u8>)
    ensures
        grammar::command(encode_utf8("qC"@) + rest) == Parsed::Done(
            rest,
            CommandView::Query(QueryView::CurrentThread),
        ),
{
    word_query_read(0, rest, QueryView::CurrentThread);
}

/// `QStartNoAckMode` asks to do without acknowledgments, whatever follows it.
pub proof fn no_ack_mode_read(rest: Seq<u8>)
    ensures
        grammar::command(encode_utf8("QStartNoAckMode"@) + rest) == Parsed::Done(
            rest,
            CommandView::Query(QueryView::StartNoAckMode),
        ),
{
    word_query_read(4, rest, QueryView::StartNoAckMode);
}

/// `QDisableRandomization:0` asks for address randomization, whatever follows it.
pub proof fn randomization_on_read(rest: Seq<u8>)
    ensures
        grammar::command(encode_utf8("QDisableRandomization:0"@) + rest) == Parsed::Done(
            rest,
            CommandView::Query(QueryView::AddressRandomization(true)),
        ),
{
    word_query_read(7, rest, QueryView::AddressRandomization(true));
}

/// `QDisableRandomization:1` asks to do without address randomization, whatever follows it.
pub proof fn randomization_off_read(rest: Seq<u8>)
    ensures
        grammar::command(encode_utf8("QDisableRandomization:1"@) + rest) == Parsed::Done(
            rest,
            CommandView::Query(QueryView::AddressRandomization(false)),
        ),
{
    word_query_read(8, rest, QueryView::AddressRandomization(false));
}

/// `QCatchSyscalls:0` asks to catch no system calls, whatever follows it.
pub proof fn no_syscalls_read(rest: Seq<u8>)
    ensures
        grammar::command(encode_utf8("QCatchSyscalls:0"@) + rest) == Parsed::Done(
            rest,
            CommandView::Query(QueryView::CatchSyscalls(None)),
        ),
{
    word_query_read(9, rest, QueryView::CatchSyscalls(None));
}

/// `qAttached` with no process behind it asks how the process came to be debugged.
pub proof fn attached_read(rest: Seq<u8>)
    requires
        rest.len() > 0 && rest[0] == 0x3a ==> ends_number(rest.skip(1)),
    ensures
        grammar::command(encode_utf8("qAttached"@) + rest) == Parsed::Done(
            rest,
            CommandView::Query(QueryView::Attached(None)),
        ),
{
    let l = "qAttached"@;
    let s = encode_utf8(l) + rest;
    reveal_strlit("qAttached");
    reveal_strlit("qC");
    reveal_strlit("qSupported");
    reveal_strlit("qRcmd,");
    reveal_strlit("qSearch:memory:");
    reveal_strlit("QStartNoAckMode");
    passed_over(l, rest, "qC"@, 1);
    passed_over(l, rest, "qSupported"@, 1);
    passed_over(l, rest, "qRcmd,"@, 1);
    passed_over(l, rest, "qSearch:memory:"@, 1);
    passed_over(l, rest, "QStartNoAckMode"@, 0);
    words_lead(s);
    tag_accepts(l, rest);
    no_process_behind(rest);
    reveal(grammar::query);
    query_read(6, rest, rest, QueryView::Attached(None));
}

/// No process is found behind `qAttached` where there is none.
proof fn no_process_behind(rest: Seq<u8>)
    requires
        rest.len() > 0 && rest[0] == 0x3a ==> ends_number(rest.skip(1)),
    ensures
        grammar::attached_process(encode_utf8("qAttached"@) + rest).completed() is Error,
{
    reveal(grammar::attached_process);
    reveal_strlit("qAttached");
    reveal_strlit("qAttached:");
    let (l, a) = ("qAttached"@, "qAttached:"@);
    let s = encode_utf8(l) + rest;
    let e = encode_utf8(a);
    is_ascii_chars_encode_utf8(l);
    is_ascii_chars_encode_utf8(a);
    assert forall|k: int| 0 <= k < 9 implies s[k] == e[k] by {
        assert(encode_utf8(l)[k] == l[k] as u8);
        assert(e[k] == a[k] as u8);
        assert(l[k] == a[k]);
    }
    assert(e[9] == a[9] as u8);
    if rest.len() == 0 {
        assert(tag(s, a) is Incomplete) by {
            reveal(tag);
            assert(s =~= e.subrange(0, 9));
        }
    } else if rest[0] == 0x3a {
        let t = rest.skip(1);
        assert(s[9] == rest[0]);
        assert(s =~= e + t);
        tag_accepts(a, t);
        reveal(grammar::hex_value);
        run_ends(t, grammar::hex_digits(), 0);
    } else {
        assert(s[9] == rest[0]);
        tag_refuses_at(s, a, 9);
    }
}

/// `qAttached:` and a number ask how that process came to be debugged.
pub proof fn attached_process_read(d: Seq<u8>, pid: u64, rest: Seq<u8>)
    requires
        spells(d, pid as nat),
        ends_number(rest),
    ensures
        grammar::command(encode_utf8("qAttached:"@) + (d + rest)) == Parsed::Done(
            rest,
            CommandView::Query(QueryView::Attached(Some(pid))),
        ),
{
    query_chosen(5, d + rest);
    reveal(grammar::attached_process);
    number_read(d, pid, rest);
    reveal(grammar::query);
    query_read(5, d + rest, rest, QueryView::Attached(Some(pid)));
}

/// `qRcmd,` and bytes ask to invoke a command.
pub proof fn invoke_read(h: Seq<u8>, bytes: Seq<u8>, rest: Seq<u8>)
    requires
        bytes.len() > 0,
        spells_bytes(h, bytes),
        ends_bytes(rest),
    ensures
        grammar::command(encode_utf8("qRcmd,"@) + (h + rest)) == Parsed::Done(
            rest,
            CommandView::Query(QueryView::Invoke(bytes)),
        ),
{
    query_chosen(2, h + rest);
    reveal(grammar::invoked_command);
    bytes_read(h, bytes, rest);
    reveal(grammar::query);
    query_read(2, h + rest, rest, QueryView::Invoke(bytes));
}

/// `qSearch:memory:`, an address, a `;`, a length, a `;` and bytes ask to search
/// memory.
pub proof fn search_read(
    da: Seq<u8>,
    address: u64,
    dn: Seq<u8>,
    length: u64,
    h: Seq<u8>,
    bytes: Seq<u8>,
    rest: Seq<u8>,
)
    requires
        spells(da, address as nat),
        spells(dn, length as nat),
        bytes.len() > 0,
        spells_bytes(h, bytes),
        ends_bytes(rest),
    ensures
        grammar::command(
            encode_utf8("qSearch:memory:"@) + (da + (encode_utf8(";"@) + (dn + (encode_utf8(";"@)
                + (h + rest))))),
        ) == Parsed::Done(
            rest,
            CommandView::Query(QueryView::SearchMemory { address, length, bytes }),
        ),
{
    punctuation();
    let s5 = h + rest;
    let s4 = encode_utf8(";"@) + s5;
    let s3 = dn + s4;
    let s2 = encode_utf8(";"@) + s3;
    query_chosen(3, da + s2);
    reveal(grammar::q_search_memory);
    assert(s2[0] == 0x3b);
    number_read(da, address, s2);
    tag_accepts(";"@, s3);
    assert(s4[0] == 0x3b);
    number_read(dn, length, s4);
    tag_accepts(";"@, s5);
    bytes_read(h, bytes, rest);
    reveal(grammar::query);
    query_read(3, da + s2, rest, QueryView::SearchMemory { address, length, bytes });
}

/// `qThreadExtraInfo,` and a thread ask what there is to say of that thread.
pub proof fn thread_info_read(text: Seq<u8>, id: ThreadId, rest: Seq<u8>)
    requires
        writes_thread(text, id, rest),
    ensures
        grammar::command(encode_utf8("qThreadExtraInfo,"@) + (text + rest)) == Parsed::Done(
            rest,
            CommandView::Query(QueryView::ThreadInfo(id)),
        ),
{
    query_chosen(13, text + rest);
    reveal(grammar::described_thread);
    thread_form_read(text, id, rest);
    reveal(grammar::query);
    query_read(13, text + rest, rest, QueryView::ThreadInfo(id));
}

/// `digits` are the digits of the numbers of a list, each number by itself.
pub open spec fn spells_each(digits: Seq<Seq<u8>>, list: Seq<u64>) -> bool {
    &&& digits.len() == list.len()
    &&& forall|j: int| 0 <= j < list.len() ==> spells(#[trigger] digits[j], list[j] as nat)
}

/// Some rows of digits, each with a `;` in front of it.
pub open spec fn each_behind(digits: Seq<Seq<u8>>) -> Seq<u8>
    decreases digits.len(),
{
    if digits.len() == 0 {
        seq![]
    } else {
        encode_utf8(";"@) + (digits[0] + each_behind(digits.skip(1)))
    }
}

/// `rest` does not go on with a digit, nor with a `;`.
pub open spec fn ends_row(rest: Seq<u8>) -> bool {
    rest.len() > 0 ==> !is_hex(rest[0]) && rest[0] != 0x3b
}

/// The digits of all numbers but the first are those of all but the first.
proof fn spells_others(digits: Seq<Seq<u8>>, list: Seq<u64>)
    requires
        list.len() > 0,
        spells_each(digits, list),
    ensures
        spells(digits[0], list[0] as nat),
        spells_each(digits.skip(1), list.skip(1)),
{
    let (a, b) = (digits.skip(1), list.skip(1));
    assert(spells(digits[0], list[0] as nat));
    assert forall|j: int| 0 <= j < b.len() implies spells(#[trigger] a[j], b[j] as nat) by {
        assert(a[j] == digits[j + 1]);
        assert(b[j] == list[j + 1]);
    }
}

/// What stands behind a number of a row does not go on with a digit.
proof fn row_goes_on(digits: Seq<Seq<u8>>, rest: Seq<u8>)
    requires
        ends_row(rest),
    ensures
        ends_number(each_behind(digits) + rest),
{
    punctuation();
    let s = each_behind(digits) + rest;
    if digits.len() > 0 {
        assert(s[0] == 0x3b);
    } else {
        assert(s =~= rest);
    }
}

/// Numbers with a `;` in front of each are read.
proof fn row_read(digits: Seq<Seq<u8>>, list: Seq<u64>, rest: Seq<u8>)
    requires
        spells_each(digits, list),
        ends_row(rest),
    ensures
        many0(each_behind(digits) + rest, grammar::further_numbers()) == Parsed::Done(rest, list),
    decreases list.len(),
{
    punctuation();
    reveal(grammar::further_number);
    let s = each_behind(digits) + rest;
    if list.len() == 0 {
        assert(list =~= seq![]);
        assert(s =~= rest);
        if rest.len() > 0 {
            reveal_strlit(";");
            tag_refuses(rest, ";"@);
            assert(grammar::further_numbers()(s) is Error);
        }
    } else {
        spells_others(digits, list);
        let left = each_behind(digits.skip(1)) + rest;
        assert(s =~= encode_utf8(";"@) + (digits[0] + left));
        row_read(digits.skip(1), list.skip(1), rest);
        tag_accepts(";"@, digits[0] + left);
        row_goes_on(digits.skip(1), rest);
        number_read(digits[0], list[0], left);
        assert(grammar::further_numbers()(s) == Parsed::Done(left, list[0]));
        assert(seq![list[0]] + list.skip(1) =~= list);
    }
}

/// Numbers that follow the first one of a list are read.
proof fn further_read(digits: Seq<Seq<u8>>, list: Seq<u64>, rest: Seq<u8>)
    requires
        spells_each(digits, list),
        ends_row(rest),
    ensures
        separated(each_behind(digits) + rest, ";"@, grammar::numbers()) == Parsed::Done(
            rest,
            list,
        ),
    decreases list.len(),
{
    punctuation();
    let s = each_behind(digits) + rest;
    if list.len() == 0 {
        assert(list =~= seq![]);
        assert(s =~= rest);
        if rest.len() > 0 {
            reveal_strlit(";");
            tag_refuses(rest, ";"@);
        } else {
            assert(rest =~= Seq::<u8>::empty());
            tag_at_end(";"@);
        }
    } else {
        spells_others(digits, list);
        let left = each_behind(digits.skip(1)) + rest;
        let mid = digits[0] + left;
        assert(s =~= encode_utf8(";"@) + mid);
        further_read(digits.skip(1), list.skip(1), rest);
        tag_accepts(";"@, mid);
        row_goes_on(digits.skip(1), rest);
        number_read(digits[0], list[0], left);
        assert(grammar::numbers()(mid) == Parsed::Done(left, list[0]));
        assert(seq![list[0]] + list.skip(1) =~= list);
    }
}

/// A list of numbers with a `;` between them is read.
proof fn number_list_read(digits: Seq<Seq<u8>>, list: Seq<u64>, rest: Seq<u8>)
    requires
        list.len() > 0,
        spells_each(digits, list),
        ends_row(rest),
    ensures
        separated_nonempty_list(
            digits[0] + (each_behind(digits.skip(1)) + rest),
            ";"@,
            grammar::numbers(),
        ) == Parsed::Done(rest, list),
{
    spells_others(digits, list);
    let left = each_behind(digits.skip(1)) + rest;
    row_goes_on(digits.skip(1), rest);
    number_read(digits[0], list[0], left);
    further_read(digits.skip(1), list.skip(1), rest);
    assert(grammar::numbers()(digits[0] + left) == Parsed::Done(left, list[0]));
    assert(seq![list[0]] + list.skip(1) =~= list);
}

/// `QCatchSyscalls:1` and numbers with a `;` in front of each ask to catch those
/// system calls.
pub proof fn syscalls_read(digits: Seq<Seq<u8>>, list: Seq<u64>, rest: Seq<u8>)
    requires
        spells_each(digits, list),
        ends_row(rest),
    ensures
        grammar::command(encode_utf8("QCatchSyscalls:1"@) + (each_behind(digits) + rest))
            == Parsed::Done(rest, CommandView::Query(QueryView::CatchSyscalls(Some(list)))),
{
    let s1 = each_behind(digits) + rest;
    query_chosen(10, s1);
    reveal(grammar::caught_syscalls);
    row_read(digits, list, rest);
    reveal(grammar::query);
    query_read(10, s1, rest, QueryView::CatchSyscalls(Some(list)));
}

/// `QPassSignals:` and numbers with a `;` between them name the signals to pass on.
pub proof fn pass_signals_read(digits: Seq<Seq<u8>>, list: Seq<u64>, rest: Seq<u8>)
    requires
        list.len() > 0,
        spells_each(digits, list),
        ends_row(rest),
    ensures
        grammar::command(
            encode_utf8("QPassSignals:"@) + (digits[0] + (each_behind(digits.skip(1)) + rest)),
        ) == Parsed::Done(rest, CommandView::Query(QueryView::PassSignals(list))),
{
    let s1 = digits[0] + (each_behind(digits.skip(1)) + rest);
    query_chosen(11, s1);
    reveal(grammar::pass_signals);
    number_list_read(digits, list, rest);
    reveal(grammar::query);
    query_read(11, s1, rest, QueryView::PassSignals(list));
}

/// `QProgramSignals:` and numbers with a `;` between them name the signals that
/// the program may get.
pub proof fn program_signals_read(digits: Seq<Seq<u8>>, list: Seq<u64>, rest: Seq<u8>)
    requires
        list.len() > 0,
        spells_each(digits, list),
        ends_row(rest),
    ensures
        grammar::command(
            encode_utf8("QProgramSignals:"@) + (digits[0] + (each_behind(digits.skip(1)) + rest)),
        ) == Parsed::Done(rest, CommandView::Query(QueryView::ProgramSignals(list))),
{
    let s1 = digits[0] + (each_behind(digits.skip(1)) + rest);
    query_chosen(12, s1);
    reveal(grammar::program_signals);
    number_list_read(digits, list, rest);
    reveal(grammar::query);
    query_read(12, s1, rest, QueryView::ProgramSignals(list));
}

/// Looking for further features always comes to an end.
proof fn further_features_done(s: Seq<u8>)
    ensures
        separated(s, ";"@, grammar::features()) is Done,
    decreases s.len(),
{
    let p = grammar::features();
    if let Parsed::Done(mid, _) = tag(s, ";"@).completed() {
        gdbfeaturesupported_defined(mid);
        if let Parsed::Done(rest, _) = p(mid).completed() {
            if mid.len() < s.len() && rest.len() < mid.len() {
                further_features_done(rest);
            }
        }
    }
}

/// `qSupported:` lists features, whatever follows it.
pub proof fn features_listed(t: Seq<u8>)
    ensures
        grammar::command(encode_utf8("qSupported"@) + (encode_utf8(":"@) + t)) matches Parsed::Done(
            _,
            CommandView::Query(QueryView::SupportedFeatures(_)),
        ),
{
    let p = grammar::features();
    let s1 = encode_utf8(":"@) + t;
    query_chosen(1, s1);
    reveal(grammar::supported_features);
    tag_accepts(":"@, t);
    gdbfeaturesupported_defined(t);
    if let Parsed::Done(rest, _) = p(t).completed() {
        further_features_done(rest);
        assert(rest.len() < t.len()) by {
            reveal(grammar::gdbfeaturesupported);
            reveal(grammar::feature_clause);
            reveal(is_not);
            run_holds(t, free_of(";"@));
        }
    }
    let r = separated_list(t, ";"@, p);
    assert(r is Done);
    reveal(grammar::query);
    let s = encode_utf8("qSupported"@) + s1;
    query_read(1, s1, r->Done_0, QueryView::SupportedFeatures(r->Done_1));
}

} // verus!
