//! Which command a packet is: what a client writes for a command, and that the
//! command is read back from it.
use vstd::prelude::*;
use vstd::utf8::{encode_utf8, is_ascii_chars, is_ascii_chars_encode_utf8};
use crate::combine::{
    many0, many1, more, one_byte, run_ends, separated, separated_nonempty_list, tag, tag_accepts,
    tag_refuses, take,
};
use crate::grammar;
use crate::hex::{lower_hex, lower_hex_bytes, lower_hex_number};
use crate::laws::{
    binary_read_back, bytes_read_back, ends_number, escaped, number_read_back, read_thread_valid,
    thread_id_read_back, valid_thread,
};
use crate::model::{
    BreakpointView, CommandView, MemoryRegion, QueryView, ThreadId, Watchpoint, ZAction, ZType,
};
use crate::outcome::{ErrorKind, Needed, Parsed};
use crate::queries::{passed_over, query_read_back, query_text, valid_query, words_lead};
use crate::response::thread_id_text;

verus! {

/// What the data of a packet is, by its first byte.
pub open spec fn command_of_letter(s: Seq<u8>) -> Parsed<CommandView> {
    let b = s[0];
    if b == 0x21 {
        tag(s, "!"@).mapped(|_u: ()| CommandView::EnableExtendedMode)
    } else if b == 0x3f {
        tag(s, "?"@).mapped(|_u: ()| CommandView::TargetHaltReason)
    } else if b == 0x44 {
        grammar::parse_d_packet(s).mapped(|pid: Option<u64>| CommandView::Detach(pid))
    } else if b == 0x67 {
        tag(s, "g"@).mapped(|_u: ()| CommandView::ReadGeneralRegisters)
    } else if b == 0x73 {
        tag(s, "s"@).mapped(|_u: ()| CommandView::Step)
    } else if b == 0x63 {
        tag(s, "c"@).mapped(|_u: ()| CommandView::Continue)
    } else if b == 0x47 {
        grammar::write_general_registers(s).mapped(
            |bytes: Seq<u8>| CommandView::WriteGeneralRegisters(bytes),
        )
    } else if b == 0x48 {
        grammar::parse_h_packet(s).mapped(|id: ThreadId| CommandView::SetCurrentThread(id))
    } else if b == 0x6b {
        tag(s, "k"@).mapped(|_u: ()| CommandView::Kill(None))
    } else if b == 0x6d {
        grammar::read_memory(s).mapped(
            |m: (u64, u64)| CommandView::ReadMemory(MemoryRegion { address: m.0, length: m.1 }),
        )
    } else if b == 0x4d {
        grammar::write_memory(s).mapped(
            |m: (u64, u64, Seq<u8>)|
                CommandView::WriteMemory(MemoryRegion { address: m.0, length: m.1 }, m.2),
        )
    } else if b == 0x70 {
        grammar::read_register(s).mapped(|regno: u64| CommandView::ReadRegister(regno))
    } else if b == 0x50 {
        grammar::write_register(s).mapped(
            |w: (u64, Seq<u8>)| CommandView::WriteRegister(w.0, w.1),
        )
    } else if b == 0x71 || b == 0x51 {
        grammar::query(s).mapped(|q: QueryView| CommandView::Query(q))
    } else if b == 0x72 {
        tag(s, "r"@).mapped(|_u: ()| CommandView::Reset)
    } else if b == 0x52 {
        grammar::reset_code(s).mapped(|_b: Seq<u8>| CommandView::Reset)
    } else if b == 0x54 {
        grammar::parse_ping_thread(s).mapped(|id: ThreadId| CommandView::PingThread(id))
    } else if b == 0x76 {
        grammar::v_command(s)
    } else if b == 0x58 {
        grammar::write_memory_binary(s).mapped(
            |m: (u64, u64, Seq<u8>)|
                CommandView::WriteMemory(MemoryRegion { address: m.0, length: m.1 }, m.2),
        )
    } else if b == 0x7a || b == 0x5a {
        grammar::parse_z_packet(s)
    } else {
        Parsed::Error(ErrorKind::Alt)
    }
}

proof fn d_refused(s: Seq<u8>)
    requires
        s.len() > 0,
        s[0] != 0x44,
    ensures
        grammar::parse_d_packet(s) is Error,
{
    reveal(grammar::parse_d_packet);
    reveal(grammar::detached_process);
    reveal_strlit("D;");
    tag_refuses(s, "D;"@);
    reveal_strlit("D");
    tag_refuses(s, "D"@);
}

proof fn general_registers_refused(s: Seq<u8>)
    requires
        s.len() > 0,
        s[0] != 0x47,
    ensures
        grammar::write_general_registers(s) is Error,
{
    reveal(grammar::write_general_registers);
    reveal_strlit("G");
    tag_refuses(s, "G"@);
}

proof fn h_refused(s: Seq<u8>)
    requires
        s.len() > 0,
        s[0] != 0x48,
    ensures
        grammar::parse_h_packet(s) is Error,
{
    reveal(grammar::parse_h_packet);
    reveal_strlit("Hg");
    tag_refuses(s, "Hg"@);
}

proof fn read_memory_refused(s: Seq<u8>)
    requires
        s.len() > 0,
        s[0] != 0x6d,
    ensures
        grammar::read_memory(s) is Error,
{
    reveal(grammar::read_memory);
    reveal_strlit("m");
    tag_refuses(s, "m"@);
}

proof fn write_memory_refused(s: Seq<u8>)
    requires
        s.len() > 0,
        s[0] != 0x4d,
    ensures
        grammar::write_memory(s) is Error,
{
    reveal(grammar::write_memory);
    reveal(grammar::memory_write);
    reveal_strlit("M");
    tag_refuses(s, "M"@);
}

proof fn read_register_refused(s: Seq<u8>)
    requires
        s.len() > 0,
        s[0] != 0x70,
    ensures
        grammar::read_register(s) is Error,
{
    reveal(grammar::read_register);
    reveal_strlit("p");
    tag_refuses(s, "p"@);
}

proof fn write_register_refused(s: Seq<u8>)
    requires
        s.len() > 0,
        s[0] != 0x50,
    ensures
        grammar::write_register(s) is Error,
{
    reveal(grammar::write_register);
    reveal_strlit("P");
    tag_refuses(s, "P"@);
}

pub(crate) proof fn query_refused(s: Seq<u8>)
    requires
        s.len() > 0,
        s[0] != 0x71 && s[0] != 0x51,
    ensures
        grammar::query(s) is Error,
{
    reveal(grammar::query);
    words_lead(s);
    reveal_strlit("qC");
    tag_refuses(s, "qC"@);
    reveal_strlit("qSupported");
    tag_refuses(s, "qSupported"@);
    reveal_strlit("qRcmd,");
    tag_refuses(s, "qRcmd,"@);
    reveal_strlit("qSearch:memory:");
    tag_refuses(s, "qSearch:memory:"@);
    reveal_strlit("QStartNoAckMode");
    tag_refuses(s, "QStartNoAckMode"@);
    reveal_strlit("qAttached:");
    tag_refuses(s, "qAttached:"@);
    reveal_strlit("qAttached");
    tag_refuses(s, "qAttached"@);
    reveal_strlit("QDisableRandomization:0");
    tag_refuses(s, "QDisableRandomization:0"@);
    reveal_strlit("QDisableRandomization:1");
    tag_refuses(s, "QDisableRandomization:1"@);
    reveal_strlit("QCatchSyscalls:0");
    tag_refuses(s, "QCatchSyscalls:0"@);
    reveal_strlit("QCatchSyscalls:1");
    tag_refuses(s, "QCatchSyscalls:1"@);
    reveal_strlit("QPassSignals:");
    tag_refuses(s, "QPassSignals:"@);
    reveal_strlit("QProgramSignals:");
    tag_refuses(s, "QProgramSignals:"@);
    reveal_strlit("qThreadExtraInfo,");
    tag_refuses(s, "qThreadExtraInfo,"@);
}

proof fn ping_refused(s: Seq<u8>)
    requires
        s.len() > 0,
        s[0] != 0x54,
    ensures
        grammar::parse_ping_thread(s) is Error,
{
    reveal(grammar::parse_ping_thread);
    reveal_strlit("T");
    tag_refuses(s, "T"@);
}

proof fn v_refused(s: Seq<u8>)
    requires
        s.len() > 0,
        s[0] != 0x76,
    ensures
        grammar::v_command(s) is Error,
{
    reveal(grammar::v_command);
    reveal(grammar::killed_process);
    reveal(grammar::v_rest);
    reveal_strlit("vCtrlC");
    tag_refuses(s, "vCtrlC"@);
    reveal_strlit("vKill;");
    tag_refuses(s, "vKill;"@);
    reveal_strlit("v");
    tag_refuses(s, "v"@);
}

proof fn binary_refused(s: Seq<u8>)
    requires
        s.len() > 0,
        s[0] != 0x58,
    ensures
        grammar::write_memory_binary(s) is Error,
{
    reveal(grammar::write_memory_binary);
    reveal(grammar::memory_write);
    reveal_strlit("X");
    tag_refuses(s, "X"@);
}

proof fn z_refused(s: Seq<u8>)
    requires
        s.len() > 0,
        s[0] != 0x7a && s[0] != 0x5a,
    ensures
        grammar::parse_z_packet(s) is Error,
{
    reveal(grammar::parse_z_packet);
    reveal(grammar::z_head);
    reveal(grammar::parse_z_action);
    reveal_strlit("z");
    tag_refuses(s, "z"@);
    reveal_strlit("Z");
    tag_refuses(s, "Z"@);
}

/// The first byte of a packet decides which command it can be.  A packet
/// without data is not refused: it is not complete.
pub proof fn first_byte_decides(s: Seq<u8>)
    ensures
        s.len() > 0 ==> grammar::command(s) == command_of_letter(s).or_none(),
        s.len() == 0 ==> grammar::command(s) == Parsed::<CommandView>::Incomplete(Needed::Size(1)),
{
    reveal(grammar::command);
    if s.len() == 0 {
        reveal(tag);
        reveal_strlit("!");
        one_byte("!"@);
        assert(s.is_prefix_of(encode_utf8("!"@)));
        assert(!encode_utf8("!"@).is_prefix_of(s));
    } else {
        if s[0] != 0x21 {
            reveal_strlit("!");
            tag_refuses(s, "!"@);
        }
        if s[0] != 0x3f {
            reveal_strlit("?");
            tag_refuses(s, "?"@);
        }
        if s[0] != 0x67 {
            reveal_strlit("g");
            tag_refuses(s, "g"@);
        }
        if s[0] != 0x73 {
            reveal_strlit("s");
            tag_refuses(s, "s"@);
        }
        if s[0] != 0x63 {
            reveal_strlit("c");
            tag_refuses(s, "c"@);
        }
        if s[0] != 0x6b {
            reveal_strlit("k");
            tag_refuses(s, "k"@);
        }
        if s[0] != 0x72 {
            reveal_strlit("r");
            tag_refuses(s, "r"@);
        }
        if s[0] != 0x52 {
            reveal(grammar::reset_code);
            reveal_strlit("R");
            tag_refuses(s, "R"@);
        }
        if s[0] != 0x44 {
            d_refused(s);
        }
        if s[0] != 0x47 {
            general_registers_refused(s);
        }
        if s[0] != 0x48 {
            h_refused(s);
        }
        if s[0] != 0x6d {
            read_memory_refused(s);
        }
        if s[0] != 0x4d {
            write_memory_refused(s);
        }
        if s[0] != 0x70 {
            read_register_refused(s);
        }
        if s[0] != 0x50 {
            write_register_refused(s);
        }
        if s[0] != 0x71 && s[0] != 0x51 {
            query_refused(s);
        }
        if s[0] != 0x54 {
            ping_refused(s);
        }
        if s[0] != 0x76 {
            v_refused(s);
        }
        if s[0] != 0x58 {
            binary_refused(s);
        }
        if s[0] != 0x7a && s[0] != 0x5a {
            z_refused(s);
        }
    }
}

/// The threads that a command speaks of.
pub open spec fn threads_of(command: CommandView) -> Seq<ThreadId> {
    match command {
        CommandView::PingThread(id) => seq![id],
        CommandView::SetCurrentThread(id) => seq![id],
        CommandView::Query(QueryView::ThreadInfo(id)) => seq![id],
        _ => seq![],
    }
}

/// Whatever is read as a query speaks only of threads that may occur.
proof fn query_threads_valid(s: Seq<u8>)
    ensures
        grammar::query(s) matches Parsed::Done(_, QueryView::ThreadInfo(id)) ==> valid_thread(id),
{
    assert(grammar::described_thread(s) matches Parsed::Done(_, id) ==> valid_thread(id)) by {
        reveal(grammar::described_thread);
        if let Parsed::Done(rest, _) = tag(s, "qThreadExtraInfo,"@) {
            read_thread_valid(rest);
        }
    }
    reveal(grammar::query);
}

/// Whatever is read as a command speaks only of threads that may occur: each
/// id is all, any, or a number that is neither 0 nor -1.
pub proof fn read_threads_valid(s: Seq<u8>)
    ensures
        grammar::command(s) matches Parsed::Done(_, command) ==> forall|j: int|
            0 <= j < threads_of(command).len() ==> valid_thread(#[trigger] threads_of(command)[j]),
{
    first_byte_decides(s);
    if s.len() > 0 {
        if s[0] == 0x54 {
            reveal(grammar::parse_ping_thread);
            if let Parsed::Done(rest, _) = tag(s, "T"@) {
                read_thread_valid(rest);
            }
        } else if s[0] == 0x48 {
            reveal(grammar::parse_h_packet);
            if let Parsed::Done(rest, _) = tag(s, "Hg"@) {
                read_thread_valid(rest);
            }
        } else if s[0] == 0x71 || s[0] == 0x51 {
            query_threads_valid(s);
        } else if s[0] == 0x76 {
            reveal(grammar::v_command);
        } else if s[0] == 0x7a || s[0] == 0x5a {
            reveal(grammar::parse_z_packet);
            reveal(grammar::insert_command);
        }
    }
}

/// The numbers of a row, each with a `;` in front of it.
pub open spec fn further_text(list: Seq<u64>) -> Seq<u8>
    decreases list.len(),
{
    if list.len() == 0 {
        seq![]
    } else {
        encode_utf8(";"@) + (lower_hex(list[0] as nat) + further_text(list.skip(1)))
    }
}

/// The numbers of a list, with a `;` between them.
pub open spec fn numbers_text(list: Seq<u64>) -> Seq<u8> {
    lower_hex(list[0] as nat) + further_text(list.skip(1))
}

/// A bytecode expression: its length and its bytes.
pub open spec fn expression_text(e: Seq<u8>) -> Seq<u8> {
    encode_utf8("X"@) + (lower_hex(e.len()) + (encode_utf8(","@) + e))
}

/// Bytecode expressions, one behind the other.
pub open spec fn expressions_text(list: Seq<Seq<u8>>) -> Seq<u8>
    decreases list.len(),
{
    if list.len() == 0 {
        seq![]
    } else {
        expression_text(list[0]) + expressions_text(list.skip(1))
    }
}

/// The conditions of a breakpoint.
pub open spec fn conditions_text(conditions: Option<Seq<Seq<u8>>>) -> Seq<u8> {
    match conditions {
        None => seq![],
        Some(list) => encode_utf8(";"@) + expressions_text(list),
    }
}

/// The commands of a breakpoint.
pub open spec fn commands_text(commands: Option<Seq<Seq<u8>>>) -> Seq<u8> {
    match commands {
        None => seq![],
        Some(list) => encode_utf8(";cmds"@) + expressions_text(list),
    }
}

/// A list of expressions as it may occur: not empty, and of lengths that a
/// machine can count.
pub open spec fn valid_expressions(list: Option<Seq<Seq<u8>>>) -> bool {
    list matches Some(l) ==> l.len() > 0 && forall|j: int|
        0 <= j < l.len() ==> (#[trigger] l[j]).len() <= usize::MAX
}

/// The letter of a packet that inserts or removes something.
pub open spec fn action_text(action: ZAction) -> Seq<char> {
    match action {
        ZAction::Insert => "Z"@,
        ZAction::Remove => "z"@,
    }
}

/// The digit for what is inserted or removed.
pub open spec fn type_text(type_: ZType) -> Seq<char> {
    match type_ {
        ZType::SoftwareBreakpoint => "0"@,
        ZType::HardwareBreakpoint => "1"@,
        ZType::WriteWatchpoint => "2"@,
        ZType::ReadWatchpoint => "3"@,
        ZType::AccessWatchpoint => "4"@,
    }
}

/// The front part of a packet that inserts or removes something, and `rest`.
pub open spec fn z_text(
    action: ZAction,
    type_: ZType,
    addr: u64,
    kind: u64,
    rest: Seq<u8>,
) -> Seq<u8> {
    encode_utf8(action_text(action)) + (encode_utf8(type_text(type_)) + (encode_utf8(","@) + (
    lower_hex(addr as nat) + (encode_utf8(","@) + (lower_hex(kind as nat) + rest)))))
}

/// What the punctuation of requests is made of.
pub(crate) proof fn punctuation()
    ensures
        encode_utf8(";"@) == seq![0x3bu8],
        encode_utf8(","@) == seq![0x2cu8],
        encode_utf8(":"@) == seq![0x3au8],
        encode_utf8("="@) == seq![0x3du8],
        encode_utf8("X"@) == seq![0x58u8],
{
    reveal_strlit(";");
    reveal_strlit(",");
    reveal_strlit(":");
    reveal_strlit("=");
    reveal_strlit("X");
    one_byte(";"@);
    one_byte(","@);
    one_byte(":"@);
    one_byte("="@);
    one_byte("X"@);
}

/// A text is not found at the end of the input.
pub(crate) proof fn tag_at_end(t: Seq<char>)
    requires
        encode_utf8(t).len() > 0,
    ensures
        tag(Seq::<u8>::empty(), t) is Incomplete,
{
    reveal(tag);
    let none = Seq::<u8>::empty();
    assert(none.is_prefix_of(encode_utf8(t)));
    assert(!encode_utf8(t).is_prefix_of(none));
}

/// Numbers with a `;` in front of each are read back, as those that follow the
/// first one of a list.
proof fn further_read_back(list: Seq<u64>)
    ensures
        separated(further_text(list), ";"@, grammar::numbers()) == Parsed::Done(
            Seq::<u8>::empty(),
            list,
        ),
    decreases list.len(),
{
    punctuation();
    if list.len() == 0 {
        tag_at_end(";"@);
        assert(list =~= seq![]);
        assert(further_text(list) =~= Seq::<u8>::empty());
    } else {
        let left = further_text(list.skip(1));
        let mid = lower_hex(list[0] as nat) + left;
        further_read_back(list.skip(1));
        tag_accepts(";"@, mid);
        lower_hex_number(list[0] as nat);
        assert(left.len() > 0 ==> left[0] == 0x3b);
        number_read_back(list[0], left);
        assert(seq![list[0]] + list.skip(1) =~= list);
    }
}

/// Numbers with a `;` in front of each are read back.
pub(crate) proof fn row_read_back(list: Seq<u64>)
    ensures
        many0(further_text(list), grammar::further_numbers()) == Parsed::Done(
            Seq::<u8>::empty(),
            list,
        ),
    decreases list.len(),
{
    punctuation();
    reveal(grammar::further_number);
    if list.len() == 0 {
        assert(list =~= seq![]);
        assert(further_text(list) =~= Seq::<u8>::empty());
    } else {
        let s = further_text(list);
        let left = further_text(list.skip(1));
        let mid = lower_hex(list[0] as nat) + left;
        row_read_back(list.skip(1));
        tag_accepts(";"@, mid);
        lower_hex_number(list[0] as nat);
        assert(left.len() > 0 ==> left[0] == 0x3b);
        number_read_back(list[0], left);
        assert(grammar::further_numbers()(s) == Parsed::Done(left, list[0]));
        assert(seq![list[0]] + list.skip(1) =~= list);
    }
}

/// A list of numbers is read back.
pub(crate) proof fn numbers_read_back(list: Seq<u64>)
    requires
        list.len() > 0,
    ensures
        separated_nonempty_list(numbers_text(list), ";"@, grammar::numbers()) == Parsed::Done(
            Seq::<u8>::empty(),
            list,
        ),
{
    punctuation();
    let left = further_text(list.skip(1));
    lower_hex_number(list[0] as nat);
    assert(left.len() > 0 ==> left[0] == 0x3b);
    number_read_back(list[0], left);
    further_read_back(list.skip(1));
    assert(seq![list[0]] + list.skip(1) =~= list);
}

/// A bytecode expression is read back.
proof fn expression_read_back(e: Seq<u8>, rest: Seq<u8>)
    requires
        e.len() <= usize::MAX,
    ensures
        grammar::parse_cond_or_command_expression(expression_text(e) + rest) == Parsed::Done(
            rest,
            e,
        ),
{
    reveal(grammar::parse_cond_or_command_expression);
    reveal(take);
    punctuation();
    let s3 = e + rest;
    let s2 = encode_utf8(","@) + s3;
    let s1 = lower_hex(e.len()) + s2;
    assert(expression_text(e) + rest =~= encode_utf8("X"@) + s1);
    tag_accepts("X"@, s1);
    assert(s2[0] == 0x2c);
    number_read_back(e.len() as u64, s2);
    tag_accepts(","@, s3);
    assert(s3.skip(e.len() as int) =~= rest);
    assert(s3.take(e.len() as int) =~= e);
}

/// `rest` does not go on with a bytecode expression.
pub open spec fn ends_expressions(rest: Seq<u8>) -> bool {
    rest.len() > 0 ==> rest[0] != 0x58
}

/// Behind a bytecode expression, any number of them is read back.
proof fn more_expressions_read_back(list: Seq<Seq<u8>>, rest: Seq<u8>)
    requires
        forall|j: int| 0 <= j < list.len() ==> (#[trigger] list[j]).len() <= usize::MAX,
        ends_expressions(rest),
    ensures
        more(expressions_text(list) + rest, grammar::expressions()) == Parsed::Done(rest, list),
    decreases list.len(),
{
    let s = expressions_text(list) + rest;
    if list.len() == 0 {
        assert(s =~= rest);
        assert(list =~= seq![]);
        if rest.len() > 0 {
            reveal(grammar::parse_cond_or_command_expression);
            reveal_strlit("X");
            tag_refuses(rest, "X"@);
            assert(grammar::expressions()(s) is Error);
        }
    } else {
        punctuation();
        let left = expressions_text(list.skip(1)) + rest;
        assert(s =~= expression_text(list[0]) + left);
        assert(expression_text(list[0]).len() > 0);
        expression_read_back(list[0], left);
        assert forall|j: int| 0 <= j < list.skip(1).len() implies (#[trigger] list.skip(
            1,
        )[j]).len() <= usize::MAX by {
            assert(list.skip(1)[j] == list[j + 1]);
        }
        more_expressions_read_back(list.skip(1), rest);
        assert(grammar::expressions()(s) == Parsed::Done(left, list[0]));
        assert(seq![list[0]] + list.skip(1) =~= list);
    }
}

/// Bytecode expressions are read back.
proof fn expressions_read_back(list: Seq<Seq<u8>>, rest: Seq<u8>)
    requires
        valid_expressions(Some(list)),
        ends_expressions(rest),
    ensures
        many1(expressions_text(list) + rest, grammar::expressions()) == Parsed::Done(rest, list),
{
    let s = expressions_text(list) + rest;
    let left = expressions_text(list.skip(1)) + rest;
    assert(s =~= expression_text(list[0]) + left);
    expression_read_back(list[0], left);
    assert forall|j: int| 0 <= j < list.skip(1).len() implies (#[trigger] list.skip(1)[j]).len()
        <= usize::MAX by {
        assert(list.skip(1)[j] == list[j + 1]);
    }
    more_expressions_read_back(list.skip(1), rest);
    assert(grammar::expressions()(s) == Parsed::Done(left, list[0]));
    assert(seq![list[0]] + list.skip(1) =~= list);
}

/// What conditions are read from: `;` and expressions, or something else.
proof fn conditions_read_back(conditions: Option<Seq<Seq<u8>>>, commands: Option<Seq<Seq<u8>>>)
    requires
        valid_expressions(conditions),
    ensures
        grammar::maybe_condition_list(conditions_text(conditions) + commands_text(commands))
            == Parsed::Done(commands_text(commands), conditions),
{
    reveal(grammar::maybe_condition_list);
    reveal(grammar::parse_condition_list);
    reveal_strlit(";cmds");
    is_ascii_chars_encode_utf8(";cmds"@);
    punctuation();
    let rest = commands_text(commands);
    let s = conditions_text(conditions) + rest;
    match conditions {
        Some(list) => {
            let s1 = expressions_text(list) + rest;
            assert(s =~= encode_utf8(";"@) + s1);
            tag_accepts(";"@, s1);
            assert(rest.len() > 0 ==> rest[0] == 0x3b);
            expressions_read_back(list, rest);
        },
        None => {
            assert(s =~= rest);
            match commands {
                None => {
                    assert(s =~= Seq::<u8>::empty());
                    tag_at_end(";"@);
                },
                Some(list) => {
                    let s1 = rest.skip(1);
                    assert(rest[0] == 0x3b);
                    assert(rest[1] == 0x63);
                    assert(s =~= encode_utf8(";"@) + s1);
                    tag_accepts(";"@, s1);
                    reveal(grammar::parse_cond_or_command_expression);
                    reveal_strlit("X");
                    assert(s1[0] == 0x63);
                    tag_refuses(s1, "X"@);
                    assert(grammar::expressions()(s1) is Error);
                },
            }
        },
    }
}

/// The commands of a breakpoint are read back.
proof fn commands_read_back(commands: Option<Seq<Seq<u8>>>)
    requires
        valid_expressions(commands),
    ensures
        grammar::maybe_command_list(commands_text(commands)) == Parsed::Done(
            Seq::<u8>::empty(),
            commands,
        ),
{
    reveal(grammar::maybe_command_list);
    reveal(grammar::parse_command_list);
    reveal(grammar::command_expressions);
    reveal(grammar::persistent_expressions);
    reveal_strlit(";cmds");
    is_ascii_chars_encode_utf8(";cmds"@);
    punctuation();
    let none = Seq::<u8>::empty();
    match commands {
        None => {
            assert(commands_text(commands) =~= none);
            tag_at_end(";cmds"@);
        },
        Some(list) => {
            let s1 = expressions_text(list);
            tag_accepts(";cmds"@, s1);
            assert(s1 + none =~= s1);
            expressions_read_back(list, none);
            assert(s1[0] == 0x58);
            reveal(grammar::hex_value);
            run_ends(s1, grammar::hex_digits(), 0);
        },
    }
}

/// Conditions and commands are read back, whether they are there or not.
pub proof fn lists_read_back(conditions: Option<Seq<Seq<u8>>>, commands: Option<Seq<Seq<u8>>>)
    requires
        valid_expressions(conditions),
        valid_expressions(commands),
    ensures
        grammar::parse_cond_and_command_list(conditions_text(conditions) + commands_text(commands))
            == Parsed::Done(Seq::<u8>::empty(), (conditions, commands)),
{
    reveal(grammar::parse_cond_and_command_list);
    conditions_read_back(conditions, commands);
    commands_read_back(commands);
}

/// The front part of a packet that inserts or removes something is read back.
proof fn z_head_read_back(action: ZAction, type_: ZType, addr: u64, kind: u64, rest: Seq<u8>)
    requires
        ends_number(rest),
    ensures
        grammar::z_head(z_text(action, type_, addr, kind, rest)) == Parsed::Done(
            rest,
            (action, type_, addr, kind),
        ),
{
    reveal(grammar::z_head);
    punctuation();
    let s5 = lower_hex(kind as nat) + rest;
    let s4 = encode_utf8(","@) + s5;
    let s3 = lower_hex(addr as nat) + s4;
    let s2 = encode_utf8(","@) + s3;
    let s1 = encode_utf8(type_text(type_)) + s2;
    action_read_back(action, s1);
    type_read_back(type_, s2);
    tag_accepts(","@, s3);
    assert(s4[0] == 0x2c);
    number_read_back(addr, s4);
    tag_accepts(","@, s5);
    number_read_back(kind, rest);
}

pub(crate) proof fn action_read_back(action: ZAction, rest: Seq<u8>)
    ensures
        grammar::parse_z_action(encode_utf8(action_text(action)) + rest) == Parsed::Done(
            rest,
            action,
        ),
        encode_utf8(action_text(action)) == seq![
            if action == ZAction::Insert {
                0x5au8
            } else {
                0x7au8
            },
        ],
{
    reveal(grammar::parse_z_action);
    reveal_strlit("z");
    reveal_strlit("Z");
    one_byte("z"@);
    one_byte("Z"@);
    tag_accepts(action_text(action), rest);
    if action == ZAction::Insert {
        tag_refuses(encode_utf8("Z"@) + rest, "z"@);
    }
}

pub(crate) proof fn type_read_back(type_: ZType, rest: Seq<u8>)
    ensures
        grammar::parse_z_type(encode_utf8(type_text(type_)) + rest) == Parsed::Done(rest, type_),
{
    reveal(grammar::parse_z_type);
    reveal_strlit("0");
    reveal_strlit("1");
    reveal_strlit("2");
    reveal_strlit("3");
    reveal_strlit("4");
    let t = type_text(type_);
    let s = encode_utf8(t) + rest;
    one_byte(t);
    assert(s[0] == t[0] as u8);
    tag_accepts(t, rest);
    if s[0] != 0x30 {
        tag_refuses(s, "0"@);
    }
    if s[0] != 0x31 {
        tag_refuses(s, "1"@);
    }
    if s[0] != 0x32 {
        tag_refuses(s, "2"@);
    }
    if s[0] != 0x33 {
        tag_refuses(s, "3"@);
    }
}

/// The command that a `Z` packet stands for.
pub open spec fn inserts(
    type_: ZType,
    addr: u64,
    kind: u64,
    conditions: Option<Seq<Seq<u8>>>,
    commands: Option<Seq<Seq<u8>>>,
) -> CommandView {
    match type_ {
        ZType::SoftwareBreakpoint => CommandView::InsertSoftwareBreakpoint(
            BreakpointView { addr, kind, conditions, commands },
        ),
        ZType::HardwareBreakpoint => CommandView::InsertHardwareBreakpoint(
            BreakpointView { addr, kind, conditions, commands },
        ),
        ZType::WriteWatchpoint => CommandView::InsertWriteWatchpoint(
            Watchpoint { addr, n_bytes: kind },
        ),
        ZType::ReadWatchpoint => CommandView::InsertReadWatchpoint(
            Watchpoint { addr, n_bytes: kind },
        ),
        ZType::AccessWatchpoint => CommandView::InsertAccessWatchpoint(
            Watchpoint { addr, n_bytes: kind },
        ),
    }
}

/// A request to insert a breakpoint or a watchpoint is read back, conditions
/// and commands of a breakpoint included.
pub proof fn insert_read_back(
    type_: ZType,
    addr: u64,
    kind: u64,
    conditions: Option<Seq<Seq<u8>>>,
    commands: Option<Seq<Seq<u8>>>,
)
    requires
        valid_expressions(conditions),
        valid_expressions(commands),
        type_ is SoftwareBreakpoint || type_ is HardwareBreakpoint || (conditions is None
            && commands is None),
    ensures
        grammar::command(
            z_text(
                ZAction::Insert,
                type_,
                addr,
                kind,
                conditions_text(conditions) + commands_text(commands),
            ),
        ) == Parsed::Done(
            Seq::<u8>::empty(),
            inserts(type_, addr, kind, conditions, commands),
        ),
{
    reveal(grammar::parse_z_packet);
    reveal(grammar::insert_command);
    punctuation();
    let rest = conditions_text(conditions) + commands_text(commands);
    let s = z_text(ZAction::Insert, type_, addr, kind, rest);
    assert(rest.len() > 0 ==> rest[0] == 0x3b) by {
        reveal_strlit(";cmds");
        is_ascii_chars_encode_utf8(";cmds"@);
    }
    action_read_back(ZAction::Insert, s.skip(1));
    assert(s[0] == 0x5a);
    first_byte_decides(s);
    z_head_read_back(ZAction::Insert, type_, addr, kind, rest);
    lists_read_back(conditions, commands);
    if !(type_ is SoftwareBreakpoint || type_ is HardwareBreakpoint) {
        assert(rest =~= Seq::<u8>::empty());
    }
}

/// A request to remove a breakpoint or a watchpoint is read back.  It is the
/// request to insert it with a small letter in place of the capital one.
pub proof fn remove_read_back(type_: ZType, addr: u64, kind: u64)
    ensures
        grammar::command(
            z_text(ZAction::Remove, type_, addr, kind, Seq::<u8>::empty()),
        ) == Parsed::Done(Seq::<u8>::empty(), grammar::remove_command(type_, addr, kind)),
{
    reveal(grammar::parse_z_packet);
    let none = Seq::<u8>::empty();
    let s = z_text(ZAction::Remove, type_, addr, kind, none);
    action_read_back(ZAction::Remove, s.skip(1));
    assert(s[0] == 0x7a);
    first_byte_decides(s);
    z_head_read_back(ZAction::Remove, type_, addr, kind, none);
}

/// A command, as a client writes it.
pub open spec fn request_text(command: CommandView) -> Seq<u8> {
    match command {
        CommandView::Detach(None) => encode_utf8("D"@),
        CommandView::Detach(Some(pid)) => encode_utf8("D;"@) + lower_hex(pid as nat),
        CommandView::EnableExtendedMode => encode_utf8("!"@),
        CommandView::TargetHaltReason => encode_utf8("?"@),
        CommandView::ReadGeneralRegisters => encode_utf8("g"@),
        CommandView::WriteGeneralRegisters(bytes) => encode_utf8("G"@) + lower_hex_bytes(bytes),
        CommandView::ReadRegister(regno) => encode_utf8("p"@) + lower_hex(regno as nat),
        CommandView::WriteRegister(regno, bytes) => encode_utf8("P"@) + (lower_hex(regno as nat) + (
        encode_utf8("="@) + lower_hex_bytes(bytes))),
        CommandView::Kill(None) => encode_utf8("k"@),
        CommandView::Kill(Some(pid)) => encode_utf8("vKill;"@) + lower_hex(pid as nat),
        CommandView::ReadMemory(region) => encode_utf8("m"@) + (lower_hex(region.address as nat) + (
        encode_utf8(","@) + lower_hex(region.length as nat))),
        CommandView::WriteMemory(region, bytes) => memory_text(
            "M"@,
            region,
            lower_hex_bytes(bytes),
        ),
        CommandView::Query(query) => query_text(query),
        CommandView::Reset => encode_utf8("r"@),
        CommandView::PingThread(id) => encode_utf8("T"@) + thread_id_text(id),
        CommandView::CtrlC => encode_utf8("vCtrlC"@),
        CommandView::UnknownVCommand => encode_utf8("v"@),
        CommandView::SetCurrentThread(id) => encode_utf8("Hg"@) + thread_id_text(id),
        CommandView::InsertSoftwareBreakpoint(b) => z_text(
            ZAction::Insert,
            ZType::SoftwareBreakpoint,
            b.addr,
            b.kind,
            conditions_text(b.conditions) + commands_text(b.commands),
        ),
        CommandView::InsertHardwareBreakpoint(b) => z_text(
            ZAction::Insert,
            ZType::HardwareBreakpoint,
            b.addr,
            b.kind,
            conditions_text(b.conditions) + commands_text(b.commands),
        ),
        CommandView::InsertWriteWatchpoint(w) => z_text(
            ZAction::Insert,
            ZType::WriteWatchpoint,
            w.addr,
            w.n_bytes,
            seq![],
        ),
        CommandView::InsertReadWatchpoint(w) => z_text(
            ZAction::Insert,
            ZType::ReadWatchpoint,
            w.addr,
            w.n_bytes,
            seq![],
        ),
        CommandView::InsertAccessWatchpoint(w) => z_text(
            ZAction::Insert,
            ZType::AccessWatchpoint,
            w.addr,
            w.n_bytes,
            seq![],
        ),
        CommandView::RemoveSoftwareBreakpoint(b) => z_text(
            ZAction::Remove,
            ZType::SoftwareBreakpoint,
            b.addr,
            b.kind,
            seq![],
        ),
        CommandView::RemoveHardwareBreakpoint(b) => z_text(
            ZAction::Remove,
            ZType::HardwareBreakpoint,
            b.addr,
            b.kind,
            seq![],
        ),
        CommandView::RemoveWriteWatchpoint(w) => z_text(
            ZAction::Remove,
            ZType::WriteWatchpoint,
            w.addr,
            w.n_bytes,
            seq![],
        ),
        CommandView::RemoveReadWatchpoint(w) => z_text(
            ZAction::Remove,
            ZType::ReadWatchpoint,
            w.addr,
            w.n_bytes,
            seq![],
        ),
        CommandView::RemoveAccessWatchpoint(w) => z_text(
            ZAction::Remove,
            ZType::AccessWatchpoint,
            w.addr,
            w.n_bytes,
            seq![],
        ),
        CommandView::Step => encode_utf8("s"@),
        CommandView::Continue => encode_utf8("c"@),
    }
}

/// What a client sends to write memory: a letter, an address, a length and data.
pub open spec fn memory_text(letter: Seq<char>, region: MemoryRegion, data: Seq<u8>) -> Seq<u8> {
    encode_utf8(letter) + (lower_hex(region.address as nat) + (encode_utf8(","@) + (lower_hex(
        region.length as nat,
    ) + (encode_utf8(":"@) + data))))
}

/// A command that can be read back: bytes are not empty, ids are valid, and so
/// are the lists of a breakpoint.  What is removed has no lists.
pub open spec fn valid_request(command: CommandView) -> bool {
    match command {
        CommandView::WriteGeneralRegisters(bytes) => bytes.len() > 0,
        CommandView::WriteRegister(_, bytes) => bytes.len() > 0,
        CommandView::WriteMemory(_, bytes) => bytes.len() > 0,
        CommandView::Query(query) => valid_query(query),
        CommandView::PingThread(id) => valid_thread(id),
        CommandView::SetCurrentThread(id) => valid_thread(id),
        CommandView::InsertSoftwareBreakpoint(b) => valid_expressions(b.conditions)
            && valid_expressions(b.commands),
        CommandView::InsertHardwareBreakpoint(b) => valid_expressions(b.conditions)
            && valid_expressions(b.commands),
        CommandView::RemoveSoftwareBreakpoint(b) => b.conditions is None && b.commands is None,
        CommandView::RemoveHardwareBreakpoint(b) => b.conditions is None && b.commands is None,
        _ => true,
    }
}

/// What a client writes for a command is read as that command.
spec fn reads_back(command: CommandView) -> bool {
    grammar::command(request_text(command)) == Parsed::Done(Seq::<u8>::empty(), command)
}

/// An input that starts with the ASCII text `word` is found to do so, and its
/// first byte decides which command it can be.
pub(crate) proof fn word_leads(word: Seq<char>, rest: Seq<u8>)
    requires
        is_ascii_chars(word),
        word.len() > 0,
    ensures
        ({
            let s = encode_utf8(word) + rest;
            &&& s.len() > 0
            &&& s[0] == word[0] as u8
            &&& tag(s, word) == Parsed::Done(rest, ())
            &&& grammar::command(s) == command_of_letter(s).or_none()
        }),
{
    is_ascii_chars_encode_utf8(word);
    let s = encode_utf8(word) + rest;
    assert(s[0] == word[0] as u8);
    first_byte_decides(s);
    tag_accepts(word, rest);
}

/// The same where nothing follows the text.
proof fn word_alone(word: Seq<char>)
    requires
        is_ascii_chars(word),
        word.len() > 0,
    ensures
        ({
            let s = encode_utf8(word);
            &&& s.len() > 0
            &&& s[0] == word[0] as u8
            &&& tag(s, word) == Parsed::Done(Seq::<u8>::empty(), ())
            &&& grammar::command(s) == command_of_letter(s).or_none()
        }),
{
    word_leads(word, Seq::<u8>::empty());
    assert(encode_utf8(word) + Seq::<u8>::empty() =~= encode_utf8(word));
}

/// A number at the end of the input is read back.
pub(crate) proof fn last_number(n: u64)
    ensures
        grammar::hex_value(lower_hex(n as nat)) == Parsed::Done(Seq::<u8>::empty(), n),
{
    number_read_back(n, Seq::<u8>::empty());
    assert(lower_hex(n as nat) + Seq::<u8>::empty() =~= lower_hex(n as nat));
}

/// Bytes in hexadecimal at the end of the input are read back.
pub(crate) proof fn last_bytes(bytes: Seq<u8>)
    requires
        bytes.len() > 0,
    ensures
        grammar::hex_byte_sequence(lower_hex_bytes(bytes)) == Parsed::Done(
            Seq::<u8>::empty(),
            bytes,
        ),
{
    bytes_read_back(bytes, Seq::<u8>::empty());
    assert(lower_hex_bytes(bytes) + Seq::<u8>::empty() =~= lower_hex_bytes(bytes));
}

/// A thread at the end of the input is read back.
pub(crate) proof fn last_thread(id: ThreadId)
    requires
        valid_thread(id),
    ensures
        grammar::parse_thread_id(thread_id_text(id)) == Parsed::Done(Seq::<u8>::empty(), id),
{
    thread_id_read_back(id, Seq::<u8>::empty());
    assert(thread_id_text(id) + Seq::<u8>::empty() =~= thread_id_text(id));
}

/// A command of one letter is read back.
proof fn letter_read_back(command: CommandView)
    requires
        command is EnableExtendedMode || command is TargetHaltReason
            || command is ReadGeneralRegisters || command is Step || command is Continue
            || command is Reset || command == CommandView::Kill(None),
    ensures
        reads_back(command),
{
    reveal_strlit("!");
    reveal_strlit("?");
    reveal_strlit("g");
    reveal_strlit("s");
    reveal_strlit("c");
    reveal_strlit("r");
    reveal_strlit("k");
    match command {
        CommandView::EnableExtendedMode => word_alone("!"@),
        CommandView::TargetHaltReason => word_alone("?"@),
        CommandView::ReadGeneralRegisters => word_alone("g"@),
        CommandView::Step => word_alone("s"@),
        CommandView::Continue => word_alone("c"@),
        CommandView::Reset => word_alone("r"@),
        _ => word_alone("k"@),
    }
}

proof fn detach_read_back(pid: u64)
    ensures
        reads_back(CommandView::Detach(Some(pid))),
{
    reveal(grammar::parse_d_packet);
    reveal(grammar::detached_process);
    reveal_strlit("D;");
    word_leads("D;"@, lower_hex(pid as nat));
    last_number(pid);
}

proof fn detach_all_read_back()
    ensures
        reads_back(CommandView::Detach(None)),
{
    reveal(grammar::parse_d_packet);
    reveal(grammar::detached_process);
    reveal_strlit("D");
    reveal_strlit("D;");
    word_alone("D"@);
    is_ascii_chars_encode_utf8("D"@);
    is_ascii_chars_encode_utf8("D;"@);
    let s = encode_utf8("D"@);
    assert(tag(s, "D;"@) is Incomplete) by {
        reveal(tag);
        assert(encode_utf8("D;"@)[0] == "D;"@[0] as u8);
        assert(s =~= encode_utf8("D;"@).subrange(0, 1));
    }
}

proof fn general_registers_read_back(bytes: Seq<u8>)
    requires
        bytes.len() > 0,
    ensures
        reads_back(CommandView::WriteGeneralRegisters(bytes)),
{
    reveal(grammar::write_general_registers);
    reveal_strlit("G");
    word_leads("G"@, lower_hex_bytes(bytes));
    last_bytes(bytes);
}

proof fn register_read_back(regno: u64)
    ensures
        reads_back(CommandView::ReadRegister(regno)),
{
    reveal(grammar::read_register);
    reveal_strlit("p");
    word_leads("p"@, lower_hex(regno as nat));
    last_number(regno);
}

proof fn register_write_read_back(regno: u64, bytes: Seq<u8>)
    requires
        bytes.len() > 0,
    ensures
        reads_back(CommandView::WriteRegister(regno, bytes)),
{
    reveal(grammar::write_register);
    punctuation();
    let s3 = lower_hex_bytes(bytes);
    let s2 = encode_utf8("="@) + s3;
    reveal_strlit("P");
    word_leads("P"@, lower_hex(regno as nat) + s2);
    assert(s2[0] == 0x3d);
    number_read_back(regno, s2);
    tag_accepts("="@, s3);
    last_bytes(bytes);
}

proof fn kill_read_back(pid: u64)
    ensures
        reads_back(CommandView::Kill(Some(pid))),
{
    reveal(grammar::v_command);
    reveal(grammar::killed_process);
    let rest = lower_hex(pid as nat);
    reveal_strlit("vKill;");
    word_leads("vKill;"@, rest);
    reveal_strlit("vCtrlC");
    passed_over("vKill;"@, rest, "vCtrlC"@, 1);
    last_number(pid);
}

proof fn memory_read_back(region: MemoryRegion)
    ensures
        reads_back(CommandView::ReadMemory(region)),
{
    reveal(grammar::read_memory);
    punctuation();
    let s3 = lower_hex(region.length as nat);
    let s2 = encode_utf8(","@) + s3;
    reveal_strlit("m");
    word_leads("m"@, lower_hex(region.address as nat) + s2);
    assert(s2[0] == 0x2c);
    number_read_back(region.address, s2);
    tag_accepts(","@, s3);
    last_number(region.length);
}

proof fn ping_read_back(id: ThreadId)
    requires
        valid_thread(id),
    ensures
        reads_back(CommandView::PingThread(id)),
{
    reveal(grammar::parse_ping_thread);
    reveal_strlit("T");
    word_leads("T"@, thread_id_text(id));
    last_thread(id);
}

proof fn set_thread_read_back(id: ThreadId)
    requires
        valid_thread(id),
    ensures
        reads_back(CommandView::SetCurrentThread(id)),
{
    reveal(grammar::parse_h_packet);
    reveal_strlit("Hg");
    word_leads("Hg"@, thread_id_text(id));
    last_thread(id);
}

proof fn ctrl_c_read_back()
    ensures
        reads_back(CommandView::CtrlC),
{
    reveal(grammar::v_command);
    reveal_strlit("vCtrlC");
    word_alone("vCtrlC"@);
}

/// A `v` alone is a command that is not known.
proof fn unknown_v_read_back()
    ensures
        grammar::command(request_text(CommandView::UnknownVCommand)) == Parsed::Done(
            Seq::<u8>::empty(),
            CommandView::UnknownVCommand,
        ),
{
    let s = encode_utf8("v"@);
    reveal_strlit("v");
    reveal_strlit("vKill;");
    one_byte("v"@);
    is_ascii_chars_encode_utf8("vKill;"@);
    reveal_strlit("vCtrlC");
    is_ascii_chars_encode_utf8("vCtrlC"@);
    unknown_v(s);
}

/// A packet that starts with `v` is never refused.  Unless it starts with
/// `vCtrlC` or `vKill;`, it is a command that is not known, as a whole.
pub proof fn unknown_v(s: Seq<u8>)
    requires
        s.len() > 0,
        s[0] == 0x76,
        !encode_utf8("vCtrlC"@).is_prefix_of(s),
        !encode_utf8("vKill;"@).is_prefix_of(s),
    ensures
        grammar::command(s) == Parsed::Done(Seq::<u8>::empty(), CommandView::UnknownVCommand),
{
    reveal(grammar::v_command);
    reveal(grammar::killed_process);
    reveal(grammar::v_rest);
    first_byte_decides(s);
    assert(tag(s, "vCtrlC"@).completed() is Error) by {
        reveal(tag);
    }
    assert(tag(s, "vKill;"@).completed() is Error) by {
        reveal(tag);
    }
    reveal_strlit("v");
    one_byte("v"@);
    let rest = s.skip(1);
    assert(s =~= encode_utf8("v"@) + rest);
    tag_accepts("v"@, rest);
    reveal(take);
    assert(rest.skip(rest.len() as int) =~= Seq::<u8>::empty());
}

/// What the two packets that write memory have in common is read back.
proof fn memory_write_read_back(
    letter: Seq<char>,
    region: MemoryRegion,
    data: Seq<u8>,
    bytes: Seq<u8>,
    data_of: spec_fn(Seq<u8>) -> Parsed<Seq<u8>>,
)
    requires
        data_of(data) == Parsed::Done(Seq::<u8>::empty(), bytes),
    ensures
        grammar::memory_write(memory_text(letter, region, data), letter, data_of) == Parsed::Done(
            Seq::<u8>::empty(),
            (region.address, region.length, bytes),
        ),
{
    reveal(grammar::memory_write);
    punctuation();
    let s4 = encode_utf8(":"@) + data;
    let s3 = lower_hex(region.length as nat) + s4;
    let s2 = encode_utf8(","@) + s3;
    let s1 = lower_hex(region.address as nat) + s2;
    tag_accepts(letter, s1);
    assert(s2[0] == 0x2c);
    number_read_back(region.address, s2);
    tag_accepts(","@, s3);
    assert(s4[0] == 0x3a);
    number_read_back(region.length, s4);
    tag_accepts(":"@, data);
}

proof fn write_memory_read_back(region: MemoryRegion, bytes: Seq<u8>)
    requires
        bytes.len() > 0,
    ensures
        grammar::command(request_text(CommandView::WriteMemory(region, bytes))) == Parsed::Done(
            Seq::<u8>::empty(),
            CommandView::WriteMemory(region, bytes),
        ),
{
    reveal(grammar::write_memory);
    reveal_strlit("M");
    one_byte("M"@);
    let data = lower_hex_bytes(bytes);
    let s = memory_text("M"@, region, data);
    assert(s[0] == 0x4d);
    first_byte_decides(s);
    last_bytes(bytes);
    memory_write_read_back(
        "M"@,
        region,
        data,
        bytes,
        |t: Seq<u8>| grammar::hex_byte_sequence(t),
    );
}

/// A request to write memory says the same with binary data as with data in
/// hexadecimal.
pub proof fn write_memory_binary_read_back(region: MemoryRegion, bytes: Seq<u8>)
    requires
        bytes.len() > 0,
    ensures
        grammar::command(memory_text("X"@, region, escaped(bytes))) == Parsed::Done(
            Seq::<u8>::empty(),
            CommandView::WriteMemory(region, bytes),
        ),
{
    reveal(grammar::write_memory_binary);
    reveal_strlit("X");
    one_byte("X"@);
    let data = escaped(bytes);
    let s = memory_text("X"@, region, data);
    assert(s[0] == 0x58);
    first_byte_decides(s);
    binary_read_back(bytes);
    memory_write_read_back(
        "X"@,
        region,
        data,
        bytes,
        |t: Seq<u8>| grammar::binary_byte_sequence(t),
    );
}

proof fn query_request_read_back(query: QueryView)
    requires
        valid_query(query),
    ensures
        grammar::command(query_text(query)) == Parsed::Done(
            Seq::<u8>::empty(),
            CommandView::Query(query),
        ),
{
    query_read_back(query);
    let s = query_text(query);
    // Anything that does not start like a query is refused as one.
    if s.len() > 0 && s[0] != 0x71 && s[0] != 0x51 {
        query_refused(s);
    }
    first_byte_decides(s);
}

/// A request is read back as the command that it was written for, with
/// nothing left over.
pub proof fn request_read_back(command: CommandView)
    requires
        valid_request(command),
    ensures
        grammar::command(request_text(command)) == Parsed::Done(Seq::<u8>::empty(), command),
{
    assert(Seq::<u8>::empty() + Seq::<u8>::empty() =~= Seq::<u8>::empty());
    match command {
        CommandView::Detach(None) => detach_all_read_back(),
        CommandView::Detach(Some(pid)) => detach_read_back(pid),
        CommandView::EnableExtendedMode => letter_read_back(command),
        CommandView::TargetHaltReason => letter_read_back(command),
        CommandView::ReadGeneralRegisters => letter_read_back(command),
        CommandView::WriteGeneralRegisters(bytes) => general_registers_read_back(bytes),
        CommandView::ReadRegister(regno) => register_read_back(regno),
        CommandView::WriteRegister(regno, bytes) => register_write_read_back(regno, bytes),
        CommandView::Kill(None) => letter_read_back(command),
        CommandView::Kill(Some(pid)) => kill_read_back(pid),
        CommandView::ReadMemory(region) => memory_read_back(region),
        CommandView::WriteMemory(region, bytes) => write_memory_read_back(region, bytes),
        CommandView::Query(query) => query_request_read_back(query),
        CommandView::Reset => letter_read_back(command),
        CommandView::PingThread(id) => ping_read_back(id),
        CommandView::CtrlC => ctrl_c_read_back(),
        CommandView::UnknownVCommand => unknown_v_read_back(),
        CommandView::SetCurrentThread(id) => set_thread_read_back(id),
        CommandView::InsertSoftwareBreakpoint(b) => insert_read_back(
            ZType::SoftwareBreakpoint,
            b.addr,
            b.kind,
            b.conditions,
            b.commands,
        ),
        CommandView::InsertHardwareBreakpoint(b) => insert_read_back(
            ZType::HardwareBreakpoint,
            b.addr,
            b.kind,
            b.conditions,
            b.commands,
        ),
        CommandView::InsertWriteWatchpoint(w) => insert_read_back(
            ZType::WriteWatchpoint,
            w.addr,
            w.n_bytes,
            None,
            None,
        ),
        CommandView::InsertReadWatchpoint(w) => insert_read_back(
            ZType::ReadWatchpoint,
            w.addr,
            w.n_bytes,
            None,
            None,
        ),
        CommandView::InsertAccessWatchpoint(w) => insert_read_back(
            ZType::AccessWatchpoint,
            w.addr,
            w.n_bytes,
            None,
            None,
        ),
        CommandView::RemoveSoftwareBreakpoint(b) => remove_read_back(
            ZType::SoftwareBreakpoint,
            b.addr,
            b.kind,
        ),
        CommandView::RemoveHardwareBreakpoint(b) => remove_read_back(
            ZType::HardwareBreakpoint,
            b.addr,
            b.kind,
        ),
        CommandView::RemoveWriteWatchpoint(w) => remove_read_back(
            ZType::WriteWatchpoint,
            w.addr,
            w.n_bytes,
        ),
        CommandView::RemoveReadWatchpoint(w) => remove_read_back(
            ZType::ReadWatchpoint,
            w.addr,
            w.n_bytes,
        ),
        CommandView::RemoveAccessWatchpoint(w) => remove_read_back(
            ZType::AccessWatchpoint,
            w.addr,
            w.n_bytes,
        ),
        CommandView::Step => letter_read_back(command),
        CommandView::Continue => letter_read_back(command),
    }
}

} // verus!
