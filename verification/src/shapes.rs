//! What a command can be read from: nothing but what is written for it.
use vstd::prelude::*;
use vstd::utf8::{encode_utf8, is_ascii_chars_encode_utf8};
use crate::combine::{
    many0, many1, more, one_byte, separated, separated_nonempty_list, tag, tag_accepts, tag_found,
    tag_refuses, take,
};
use crate::digits::{spells, spells_bytes, two_digits};
use crate::forms::{
    binary_for, commands_for, commands_listed, conditions_for, each_behind, flag_form, spells_each,
    z_word,
};
use crate::grammar;
use crate::lists::{all_measured, give_lengths, list_shape, number_shape};
use crate::model::{
    BreakpointView, CommandView, Id, MemoryRegion, QueryView, ThreadId, ZAction, ZType,
};
use crate::outcome::Parsed;
use crate::requests::{first_byte_decides, punctuation};
use crate::threads::{low_bits, names};

verus! {

/// What a byte in hexadecimal was read from: two digits.
proof fn byte_shape(s: Seq<u8>, rest: Seq<u8>, b: u8)
    requires
        grammar::hex_byte(s) == Parsed::Done(rest, b),
    ensures
        s.len() == rest.len() + 2,
        rest == s.skip(2),
        spells(s.take(2), b as nat),
{
    reveal(grammar::hex_byte);
    reveal(grammar::hex_digit);
    assert(s.skip(1).skip(1) =~= s.skip(2));
    let d = s.take(2);
    assert(d =~= seq![s[0], s[1]]);
    assert(s.skip(1)[0] == s[1]);
    two_digits(s[0], s[1]);
}

/// One more byte in front of some bytes.
proof fn one_more_byte(d: Seq<u8>, b: u8, digits: Seq<u8>, bytes: Seq<u8>)
    requires
        d.len() == 2,
        spells(d, b as nat),
        spells_bytes(digits, bytes),
    ensures
        spells_bytes(d + digits, seq![b] + bytes),
{
    let (all, list) = (d + digits, seq![b] + bytes);
    assert forall|j: int| 0 <= j < list.len() implies spells(
        all.subrange(2 * j, 2 * j + 2),
        #[trigger] list[j] as nat,
    ) by {
        if j == 0 {
            assert(all.subrange(0, 2) =~= d);
        } else {
            let k = j - 1;
            assert(list[j] == bytes[k]);
            assert(all.subrange(2 * j, 2 * j + 2) =~= digits.subrange(2 * k, 2 * k + 2));
        }
    }
}

/// What the bytes behind a byte in hexadecimal were read from.
proof fn more_bytes_shape(s: Seq<u8>, rest: Seq<u8>, bytes: Seq<u8>) -> (h: Seq<u8>)
    requires
        more(s, grammar::hex_bytes()) == Parsed::Done(rest, bytes),
    ensures
        s == h + rest,
        spells_bytes(h, bytes),
    decreases s.len(),
{
    let p = grammar::hex_bytes();
    let none = Seq::<u8>::empty();
    if s.len() == 0 {
        assert(s =~= none + rest);
        none
    } else {
        match p(s) {
            Parsed::Done(left, b) if left.len() < s.len() => {
                byte_shape(s, left, b);
                let items = more(left, p)->Done_1;
                let h = more_bytes_shape(left, rest, items);
                one_more_byte(s.take(2), b, h, items);
                assert(s =~= s.take(2) + left);
                assert(s =~= (s.take(2) + h) + rest);
                s.take(2) + h
            },
            _ => {
                assert(s =~= none + rest);
                none
            },
        }
    }
}

/// What bytes in hexadecimal were read from: two digits for each of them.
pub proof fn bytes_shape(s: Seq<u8>, rest: Seq<u8>, bytes: Seq<u8>) -> (h: Seq<u8>)
    requires
        grammar::hex_byte_sequence(s) == Parsed::Done(rest, bytes),
    ensures
        s == h + rest,
        spells_bytes(h, bytes),
        bytes.len() > 0,
{
    reveal(grammar::hex_byte_sequence);
    let p = grammar::hex_bytes();
    let (left, b) = (p(s)->Done_0, p(s)->Done_1);
    byte_shape(s, left, b);
    let items = more(left, p)->Done_1;
    let h = more_bytes_shape(left, rest, items);
    one_more_byte(s.take(2), b, h, items);
    assert(s =~= s.take(2) + left);
    assert(s =~= (s.take(2) + h) + rest);
    s.take(2) + h
}

/// What a byte of binary data was read from.
proof fn binary_byte_shape(s: Seq<u8>, rest: Seq<u8>, b: u8)
    requires
        grammar::binary_byte(s) == Parsed::Done(rest, b),
    ensures
        s.len() > 0,
        s[0] != 0x7d && s[0] == b && rest == s.skip(1) || s.len() > 1 && s[0] == 0x7d && s[1] == b
            ^ 0x20 && rest == s.skip(2) || s == seq![0x7du8] && b == 0x7d && rest.len() == 0,
{
    reveal(grammar::binary_byte);
    reveal(take);
    reveal_strlit("}");
    one_byte("}"@);
    if s.len() > 0 {
        if s[0] == 0x7d {
            let s1 = s.skip(1);
            assert(s =~= encode_utf8("}"@) + s1);
            tag_accepts("}"@, s1);
            if s1.len() > 0 {
                let c = s[1];
                assert(s1.take(1)[0] == c);
                assert((c ^ 0x20) ^ 0x20 == c) by (bit_vector);
                assert(s1.skip(1) =~= s.skip(2));
            } else {
                assert(s =~= seq![0x7du8]);
            }
        } else {
            tag_refuses(s, "}"@);
        }
    } else {
        reveal(tag);
    }
}

/// What bytes of binary data were read from.
proof fn more_binary_shape(s: Seq<u8>, rest: Seq<u8>, bytes: Seq<u8>)
    requires
        more(s, grammar::binary_bytes()) == Parsed::Done(rest, bytes),
    ensures
        rest.len() == 0,
        binary_for(s, bytes),
    decreases s.len(),
{
    let p = grammar::binary_bytes();
    if s.len() > 0 {
        first_binary_read(s);
        let (left, b) = (p(s)->Done_0, p(s)->Done_1);
        binary_byte_shape(s, left, b);
        let items = more(left, p)->Done_1;
        more_binary_shape(left, rest, items);
        assert(bytes == seq![b] + items);
        assert(bytes.skip(1) =~= items);
        if s == seq![0x7du8] {
            assert(items =~= seq![]);
            assert(bytes =~= seq![0x7du8]);
        }
    }
}

/// A byte of binary data is read wherever there is one.
proof fn first_binary_read(s: Seq<u8>)
    requires
        s.len() > 0,
    ensures
        grammar::binary_byte(s) matches Parsed::Done(left, _) && left.len() < s.len(),
{
    reveal(grammar::binary_byte);
    reveal(take);
    reveal(tag);
}

/// Binary data is read to the end of the input, whatever it is.
pub proof fn binary_shape(s: Seq<u8>, rest: Seq<u8>, bytes: Seq<u8>)
    requires
        grammar::binary_byte_sequence(s) == Parsed::Done(rest, bytes),
    ensures
        rest.len() == 0,
        binary_for(s, bytes),
        bytes.len() > 0,
{
    reveal(grammar::binary_byte_sequence);
    let p = grammar::binary_bytes();
    let (left, b) = (p(s)->Done_0, p(s)->Done_1);
    binary_byte_shape(s, left, b);
    let items = more(left, p)->Done_1;
    more_binary_shape(left, rest, items);
    assert(bytes == seq![b] + items);
    assert(bytes.skip(1) =~= items);
    if s == seq![0x7du8] {
        assert(items =~= seq![]);
        assert(bytes =~= seq![0x7du8]);
    }
}

/// What an id was read from.
pub proof fn id_shape(s: Seq<u8>, rest: Seq<u8>, id: Id) -> (text: Seq<u8>)
    requires
        grammar::parse_thread_id_element(s) == Parsed::Done(rest, id),
    ensures
        s == text + rest,
        names(text, id),
{
    reveal(grammar::parse_thread_id_element);
    reveal(grammar::id_number);
    tag_found(s, "0"@);
    tag_found(s, "-1"@);
    match id {
        Id::Any => encode_utf8("0"@),
        Id::All => encode_utf8("-1"@),
        Id::Id(num) => {
            let n = grammar::hex_value(s)->Done_1;
            let digits = number_shape(s, rest, n);
            low_bits(n);
            reveal_strlit("0");
            one_byte("0"@);
            if digits[0] == 0x30 {
                assert(s =~= encode_utf8("0"@) + s.skip(1));
                tag_accepts("0"@, s.skip(1));
            }
            digits
        },
    }
}

/// `text` is written for a thread: a process alone, or behind a `p` a process,
/// with a `.` and a thread or without.
pub open spec fn names_thread(text: Seq<u8>, id: ThreadId) -> bool {
    ||| id.tid == Id::Any && names(text, id.pid)
    ||| id.tid == Id::All && exists|p: Seq<u8>| #[trigger]
        names(p, id.pid) && text == encode_utf8("p"@) + p
    ||| exists|p: Seq<u8>, t: Seq<u8>| #[trigger]
        names(p, id.pid) && #[trigger] names(t, id.tid) && text == encode_utf8("p"@) + p
            + encode_utf8("."@) + t
}

/// What a thread was read from.
pub proof fn thread_shape(s: Seq<u8>, rest: Seq<u8>, id: ThreadId) -> (text: Seq<u8>)
    requires
        grammar::parse_thread_id(s) == Parsed::Done(rest, id),
    ensures
        s == text + rest,
        names_thread(text, id),
{
    reveal(grammar::parse_thread_id);
    if grammar::parse_thread_id_element(s) is Done {
        id_shape(s, rest, id.pid)
    } else if grammar::process_and_thread(s) is Done {
        reveal(grammar::process_and_thread);
        tag_found(s, "p"@);
        let s1 = tag(s, "p"@)->Done_0;
        let s2 = grammar::parse_thread_id_element(s1)->Done_0;
        let p = id_shape(s1, s2, id.pid);
        tag_found(s2, "."@);
        let s3 = tag(s2, "."@)->Done_0;
        let t = id_shape(s3, rest, id.tid);
        let text = encode_utf8("p"@) + p + encode_utf8("."@) + t;
        assert(s =~= text + rest);
        text
    } else {
        reveal(grammar::process_alone);
        tag_found(s, "p"@);
        let s1 = tag(s, "p"@)->Done_0;
        let p = id_shape(s1, rest, id.pid);
        assert(s =~= (encode_utf8("p"@) + p) + rest);
        encode_utf8("p"@) + p
    }
}

/// One more number in front of some numbers.
proof fn one_more_number(d: Seq<u8>, n: u64, digits: Seq<Seq<u8>>, list: Seq<u64>)
    requires
        spells(d, n as nat),
        spells_each(digits, list),
    ensures
        spells_each(seq![d] + digits, seq![n] + list),
        each_behind(seq![d] + digits) == encode_utf8(";"@) + (d + each_behind(digits)),
{
    let (a, b) = (seq![d] + digits, seq![n] + list);
    assert(a.skip(1) =~= digits);
    assert forall|j: int| 0 <= j < b.len() implies spells(#[trigger] a[j], b[j] as nat) by {
        if j > 0 {
            assert(a[j] == digits[j - 1]);
            assert(b[j] == list[j - 1]);
        }
    }
}

/// What numbers with a `;` in front of each were read from.
proof fn row_shape(s: Seq<u8>, rest: Seq<u8>, list: Seq<u64>) -> (digits: Seq<Seq<u8>>)
    requires
        many0(s, grammar::further_numbers()) == Parsed::Done(rest, list),
    ensures
        s == each_behind(digits) + rest,
        spells_each(digits, list),
    decreases s.len(),
{
    let p = grammar::further_numbers();
    let none: Seq<Seq<u8>> = seq![];
    assert(each_behind(none) =~= seq![]);
    if s.len() == 0 {
        assert(s =~= each_behind(none) + rest);
        none
    } else {
        match p(s) {
            Parsed::Done(left, n) if left.len() < s.len() => {
                reveal(grammar::further_number);
                tag_found(s, ";"@);
                let s1 = tag(s, ";"@)->Done_0;
                let d = number_shape(s1, left, n);
                let items = many0(left, p)->Done_1;
                let digits = row_shape(left, rest, items);
                one_more_number(d, n, digits, items);
                assert(s =~= each_behind(seq![d] + digits) + rest);
                seq![d] + digits
            },
            _ => {
                assert(s =~= each_behind(none) + rest);
                none
            },
        }
    }
}

/// What the numbers that follow the first one of a list were read from.
proof fn further_shape(s: Seq<u8>, rest: Seq<u8>, list: Seq<u64>) -> (digits: Seq<Seq<u8>>)
    requires
        separated(s, ";"@, grammar::numbers()) == Parsed::Done(rest, list),
    ensures
        s == each_behind(digits) + rest,
        spells_each(digits, list),
    decreases s.len(),
{
    let p = grammar::numbers();
    let none: Seq<Seq<u8>> = seq![];
    assert(each_behind(none) =~= seq![]);
    if let Parsed::Done(mid, _) = tag(s, ";"@).completed() {
        if let Parsed::Done(left, n) = p(mid).completed() {
            if mid.len() < s.len() && left.len() < mid.len() {
                tag_found(s, ";"@);
                let d = number_shape(mid, left, n);
                let items = separated(left, ";"@, p)->Done_1;
                let digits = further_shape(left, rest, items);
                one_more_number(d, n, digits, items);
                assert(s =~= each_behind(seq![d] + digits) + rest);
                seq![d] + digits
            } else {
                assert(s =~= each_behind(none) + rest);
                none
            }
        } else {
            assert(s =~= each_behind(none) + rest);
            none
        }
    } else {
        assert(s =~= each_behind(none) + rest);
        none
    }
}

/// What a list of numbers was read from.
proof fn number_list_shape(s: Seq<u8>, rest: Seq<u8>, list: Seq<u64>) -> (digits: Seq<Seq<u8>>)
    requires
        separated_nonempty_list(s, ";"@, grammar::numbers()) == Parsed::Done(rest, list),
    ensures
        list.len() > 0,
        spells_each(digits, list),
        s == digits[0] + (each_behind(digits.skip(1)) + rest),
{
    let p = grammar::numbers();
    let (left, n) = (p(s)->Done_0, p(s)->Done_1);
    let d = number_shape(s, left, n);
    let items = separated(left, ";"@, p)->Done_1;
    let others = further_shape(left, rest, items);
    one_more_number(d, n, others, items);
    let digits = seq![d] + others;
    assert(digits.skip(1) =~= others);
    digits
}

/// What the conditions and commands of a breakpoint were read from.
pub proof fn lists_shape(
    s: Seq<u8>,
    rest: Seq<u8>,
    conditions: Option<Seq<Seq<u8>>>,
    commands: Option<Seq<Seq<u8>>>,
) -> (r: (Seq<u8>, Seq<u8>))
    requires
        grammar::parse_cond_and_command_list(s) == Parsed::Done(rest, (conditions, commands)),
    ensures
        s == r.0 + (r.1 + rest),
        conditions_for(r.0, conditions),
        commands_for(r.1, commands),
{
    reveal(grammar::parse_cond_and_command_list);
    let left = grammar::maybe_condition_list(s)->Done_0;
    let none = Seq::<u8>::empty();
    let first = match conditions {
        Some(list) => {
            reveal(grammar::maybe_condition_list);
            reveal(grammar::parse_condition_list);
            tag_found(s, ";"@);
            let lengths = list_shape(tag(s, ";"@)->Done_0, left, list);
            let text = encode_utf8(";"@) + all_measured(lengths, list);
            assert(s =~= text + left);
            assert(give_lengths(lengths, list));
            text
        },
        None => {
            reveal(grammar::maybe_condition_list);
            assert(s =~= none + left);
            none
        },
    };
    let second = match commands {
        Some(list) => commands_shape(left, rest, list),
        None => {
            reveal(grammar::maybe_command_list);
            assert(left =~= none + rest);
            none
        },
    };
    assert(s =~= first + (second + rest));
    (first, second)
}

/// What the commands of a breakpoint were read from.
proof fn commands_shape(s: Seq<u8>, rest: Seq<u8>, list: Seq<Seq<u8>>) -> (text: Seq<u8>)
    requires
        grammar::maybe_command_list(s) == Parsed::Done(rest, Some(list)),
    ensures
        s == text + rest,
        list.len() > 0,
        commands_listed(text, list),
{
    reveal(grammar::maybe_command_list);
    reveal(grammar::parse_command_list);
    reveal(grammar::command_expressions);
    tag_found(s, ";cmds"@);
    let s1 = tag(s, ";cmds"@)->Done_0;
    if grammar::persistent_expressions(s1) is Done {
        reveal(grammar::persistent_expressions);
        let (s2, n) = (grammar::hex_value(s1)->Done_0, grammar::hex_value(s1)->Done_1);
        let d = number_shape(s1, s2, n);
        tag_found(s2, ","@);
        let lengths = list_shape(tag(s2, ","@)->Done_0, rest, list);
        let flag = d + encode_utf8(","@);
        assert(spells(d, n as nat));
        assert(flag_form(flag) && give_lengths(lengths, list));
        let text = encode_utf8(";cmds"@) + (flag + all_measured(lengths, list));
        assert(s =~= text + rest);
        text
    } else {
        let lengths = list_shape(s1, rest, list);
        let flag = Seq::<u8>::empty();
        assert(flag_form(flag) && give_lengths(lengths, list));
        let text = encode_utf8(";cmds"@) + (flag + all_measured(lengths, list));
        assert(s =~= text + rest);
        text
    }
}

/// A word, a number in hexadecimal, and `rest`.
pub open spec fn number_behind(data: Seq<u8>, word: Seq<char>, n: u64, rest: Seq<u8>) -> bool {
    exists|d: Seq<u8>| #[trigger]
        spells(d, n as nat) && data == encode_utf8(word) + (d + rest)
}

/// A word, at least one byte in hexadecimal, and `rest`.
pub open spec fn bytes_behind(
    data: Seq<u8>,
    word: Seq<char>,
    bytes: Seq<u8>,
    rest: Seq<u8>,
) -> bool {
    bytes.len() > 0 && exists|h: Seq<u8>| #[trigger]
        spells_bytes(h, bytes) && data == encode_utf8(word) + (h + rest)
}

/// A word, a thread, and `rest`.
pub open spec fn thread_behind(
    data: Seq<u8>,
    word: Seq<char>,
    id: ThreadId,
    rest: Seq<u8>,
) -> bool {
    exists|text: Seq<u8>| #[trigger]
        names_thread(text, id) && data == encode_utf8(word) + (text + rest)
}

/// What asks to search memory: an address, a length and bytes, with a `;` between
/// them.
pub open spec fn search_written(
    data: Seq<u8>,
    address: u64,
    length: u64,
    bytes: Seq<u8>,
    rest: Seq<u8>,
) -> bool {
    exists|t: Seq<u8>, u: Seq<u8>| #[trigger]
        number_behind(data, "qSearch:memory:"@, address, t) && #[trigger] bytes_behind(
            u,
            ";"@,
            bytes,
            rest,
        ) && number_behind(t, ";"@, length, u)
}

/// What asks to write a register: its number, a `=`, and bytes.
pub open spec fn register_written(
    data: Seq<u8>,
    regno: u64,
    bytes: Seq<u8>,
    rest: Seq<u8>,
) -> bool {
    exists|t: Seq<u8>| #[trigger]
        number_behind(data, "P"@, regno, t) && bytes_behind(t, "="@, bytes, rest)
}

/// A word, an address, a `,`, a number, and `rest`.
pub open spec fn z_written(
    data: Seq<u8>,
    word: Seq<char>,
    addr: u64,
    kind: u64,
    rest: Seq<u8>,
) -> bool {
    exists|da: Seq<u8>, dk: Seq<u8>| #[trigger]
        spells(da, addr as nat) && #[trigger] spells(dk, kind as nat) && data == encode_utf8(word)
            + (da + (encode_utf8(","@) + (dk + rest)))
}

/// The same with the conditions and commands of a breakpoint in front of `rest`.
pub open spec fn breakpoint_written(
    data: Seq<u8>,
    word: Seq<char>,
    b: BreakpointView,
    rest: Seq<u8>,
) -> bool {
    exists|c: Seq<u8>, d: Seq<u8>| #[trigger]
        conditions_for(c, b.conditions) && #[trigger] commands_for(d, b.commands) && z_written(
            data,
            word,
            b.addr,
            b.kind,
            c + (d + rest),
        )
}

/// What asks to write memory with the data in hexadecimal.
pub open spec fn memory_in_hex(
    data: Seq<u8>,
    address: u64,
    length: u64,
    bytes: Seq<u8>,
    rest: Seq<u8>,
) -> bool {
    exists|t: Seq<u8>| #[trigger]
        z_written(data, "M"@, address, length, t) && bytes_behind(t, ":"@, bytes, rest)
}

/// What asks to write memory with binary data, which goes on to the end.
pub open spec fn memory_in_binary(
    data: Seq<u8>,
    address: u64,
    length: u64,
    bytes: Seq<u8>,
    rest: Seq<u8>,
) -> bool {
    rest.len() == 0 && bytes.len() > 0 && exists|coded: Seq<u8>| #[trigger]
        binary_for(coded, bytes) && z_written(
            data,
            "X"@,
            address,
            length,
            encode_utf8(":"@) + coded,
        )
}

/// `data` is written for a query, with `rest` behind it.
pub open spec fn query_written(data: Seq<u8>, query: QueryView, rest: Seq<u8>) -> bool {
    match query {
        QueryView::CurrentThread => data == encode_utf8("qC"@) + rest,
        QueryView::SupportedFeatures(_) => encode_utf8("qSupported"@).is_prefix_of(data)
            && encode_utf8(":"@).is_prefix_of(data.skip(encode_utf8("qSupported"@).len() as int)),
        QueryView::Invoke(bytes) => bytes_behind(data, "qRcmd,"@, bytes, rest),
        QueryView::SearchMemory { address, length, bytes } => search_written(
            data,
            address,
            length,
            bytes,
            rest,
        ),
        QueryView::StartNoAckMode => data == encode_utf8("QStartNoAckMode"@) + rest,
        QueryView::Attached(Some(pid)) => number_behind(data, "qAttached:"@, pid, rest),
        QueryView::Attached(None) => data == encode_utf8("qAttached"@) + rest,
        QueryView::AddressRandomization(true) => data == encode_utf8("QDisableRandomization:0"@)
            + rest,
        QueryView::AddressRandomization(false) => data == encode_utf8("QDisableRandomization:1"@)
            + rest,
        QueryView::CatchSyscalls(None) => data == encode_utf8("QCatchSyscalls:0"@) + rest,
        QueryView::CatchSyscalls(Some(list)) => exists|digits: Seq<Seq<u8>>| #[trigger]
            spells_each(digits, list) && data == encode_utf8("QCatchSyscalls:1"@) + (each_behind(
                digits,
            ) + rest),
        QueryView::PassSignals(list) => list.len() > 0 && exists|digits: Seq<Seq<u8>>| #[trigger]
            spells_each(digits, list) && data == encode_utf8("QPassSignals:"@) + (digits[0] + (
            each_behind(digits.skip(1)) + rest)),
        QueryView::ProgramSignals(list) => list.len() > 0 && exists|digits: Seq<Seq<u8>>| #[trigger]
            spells_each(digits, list) && data == encode_utf8("QProgramSignals:"@) + (digits[0] + (
            each_behind(digits.skip(1)) + rest)),
        QueryView::ThreadInfo(id) => thread_behind(data, "qThreadExtraInfo,"@, id, rest),
    }
}

/// `data` is written for a command, with `rest` behind it.
pub open spec fn command_written(data: Seq<u8>, command: CommandView, rest: Seq<u8>) -> bool {
    match command {
        CommandView::EnableExtendedMode => data == encode_utf8("!"@) + rest,
        CommandView::TargetHaltReason => data == encode_utf8("?"@) + rest,
        CommandView::ReadGeneralRegisters => data == encode_utf8("g"@) + rest,
        CommandView::Step => data == encode_utf8("s"@) + rest,
        CommandView::Continue => data == encode_utf8("c"@) + rest,
        CommandView::Kill(None) => data == encode_utf8("k"@) + rest,
        CommandView::Reset => data == encode_utf8("r"@) + rest || exists|code: Seq<u8>|
            code.len() == 2 && data == encode_utf8("R"@) + #[trigger] (code + rest),
        CommandView::CtrlC => data == encode_utf8("vCtrlC"@) + rest,
        CommandView::UnknownVCommand => encode_utf8("v"@).is_prefix_of(data) && rest.len() == 0
            && !encode_utf8("vCtrlC"@).is_prefix_of(data),
        CommandView::Kill(Some(pid)) => number_behind(data, "vKill;"@, pid, rest),
        CommandView::Detach(Some(pid)) => number_behind(data, "D;"@, pid, rest),
        CommandView::Detach(None) => data == encode_utf8("D"@) + rest,
        CommandView::WriteGeneralRegisters(bytes) => bytes_behind(data, "G"@, bytes, rest),
        CommandView::ReadRegister(regno) => number_behind(data, "p"@, regno, rest),
        CommandView::WriteRegister(regno, bytes) => register_written(data, regno, bytes, rest),
        CommandView::ReadMemory(region) => z_written(
            data,
            "m"@,
            region.address,
            region.length,
            rest,
        ),
        CommandView::WriteMemory(region, bytes) => memory_in_hex(
            data,
            region.address,
            region.length,
            bytes,
            rest,
        ) || memory_in_binary(data, region.address, region.length, bytes, rest),
        CommandView::Query(query) => query_written(data, query, rest),
        CommandView::PingThread(id) => thread_behind(data, "T"@, id, rest),
        CommandView::SetCurrentThread(id) => thread_behind(data, "Hg"@, id, rest),
        CommandView::InsertSoftwareBreakpoint(b) => breakpoint_written(data, "Z0,"@, b, rest),
        CommandView::InsertHardwareBreakpoint(b) => breakpoint_written(data, "Z1,"@, b, rest),
        CommandView::InsertWriteWatchpoint(w) => z_written(data, "Z2,"@, w.addr, w.n_bytes, rest),
        CommandView::InsertReadWatchpoint(w) => z_written(data, "Z3,"@, w.addr, w.n_bytes, rest),
        CommandView::InsertAccessWatchpoint(w) => z_written(data, "Z4,"@, w.addr, w.n_bytes, rest),
        CommandView::RemoveSoftwareBreakpoint(b) => z_written(data, "z0,"@, b.addr, b.kind, rest)
            && b.conditions is None && b.commands is None,
        CommandView::RemoveHardwareBreakpoint(b) => z_written(data, "z1,"@, b.addr, b.kind, rest)
            && b.conditions is None && b.commands is None,
        CommandView::RemoveWriteWatchpoint(w) => z_written(data, "z2,"@, w.addr, w.n_bytes, rest),
        CommandView::RemoveReadWatchpoint(w) => z_written(data, "z3,"@, w.addr, w.n_bytes, rest),
        CommandView::RemoveAccessWatchpoint(w) => z_written(data, "z4,"@, w.addr, w.n_bytes, rest),
    }
}

/// What a query was read from.
proof fn query_shape(s: Seq<u8>)
    ensures
        grammar::query(s) matches Parsed::Done(rest, q) ==> query_written(s, q, rest),
{
    if let Parsed::Done(rest, q) = grammar::query(s) {
        match q {
            QueryView::SupportedFeatures(list) => {
                assert(grammar::supported_features(s) is Done) by {
                    reveal(grammar::query);
                }
                reveal(grammar::supported_features);
                reveal(tag);
            },
            QueryView::Invoke(bytes) => {
                assert(grammar::invoked_command(s) == Parsed::Done(rest, bytes)) by {
                    reveal(grammar::query);
                }
                reveal(grammar::invoked_command);
                tag_found(s, "qRcmd,"@);
                let h = bytes_shape(tag(s, "qRcmd,"@)->Done_0, rest, bytes);
                assert(bytes_behind(s, "qRcmd,"@, bytes, rest));
            },
            QueryView::SearchMemory { address, length, bytes } => {
                assert(grammar::q_search_memory(s) == Parsed::Done(
                    rest,
                    (address, length, bytes),
                )) by {
                    reveal(grammar::query);
                }
                search_shape(s, rest, address, length, bytes);
            },
            QueryView::Attached(Some(pid)) => {
                assert(grammar::attached_process(s) == Parsed::Done(rest, pid)) by {
                    reveal(grammar::query);
                }
                reveal(grammar::attached_process);
                tag_found(s, "qAttached:"@);
                let d = number_shape(tag(s, "qAttached:"@)->Done_0, rest, pid);
                assert(spells(d, pid as nat));
                assert(number_behind(s, "qAttached:"@, pid, rest));
            },
            QueryView::CatchSyscalls(Some(list)) => {
                assert(grammar::caught_syscalls(s) == Parsed::Done(rest, list)) by {
                    reveal(grammar::query);
                }
                reveal(grammar::caught_syscalls);
                tag_found(s, "QCatchSyscalls:1"@);
                let digits = row_shape(tag(s, "QCatchSyscalls:1"@)->Done_0, rest, list);
            },
            QueryView::PassSignals(list) => {
                assert(grammar::pass_signals(s) == Parsed::Done(rest, list)) by {
                    reveal(grammar::query);
                }
                reveal(grammar::pass_signals);
                tag_found(s, "QPassSignals:"@);
                let digits = number_list_shape(tag(s, "QPassSignals:"@)->Done_0, rest, list);
            },
            QueryView::ProgramSignals(list) => {
                assert(grammar::program_signals(s) == Parsed::Done(rest, list)) by {
                    reveal(grammar::query);
                }
                reveal(grammar::program_signals);
                tag_found(s, "QProgramSignals:"@);
                let digits = number_list_shape(tag(s, "QProgramSignals:"@)->Done_0, rest, list);
            },
            QueryView::ThreadInfo(id) => {
                assert(grammar::described_thread(s) == Parsed::Done(rest, id)) by {
                    reveal(grammar::query);
                }
                reveal(grammar::described_thread);
                tag_found(s, "qThreadExtraInfo,"@);
                let text = thread_shape(tag(s, "qThreadExtraInfo,"@)->Done_0, rest, id);
                assert(thread_behind(s, "qThreadExtraInfo,"@, id, rest));
            },
            _ => {
                tag_found(s, "qC"@);
                tag_found(s, "QStartNoAckMode"@);
                tag_found(s, "qAttached"@);
                tag_found(s, "QDisableRandomization:0"@);
                tag_found(s, "QDisableRandomization:1"@);
                tag_found(s, "QCatchSyscalls:0"@);
                reveal(grammar::query);
            },
        }
    }
}

proof fn search_shape(s: Seq<u8>, rest: Seq<u8>, address: u64, length: u64, bytes: Seq<u8>)
    requires
        grammar::q_search_memory(s) == Parsed::Done(rest, (address, length, bytes)),
    ensures
        query_written(s, QueryView::SearchMemory { address, length, bytes }, rest),
{
    reveal(grammar::q_search_memory);
    tag_found(s, "qSearch:memory:"@);
    let s1 = tag(s, "qSearch:memory:"@)->Done_0;
    let s2 = grammar::hex_value(s1)->Done_0;
    let da = number_shape(s1, s2, address);
    tag_found(s2, ";"@);
    let s3 = tag(s2, ";"@)->Done_0;
    let s4 = grammar::hex_value(s3)->Done_0;
    let dn = number_shape(s3, s4, length);
    tag_found(s4, ";"@);
    let h = bytes_shape(tag(s4, ";"@)->Done_0, rest, bytes);
    assert(bytes_behind(s4, ";"@, bytes, rest));
    assert(spells(da, address as nat) && spells(dn, length as nat));
    assert(number_behind(s, "qSearch:memory:"@, address, s2));
    assert(number_behind(s2, ";"@, length, s4));
    assert(search_written(s, address, length, bytes, rest));
}

proof fn memory_shape(s: Seq<u8>, rest: Seq<u8>, address: u64, length: u64)
    requires
        grammar::read_memory(s) == Parsed::Done(rest, (address, length)),
    ensures
        z_written(s, "m"@, address, length, rest),
{
    reveal(grammar::read_memory);
    tag_found(s, "m"@);
    let s1 = tag(s, "m"@)->Done_0;
    let s2 = grammar::hex_value(s1)->Done_0;
    let da = number_shape(s1, s2, address);
    tag_found(s2, ","@);
    let s3 = tag(s2, ","@)->Done_0;
    let dn = number_shape(s3, rest, length);
    assert(spells(da, address as nat) && spells(dn, length as nat));
}

/// What the two packets that write memory have in common was read from.
proof fn memory_write_shape(
    s: Seq<u8>,
    letter: Seq<char>,
    data_of: spec_fn(Seq<u8>) -> Parsed<Seq<u8>>,
    rest: Seq<u8>,
    address: u64,
    length: u64,
    bytes: Seq<u8>,
) -> (s5: Seq<u8>)
    requires
        grammar::memory_write(s, letter, data_of) == Parsed::Done(rest, (address, length, bytes)),
    ensures
        z_written(s, letter, address, length, encode_utf8(":"@) + s5),
        data_of(s5) == Parsed::Done(rest, bytes),
{
    reveal(grammar::memory_write);
    tag_found(s, letter);
    let s1 = tag(s, letter)->Done_0;
    let s2 = grammar::hex_value(s1)->Done_0;
    let da = number_shape(s1, s2, address);
    tag_found(s2, ","@);
    let s3 = tag(s2, ","@)->Done_0;
    let s4 = grammar::hex_value(s3)->Done_0;
    let dn = number_shape(s3, s4, length);
    tag_found(s4, ":"@);
    assert(spells(da, address as nat) && spells(dn, length as nat));
    tag(s4, ":"@)->Done_0
}

/// What a `Z` or `z` packet starts with.
proof fn z_head_shape(
    s: Seq<u8>,
    rest: Seq<u8>,
    action: ZAction,
    type_: ZType,
    addr: u64,
    kind: u64,
    word: Seq<char>,
)
    requires
        grammar::z_head(s) == Parsed::Done(rest, (action, type_, addr, kind)),
        z_word(word, action, type_),
    ensures
        z_written(s, word, addr, kind, rest),
{
    reveal(grammar::z_head);
    punctuation();
    let s1 = grammar::parse_z_action(s)->Done_0;
    let s2 = grammar::parse_z_type(s1)->Done_0;
    assert(s == seq![word[0] as u8] + s1) by {
        reveal(grammar::parse_z_action);
        reveal_strlit("z");
        reveal_strlit("Z");
        one_byte("z"@);
        one_byte("Z"@);
        tag_found(s, "z"@);
        tag_found(s, "Z"@);
    }
    assert(s1 == seq![word[1] as u8] + s2) by {
        z_type_shape(s1, s2, type_);
    }
    tag_found(s2, ","@);
    let s3 = tag(s2, ","@)->Done_0;
    let s4 = grammar::hex_value(s3)->Done_0;
    let da = number_shape(s3, s4, addr);
    tag_found(s4, ","@);
    let dk = number_shape(tag(s4, ","@)->Done_0, rest, kind);
    is_ascii_chars_encode_utf8(word);
    let e = encode_utf8(word);
    assert(e[0] == word[0] as u8 && e[1] == word[1] as u8 && e[2] == word[2] as u8);
    assert(e =~= seq![word[0] as u8] + (seq![word[1] as u8] + encode_utf8(","@)));
    assert(s =~= e + s3);
    assert(spells(da, addr as nat) && spells(dk, kind as nat));
}

proof fn z_type_shape(s: Seq<u8>, rest: Seq<u8>, type_: ZType)
    requires
        grammar::parse_z_type(s) == Parsed::Done(rest, type_),
    ensures
        s == seq![
            match type_ {
                ZType::SoftwareBreakpoint => 0x30u8,
                ZType::HardwareBreakpoint => 0x31u8,
                ZType::WriteWatchpoint => 0x32u8,
                ZType::ReadWatchpoint => 0x33u8,
                ZType::AccessWatchpoint => 0x34u8,
            },
        ] + rest,
{
    reveal(grammar::parse_z_type);
    reveal_strlit("0");
    reveal_strlit("1");
    reveal_strlit("2");
    reveal_strlit("3");
    reveal_strlit("4");
    one_byte("0"@);
    one_byte("1"@);
    one_byte("2"@);
    one_byte("3"@);
    one_byte("4"@);
    tag_found(s, "0"@);
    tag_found(s, "1"@);
    tag_found(s, "2"@);
    tag_found(s, "3"@);
    tag_found(s, "4"@);
}

/// The characters that such a packet starts with.
spec fn word_of(action: ZAction, type_: ZType) -> Seq<char> {
    match (action, type_) {
        (ZAction::Insert, ZType::SoftwareBreakpoint) => "Z0,"@,
        (ZAction::Insert, ZType::HardwareBreakpoint) => "Z1,"@,
        (ZAction::Insert, ZType::WriteWatchpoint) => "Z2,"@,
        (ZAction::Insert, ZType::ReadWatchpoint) => "Z3,"@,
        (ZAction::Insert, ZType::AccessWatchpoint) => "Z4,"@,
        (ZAction::Remove, ZType::SoftwareBreakpoint) => "z0,"@,
        (ZAction::Remove, ZType::HardwareBreakpoint) => "z1,"@,
        (ZAction::Remove, ZType::WriteWatchpoint) => "z2,"@,
        (ZAction::Remove, ZType::ReadWatchpoint) => "z3,"@,
        (ZAction::Remove, ZType::AccessWatchpoint) => "z4,"@,
    }
}

proof fn word_starts(action: ZAction, type_: ZType)
    ensures
        z_word(word_of(action, type_), action, type_),
{
    reveal_strlit("Z0,");
    reveal_strlit("Z1,");
    reveal_strlit("Z2,");
    reveal_strlit("Z3,");
    reveal_strlit("Z4,");
    reveal_strlit("z0,");
    reveal_strlit("z1,");
    reveal_strlit("z2,");
    reveal_strlit("z3,");
    reveal_strlit("z4,");
}

/// What a `Z` or `z` packet was read from.
proof fn z_shape(s: Seq<u8>)
    ensures
        grammar::parse_z_packet(s) matches Parsed::Done(rest, c) ==> command_written(s, c, rest),
{
    reveal(grammar::parse_z_packet);
    if let Parsed::Done(left, (action, type_, addr, kind)) = grammar::z_head(s) {
        let word = word_of(action, type_);
        word_starts(action, type_);
        z_head_shape(s, left, action, type_, addr, kind, word);
        reveal(grammar::insert_command);
        if action == ZAction::Insert && (type_ is SoftwareBreakpoint
            || type_ is HardwareBreakpoint) {
            if let Parsed::Done(rest, (conditions, commands)) =
                grammar::parse_cond_and_command_list(left) {
                let (c, d) = lists_shape(left, rest, conditions, commands);
                let b = BreakpointView { addr, kind, conditions, commands };
                assert(conditions_for(c, b.conditions) && commands_for(d, b.commands));
                assert(breakpoint_written(s, word, b, rest));
            }
        }
    }
}

/// What a `v` packet was read from.
proof fn v_shape(s: Seq<u8>)
    ensures
        grammar::v_command(s) matches Parsed::Done(rest, c) ==> command_written(s, c, rest),
{
    reveal(grammar::v_command);
    tag_found(s, "vCtrlC"@);
    if let Parsed::Done(rest, pid) = grammar::killed_process(s) {
        reveal(grammar::killed_process);
        tag_found(s, "vKill;"@);
        let d = number_shape(tag(s, "vKill;"@)->Done_0, rest, pid);
        assert(spells(d, pid as nat));
        assert(number_behind(s, "vKill;"@, pid, rest));
    }
    if let Parsed::Done(rest, _) = grammar::v_rest(s) {
        reveal(grammar::v_rest);
        reveal(take);
        reveal(tag);
    }
}

/// What a `D` packet was read from.
proof fn d_shape(s: Seq<u8>)
    ensures
        grammar::parse_d_packet(s) matches Parsed::Done(rest, pid) ==> command_written(
            s,
            CommandView::Detach(pid),
            rest,
        ),
{
    reveal(grammar::parse_d_packet);
    tag_found(s, "D"@);
    if let Parsed::Done(rest, pid) = grammar::detached_process(s) {
        reveal(grammar::detached_process);
        tag_found(s, "D;"@);
        let d = number_shape(tag(s, "D;"@)->Done_0, rest, pid);
        assert(spells(d, pid as nat));
        assert(number_behind(s, "D;"@, pid, rest));
    }
}

/// What a packet that writes memory was read from.
proof fn memory_write_shapes(s: Seq<u8>)
    ensures
        grammar::write_memory(s) matches Parsed::Done(rest, m) ==> command_written(
            s,
            CommandView::WriteMemory(MemoryRegion { address: m.0, length: m.1 }, m.2),
            rest,
        ),
        grammar::write_memory_binary(s) matches Parsed::Done(rest, m) ==> command_written(
            s,
            CommandView::WriteMemory(MemoryRegion { address: m.0, length: m.1 }, m.2),
            rest,
        ),
{
    if let Parsed::Done(rest, m) = grammar::write_memory(s) {
        reveal(grammar::write_memory);
        let f = |t: Seq<u8>| grammar::hex_byte_sequence(t);
        let s5 = memory_write_shape(s, "M"@, f, rest, m.0, m.1, m.2);
        let h = bytes_shape(s5, rest, m.2);
        assert(bytes_behind(encode_utf8(":"@) + s5, ":"@, m.2, rest));
        assert(memory_in_hex(s, m.0, m.1, m.2, rest));
    }
    if let Parsed::Done(rest, m) = grammar::write_memory_binary(s) {
        reveal(grammar::write_memory_binary);
        let f = |t: Seq<u8>| grammar::binary_byte_sequence(t);
        let s5 = memory_write_shape(s, "X"@, f, rest, m.0, m.1, m.2);
        binary_shape(s5, rest, m.2);
        assert(memory_in_binary(s, m.0, m.1, m.2, rest));
    }
}

/// What a packet that writes registers was read from.
proof fn register_shapes(s: Seq<u8>)
    ensures
        grammar::write_general_registers(s) matches Parsed::Done(rest, bytes) ==> command_written(
            s,
            CommandView::WriteGeneralRegisters(bytes),
            rest,
        ),
        grammar::read_register(s) matches Parsed::Done(rest, regno) ==> command_written(
            s,
            CommandView::ReadRegister(regno),
            rest,
        ),
        grammar::write_register(s) matches Parsed::Done(rest, w) ==> command_written(
            s,
            CommandView::WriteRegister(w.0, w.1),
            rest,
        ),
{
    if let Parsed::Done(rest, bytes) = grammar::write_general_registers(s) {
        reveal(grammar::write_general_registers);
        tag_found(s, "G"@);
        let h = bytes_shape(tag(s, "G"@)->Done_0, rest, bytes);
        assert(bytes_behind(s, "G"@, bytes, rest));
    }
    if let Parsed::Done(rest, regno) = grammar::read_register(s) {
        reveal(grammar::read_register);
        tag_found(s, "p"@);
        let d = number_shape(tag(s, "p"@)->Done_0, rest, regno);
        assert(spells(d, regno as nat));
        assert(number_behind(s, "p"@, regno, rest));
    }
    if let Parsed::Done(rest, w) = grammar::write_register(s) {
        reveal(grammar::write_register);
        tag_found(s, "P"@);
        let s1 = tag(s, "P"@)->Done_0;
        let s2 = grammar::hex_value(s1)->Done_0;
        let d = number_shape(s1, s2, w.0);
        tag_found(s2, "="@);
        let h = bytes_shape(tag(s2, "="@)->Done_0, rest, w.1);
        assert(bytes_behind(s2, "="@, w.1, rest));
        assert(spells(d, w.0 as nat));
        assert(number_behind(s, "P"@, w.0, s2));
        assert(register_written(s, w.0, w.1, rest));
    }
}

/// What a packet that names a thread was read from.
proof fn thread_shapes(s: Seq<u8>)
    ensures
        grammar::parse_h_packet(s) matches Parsed::Done(rest, id) ==> command_written(
            s,
            CommandView::SetCurrentThread(id),
            rest,
        ),
        grammar::parse_ping_thread(s) matches Parsed::Done(rest, id) ==> command_written(
            s,
            CommandView::PingThread(id),
            rest,
        ),
{
    if let Parsed::Done(rest, id) = grammar::parse_h_packet(s) {
        reveal(grammar::parse_h_packet);
        tag_found(s, "Hg"@);
        let text = thread_shape(tag(s, "Hg"@)->Done_0, rest, id);
        assert(thread_behind(s, "Hg"@, id, rest));
    }
    if let Parsed::Done(rest, id) = grammar::parse_ping_thread(s) {
        reveal(grammar::parse_ping_thread);
        tag_found(s, "T"@);
        let text = thread_shape(tag(s, "T"@)->Done_0, rest, id);
        assert(thread_behind(s, "T"@, id, rest));
    }
}

/// What a packet that is a letter was read from.
proof fn letter_shapes(s: Seq<u8>)
    ensures
        tag(s, "!"@) matches Parsed::Done(rest, _) ==> s == encode_utf8("!"@) + rest,
        tag(s, "?"@) matches Parsed::Done(rest, _) ==> s == encode_utf8("?"@) + rest,
        tag(s, "g"@) matches Parsed::Done(rest, _) ==> s == encode_utf8("g"@) + rest,
        tag(s, "s"@) matches Parsed::Done(rest, _) ==> s == encode_utf8("s"@) + rest,
        tag(s, "c"@) matches Parsed::Done(rest, _) ==> s == encode_utf8("c"@) + rest,
        tag(s, "k"@) matches Parsed::Done(rest, _) ==> s == encode_utf8("k"@) + rest,
        tag(s, "r"@) matches Parsed::Done(rest, _) ==> s == encode_utf8("r"@) + rest,
        grammar::reset_code(s) matches Parsed::Done(rest, code) ==> code.len() == 2 && s
            == encode_utf8("R"@) + (code + rest),
{
    tag_found(s, "!"@);
    tag_found(s, "?"@);
    tag_found(s, "g"@);
    tag_found(s, "s"@);
    tag_found(s, "c"@);
    tag_found(s, "k"@);
    tag_found(s, "r"@);
    if let Parsed::Done(rest, code) = grammar::reset_code(s) {
        reveal(grammar::reset_code);
        reveal(take);
        tag_found(s, "R"@);
        let s1 = tag(s, "R"@)->Done_0;
        assert(s1 =~= code + rest);
    }
}

/// A command is read only from what is written for it: a packet that does not
/// say so, letter by letter and number by number, is not taken for it.
pub proof fn command_shape(s: Seq<u8>)
    ensures
        grammar::command(s) matches Parsed::Done(rest, command) ==> command_written(
            s,
            command,
            rest,
        ),
{
    first_byte_decides(s);
    if s.len() > 0 {
        let b = s[0];
        if b == 0x44 {
            d_shape(s);
        } else if b == 0x47 || b == 0x70 || b == 0x50 {
            register_shapes(s);
        } else if b == 0x48 || b == 0x54 {
            thread_shapes(s);
        } else if b == 0x6d {
            if let Parsed::Done(rest, m) = grammar::read_memory(s) {
                memory_shape(s, rest, m.0, m.1);
            }
        } else if b == 0x4d || b == 0x58 {
            memory_write_shapes(s);
        } else if b == 0x71 || b == 0x51 {
            query_shape(s);
        } else if b == 0x76 {
            v_shape(s);
        } else if b == 0x7a || b == 0x5a {
            z_shape(s);
        } else {
            letter_shapes(s);
        }
    }
}

} // verus!
