//! The grammar of packets: for each kind of packet, and each part of one, what
//! it is on a byte sequence.
use vstd::prelude::*;
use vstd::utf8::{decode_utf8, valid_utf8};
use crate::combine::{is_not, many0, many1, run, separated_list, separated_nonempty_list, tag, take};
use crate::hex::{digit_value, hex_number, is_hex};
use crate::model::{
    BreakpointView, CommandView, FeatureSupportedView, GDBFeatureSupportedView, Id, KnownView,
    MemoryRegion, PacketView, QueryView, ThreadId, Watchpoint, ZAction, ZType,
};
use crate::outcome::{ErrorKind, Needed, Parsed};
use crate::text::known;

verus! {

/// The two characters of a checksum: two hexadecimal digits, or a plus sign
/// and one digit.
#[verifier::opaque]
pub open spec fn checksum(s: Seq<u8>) -> Parsed<u8> {
    if s.len() < 2 {
        Parsed::Incomplete(Needed::Size(2))
    } else if is_hex(s[0]) && is_hex(s[1]) {
        Parsed::Done(s.skip(2), (16 * digit_value(s[0]) + digit_value(s[1])) as u8)
    } else if s[0] == 0x2b && is_hex(s[1]) {
        Parsed::Done(s.skip(2), digit_value(s[1]) as u8)
    } else {
        Parsed::Error(ErrorKind::MapRes)
    }
}

/// The bytes between `$` and `#`; there may be none.
#[verifier::opaque]
pub open spec fn packet_data(s: Seq<u8>) -> Parsed<Seq<u8>> {
    is_not(s, "#"@).or(Parsed::Done(s, seq![]))
}

/// A packet with data: `$`, the data, `#` and a checksum.
#[verifier::opaque]
pub open spec fn packet(s: Seq<u8>) -> Parsed<(Seq<u8>, u8)> {
    tag(s, "$"@).followed_by(
        s,
        |_u: (), s1: Seq<u8>|
            packet_data(s1).followed_by(
                s1,
                |data: Seq<u8>, s2: Seq<u8>|
                    tag(s2, "#"@).followed_by(
                        s2,
                        |_u: (), s3: Seq<u8>| checksum(s3).mapped(|sum: u8| (data, sum)),
                    ),
            ),
    )
}

/// Anything that a client may send.
#[verifier::opaque]
pub open spec fn packet_or_response(s: Seq<u8>) -> Parsed<PacketView> {
    packet(s).mapped(|p: (Seq<u8>, u8)| PacketView::Data(p.0, p.1)).or(
        tag(s, "+"@).mapped(|_u: ()| PacketView::Ack),
    ).or(tag(s, "-"@).mapped(|_u: ()| PacketView::Nack)).or(
        tag(s, "\x03"@).mapped(|_u: ()| PacketView::Interrupt),
    ).or_none()
}

/// Bytes that have to be text.
pub open spec fn as_text(r: Parsed<Seq<u8>>) -> Parsed<Seq<char>> {
    match r {
        Parsed::Done(_, bytes) if !valid_utf8(bytes) => Parsed::Error(ErrorKind::MapRes),
        _ => r.mapped(|bytes: Seq<u8>| decode_utf8(bytes)),
    }
}

/// The name of a feature.
#[verifier::opaque]
pub open spec fn gdbfeature(s: Seq<u8>) -> Parsed<KnownView> {
    as_text(is_not(s, ";="@)).mapped(|name: Seq<char>| known(name))
}

/// A feature and what is said of it, where nothing else is in the input.
#[verifier::opaque]
pub open spec fn feature_clause(f: Seq<u8>) -> Parsed<GDBFeatureSupportedView> {
    if f.len() == 0 {
        Parsed::Incomplete(Needed::Size(2))
    } else if f.last() == 0x2b {
        gdbfeature(f.drop_last()).mapped(
            |k: KnownView| GDBFeatureSupportedView(k, FeatureSupportedView::Yes),
        )
    } else if f.last() == 0x2d {
        gdbfeature(f.drop_last()).mapped(
            |k: KnownView| GDBFeatureSupportedView(k, FeatureSupportedView::No),
        )
    } else {
        gdbfeature(f).followed_by(
            f,
            |k: KnownView, s1: Seq<u8>|
                tag(s1, "="@).followed_by(
                    s1,
                    |_u: (), s2: Seq<u8>|
                        as_text(is_not(s2, ";"@)).mapped(
                            |value: Seq<char>|
                                GDBFeatureSupportedView(k, FeatureSupportedView::Value(value)),
                        ),
                ),
        )
    }
}

/// A feature and what is said of it, up to a `;` or the end.
#[verifier::opaque]
pub open spec fn gdbfeaturesupported(s: Seq<u8>) -> Parsed<GDBFeatureSupportedView> {
    match is_not(s, ";"@) {
        Parsed::Done(rest, f) => match feature_clause(f) {
            Parsed::Done(_, clause) => Parsed::Done(rest, clause),
            other => other,
        },
        Parsed::Error(kind) => Parsed::Error(kind),
        Parsed::Incomplete(needed) => Parsed::Incomplete(needed),
        Parsed::Undefined => Parsed::Undefined,
    }
}

/// The parser of one feature of a list of features.
pub open spec fn features() -> spec_fn(Seq<u8>) -> Parsed<GDBFeatureSupportedView> {
    |s: Seq<u8>| gdbfeaturesupported(s)
}

/// A request to search memory.
#[verifier::opaque]
pub open spec fn q_search_memory(s: Seq<u8>) -> Parsed<(u64, u64, Seq<u8>)> {
    tag(s, "qSearch:memory:"@).followed_by(
        s,
        |_u: (), s1: Seq<u8>|
            hex_value(s1).followed_by(
                s1,
                |address: u64, s2: Seq<u8>|
                    tag(s2, ";"@).followed_by(
                        s2,
                        |_u: (), s3: Seq<u8>|
                            hex_value(s3).followed_by(
                                s3,
                                |length: u64, s4: Seq<u8>|
                                    tag(s4, ";"@).followed_by(
                                        s4,
                                        |_u: (), s5: Seq<u8>|
                                            hex_byte_sequence(s5).mapped(
                                                |data: Seq<u8>| (address, length, data),
                                            ),
                                    ),
                            ),
                    ),
            ),
    ).completed()
}

/// A `;` and a number.
#[verifier::opaque]
pub open spec fn further_number(s: Seq<u8>) -> Parsed<u64> {
    tag(s, ";"@).followed_by(s, |_u: (), s1: Seq<u8>| hex_value(s1))
}

/// The parser of one number of a row, each with a `;` in front of it.
pub open spec fn further_numbers() -> spec_fn(Seq<u8>) -> Parsed<u64> {
    |s: Seq<u8>| further_number(s)
}

/// The parser of one number of a list.
pub open spec fn numbers() -> spec_fn(Seq<u8>) -> Parsed<u64> {
    |s: Seq<u8>| hex_value(s)
}

/// The features that a `qSupported` packet lists.
#[verifier::opaque]
pub open spec fn supported_features(s: Seq<u8>) -> Parsed<Seq<GDBFeatureSupportedView>> {
    tag(s, "qSupported"@).followed_by(
        s,
        |_u: (), s1: Seq<u8>|
            tag(s1, ":"@).followed_by(
                s1,
                |_u: (), s2: Seq<u8>| separated_list(s2, ";"@, features()),
            ),
    )
}

/// The command that a `qRcmd` packet holds.
#[verifier::opaque]
pub open spec fn invoked_command(s: Seq<u8>) -> Parsed<Seq<u8>> {
    tag(s, "qRcmd,"@).followed_by(s, |_u: (), s1: Seq<u8>| hex_byte_sequence(s1))
}

/// The process that a `qAttached` packet names.
#[verifier::opaque]
pub open spec fn attached_process(s: Seq<u8>) -> Parsed<u64> {
    tag(s, "qAttached:"@).followed_by(s, |_u: (), s1: Seq<u8>| hex_value(s1))
}

/// The system calls that a `QCatchSyscalls` packet lists.
#[verifier::opaque]
pub open spec fn caught_syscalls(s: Seq<u8>) -> Parsed<Seq<u64>> {
    tag(s, "QCatchSyscalls:1"@).followed_by(s, |_u: (), s1: Seq<u8>| many0(s1, further_numbers()))
}

/// The signals that a `QPassSignals` packet lists.
#[verifier::opaque]
pub open spec fn pass_signals(s: Seq<u8>) -> Parsed<Seq<u64>> {
    tag(s, "QPassSignals:"@).followed_by(
        s,
        |_u: (), s1: Seq<u8>| separated_nonempty_list(s1, ";"@, numbers()),
    )
}

/// The signals that a `QProgramSignals` packet lists.
#[verifier::opaque]
pub open spec fn program_signals(s: Seq<u8>) -> Parsed<Seq<u64>> {
    tag(s, "QProgramSignals:"@).followed_by(
        s,
        |_u: (), s1: Seq<u8>| separated_nonempty_list(s1, ";"@, numbers()),
    )
}

/// The thread that a `qThreadExtraInfo` packet names.
#[verifier::opaque]
pub open spec fn described_thread(s: Seq<u8>) -> Parsed<ThreadId> {
    tag(s, "qThreadExtraInfo,"@).followed_by(s, |_u: (), s1: Seq<u8>| parse_thread_id(s1))
}

/// A query or a setting.
#[verifier::opaque]
pub open spec fn query(s: Seq<u8>) -> Parsed<QueryView> {
    tag(s, "qC"@).mapped(|_u: ()| QueryView::CurrentThread).completed().or(
        supported_features(s).mapped(
            |list: Seq<GDBFeatureSupportedView>| QueryView::SupportedFeatures(list),
        ).completed(),
    ).or(invoked_command(s).mapped(|bytes: Seq<u8>| QueryView::Invoke(bytes)).completed()).or(
        q_search_memory(s).mapped(
            |q: (u64, u64, Seq<u8>)|
                QueryView::SearchMemory { address: q.0, length: q.1, bytes: q.2 },
        ).completed(),
    ).or(tag(s, "QStartNoAckMode"@).mapped(|_u: ()| QueryView::StartNoAckMode).completed()).or(
        attached_process(s).mapped(|value: u64| QueryView::Attached(Some(value))).completed(),
    ).or(tag(s, "qAttached"@).mapped(|_u: ()| QueryView::Attached(None)).completed()).or(
        tag(s, "QDisableRandomization:0"@).mapped(
            |_u: ()| QueryView::AddressRandomization(true),
        ).completed(),
    ).or(
        tag(s, "QDisableRandomization:1"@).mapped(
            |_u: ()| QueryView::AddressRandomization(false),
        ).completed(),
    ).or(
        tag(s, "QCatchSyscalls:0"@).mapped(|_u: ()| QueryView::CatchSyscalls(None)).completed(),
    ).or(
        caught_syscalls(s).mapped(
            |calls: Seq<u64>| QueryView::CatchSyscalls(Some(calls)),
        ).completed(),
    ).or(
        pass_signals(s).mapped(|signals: Seq<u64>| QueryView::PassSignals(signals)).completed(),
    ).or(
        program_signals(s).mapped(
            |signals: Seq<u64>| QueryView::ProgramSignals(signals),
        ).completed(),
    ).or(
        described_thread(s).mapped(|id: ThreadId| QueryView::ThreadInfo(id)).completed(),
    ).or_none()
}

/// The bytes that are hexadecimal digits.
pub open spec fn hex_digits() -> spec_fn(u8) -> bool {
    |b: u8| is_hex(b)
}

/// A number: the longest row of hexadecimal digits, and at least one.  Nothing
/// is defined for a number of more than 64 bits.
#[verifier::opaque]
pub open spec fn hex_value(s: Seq<u8>) -> Parsed<u64> {
    let n = run(s, hex_digits()) as int;
    if s.len() == 0 {
        Parsed::Incomplete(Needed::Size(1))
    } else if n == 0 {
        Parsed::Error(ErrorKind::TakeWhile1)
    } else if hex_number(s.take(n)) > u64::MAX {
        Parsed::Undefined
    } else {
        Parsed::Done(s.skip(n), hex_number(s.take(n)) as u64)
    }
}

/// One hexadecimal digit.
#[verifier::opaque]
pub open spec fn hex_digit(s: Seq<u8>) -> Parsed<char> {
    if s.len() == 0 {
        Parsed::Incomplete(Needed::Size(1))
    } else if !is_hex(s[0]) {
        Parsed::Error(ErrorKind::OneOf)
    } else {
        Parsed::Done(s.skip(1), s[0] as char)
    }
}

/// A byte as two hexadecimal digits.
#[verifier::opaque]
pub open spec fn hex_byte(s: Seq<u8>) -> Parsed<u8> {
    hex_digit(s).followed_by(
        s,
        |digit0: char, s1: Seq<u8>|
            hex_digit(s1).mapped(
                |digit1: char|
                    (16 * digit_value(digit0 as u8) + digit_value(digit1 as u8)) as u8,
            ),
    )
}

/// The parser of one byte of a row of bytes in hexadecimal.
pub open spec fn hex_bytes() -> spec_fn(Seq<u8>) -> Parsed<u8> {
    |s: Seq<u8>| hex_byte(s)
}

/// At least one byte in hexadecimal.
#[verifier::opaque]
pub open spec fn hex_byte_sequence(s: Seq<u8>) -> Parsed<Seq<u8>> {
    many1(s, hex_bytes())
}

/// What the two packets that write memory have in common: the letter of the
/// packet, an address, a length, and the data as `data_of` reads it.
#[verifier::opaque]
pub open spec fn memory_write(
    s: Seq<u8>,
    letter: Seq<char>,
    data_of: spec_fn(Seq<u8>) -> Parsed<Seq<u8>>,
) -> Parsed<(u64, u64, Seq<u8>)> {
    tag(s, letter).followed_by(
        s,
        |_u: (), s1: Seq<u8>|
            hex_value(s1).followed_by(
                s1,
                |address: u64, s2: Seq<u8>|
                    tag(s2, ","@).followed_by(
                        s2,
                        |_u: (), s3: Seq<u8>|
                            hex_value(s3).followed_by(
                                s3,
                                |length: u64, s4: Seq<u8>|
                                    tag(s4, ":"@).followed_by(
                                        s4,
                                        |_u: (), s5: Seq<u8>|
                                            data_of(s5).mapped(
                                                |data: Seq<u8>| (address, length, data),
                                            ),
                                    ),
                            ),
                    ),
            ),
    ).completed()
}

/// A request to write memory, with the data in hexadecimal.
#[verifier::opaque]
pub open spec fn write_memory(s: Seq<u8>) -> Parsed<(u64, u64, Seq<u8>)> {
    memory_write(s, "M"@, |t: Seq<u8>| hex_byte_sequence(t))
}

/// A byte of binary data: a byte as it is, or behind a `}` the byte with one
/// bit turned over.
#[verifier::opaque]
pub open spec fn binary_byte(s: Seq<u8>) -> Parsed<u8> {
    tag(s, "}"@).followed_by(s, |_u: (), s1: Seq<u8>| take(s1, 1)).mapped(
        |b: Seq<u8>| b[0] ^ 0x20,
    ).completed().or(take(s, 1).mapped(|b: Seq<u8>| b[0]).completed()).or_none()
}

/// The parser of one byte of binary data.
pub open spec fn binary_bytes() -> spec_fn(Seq<u8>) -> Parsed<u8> {
    |s: Seq<u8>| binary_byte(s)
}

/// At least one byte of binary data.
#[verifier::opaque]
pub open spec fn binary_byte_sequence(s: Seq<u8>) -> Parsed<Seq<u8>> {
    many1(s, binary_bytes())
}

/// A request to write memory, with binary data.
#[verifier::opaque]
pub open spec fn write_memory_binary(s: Seq<u8>) -> Parsed<(u64, u64, Seq<u8>)> {
    memory_write(s, "X"@, |t: Seq<u8>| binary_byte_sequence(t))
}

/// A request to read memory.
#[verifier::opaque]
pub open spec fn read_memory(s: Seq<u8>) -> Parsed<(u64, u64)> {
    tag(s, "m"@).followed_by(
        s,
        |_u: (), s1: Seq<u8>|
            hex_value(s1).followed_by(
                s1,
                |address: u64, s2: Seq<u8>|
                    tag(s2, ","@).followed_by(
                        s2,
                        |_u: (), s3: Seq<u8>|
                            hex_value(s3).mapped(|length: u64| (address, length)),
                    ),
            ),
    )
}

/// A request to read a register.
#[verifier::opaque]
pub open spec fn read_register(s: Seq<u8>) -> Parsed<u64> {
    tag(s, "p"@).followed_by(s, |_u: (), s1: Seq<u8>| hex_value(s1))
}

/// A request to write a register.
#[verifier::opaque]
pub open spec fn write_register(s: Seq<u8>) -> Parsed<(u64, Seq<u8>)> {
    tag(s, "P"@).followed_by(
        s,
        |_u: (), s1: Seq<u8>|
            hex_value(s1).followed_by(
                s1,
                |regno: u64, s2: Seq<u8>|
                    tag(s2, "="@).followed_by(
                        s2,
                        |_u: (), s3: Seq<u8>|
                            hex_byte_sequence(s3).mapped(|bytes: Seq<u8>| (regno, bytes)),
                    ),
            ),
    )
}

/// A request to write the general registers.
#[verifier::opaque]
pub open spec fn write_general_registers(s: Seq<u8>) -> Parsed<Seq<u8>> {
    tag(s, "G"@).followed_by(s, |_u: (), s1: Seq<u8>| hex_byte_sequence(s1))
}

/// A number that no process or thread has: its low 32 bits are 0 or -1.
pub open spec fn no_id(val: u64) -> bool {
    val as u32 == 0 || val as u32 == u32::MAX
}

/// The number of a process or thread, of which the low 32 bits count.
#[verifier::opaque]
pub open spec fn id_number(s: Seq<u8>) -> Parsed<Id> {
    match hex_value(s) {
        Parsed::Done(_, val) if no_id(val) => Parsed::Error(ErrorKind::MapRes),
        r => r.mapped(|val: u64| Id::Id(val as u32)),
    }
}

/// A process or thread id: `0` is any, `-1` is all, anything else is a number.
#[verifier::opaque]
pub open spec fn parse_thread_id_element(s: Seq<u8>) -> Parsed<Id> {
    tag(s, "0"@).mapped(|_u: ()| Id::Any).completed().or(
        tag(s, "-1"@).mapped(|_u: ()| Id::All).completed(),
    ).or(id_number(s).completed()).or_none()
}

/// A `p`, a process, a `.` and a thread.
#[verifier::opaque]
pub open spec fn process_and_thread(s: Seq<u8>) -> Parsed<ThreadId> {
    tag(s, "p"@).followed_by(
        s,
        |_u: (), s1: Seq<u8>|
            parse_thread_id_element(s1).followed_by(
                s1,
                |pid: Id, s2: Seq<u8>|
                    tag(s2, "."@).followed_by(
                        s2,
                        |_u: (), s3: Seq<u8>|
                            parse_thread_id_element(s3).mapped(|tid: Id| ThreadId { pid, tid }),
                    ),
            ),
    )
}

/// A `.` and a number that no thread has.
#[verifier::opaque]
pub open spec fn names_no_thread(s: Seq<u8>) -> bool {
    tag(s, "."@) matches Parsed::Done(s1, _) && hex_value(s1) matches Parsed::Done(_, val) && no_id(
        val,
    )
}

/// A `p` and a process.  It is refused where it goes on with a thread that there
/// cannot be.
#[verifier::opaque]
pub open spec fn process_alone(s: Seq<u8>) -> Parsed<Id> {
    match tag(s, "p"@).followed_by(s, |_u: (), s1: Seq<u8>| parse_thread_id_element(s1)) {
        Parsed::Done(rest, _) if names_no_thread(rest) => Parsed::Error(ErrorKind::MapRes),
        r => r,
    }
}

/// A thread: a process alone, or behind a `p` a process with a thread or with
/// all of its threads.
#[verifier::opaque]
pub open spec fn parse_thread_id(s: Seq<u8>) -> Parsed<ThreadId> {
    parse_thread_id_element(s).mapped(
        |pid: Id| ThreadId { pid, tid: Id::Any },
    ).completed().or(
        process_and_thread(s).completed(),
    ).or(
        process_alone(s).mapped(|pid: Id| ThreadId { pid, tid: Id::All }).completed(),
    ).or_none()
}

/// The `T` packet.
#[verifier::opaque]
pub open spec fn parse_ping_thread(s: Seq<u8>) -> Parsed<ThreadId> {
    tag(s, "T"@).followed_by(s, |_u: (), s1: Seq<u8>| parse_thread_id(s1))
}

/// The process that a `vKill` packet names.
#[verifier::opaque]
pub open spec fn killed_process(s: Seq<u8>) -> Parsed<u64> {
    tag(s, "vKill;"@).followed_by(s, |_u: (), s1: Seq<u8>| hex_value(s1))
}

/// Whatever follows a `v`.
#[verifier::opaque]
pub open spec fn v_rest(s: Seq<u8>) -> Parsed<Seq<u8>> {
    tag(s, "v"@).followed_by(s, |_u: (), s1: Seq<u8>| take(s1, s1.len()))
}

/// The packets that start with `v`.
#[verifier::opaque]
pub open spec fn v_command(s: Seq<u8>) -> Parsed<CommandView> {
    tag(s, "vCtrlC"@).mapped(|_u: ()| CommandView::CtrlC).completed().or(
        killed_process(s).mapped(|pid: u64| CommandView::Kill(Some(pid))).completed(),
    ).or(v_rest(s).mapped(|_b: Seq<u8>| CommandView::UnknownVCommand).completed()).or_none()
}

/// The `H` packet.
#[verifier::opaque]
pub open spec fn parse_h_packet(s: Seq<u8>) -> Parsed<ThreadId> {
    tag(s, "Hg"@).followed_by(s, |_u: (), s1: Seq<u8>| parse_thread_id(s1))
}

/// The process that a `D` packet names.
#[verifier::opaque]
pub open spec fn detached_process(s: Seq<u8>) -> Parsed<u64> {
    tag(s, "D;"@).followed_by(s, |_u: (), s1: Seq<u8>| hex_value(s1))
}

/// The `D` packet.
#[verifier::opaque]
pub open spec fn parse_d_packet(s: Seq<u8>) -> Parsed<Option<u64>> {
    detached_process(s).mapped(|pid: u64| Some(pid)).completed().or(
        tag(s, "D"@).mapped(|_u: ()| None::<u64>).completed(),
    ).or_none()
}

/// The letter of a `Z` or `z` packet.
#[verifier::opaque]
pub open spec fn parse_z_action(s: Seq<u8>) -> Parsed<ZAction> {
    tag(s, "z"@).mapped(|_u: ()| ZAction::Remove).completed().or(
        tag(s, "Z"@).mapped(|_u: ()| ZAction::Insert).completed(),
    ).or_none()
}

/// The digit behind that letter.
#[verifier::opaque]
pub open spec fn parse_z_type(s: Seq<u8>) -> Parsed<ZType> {
    tag(s, "0"@).mapped(|_u: ()| ZType::SoftwareBreakpoint).completed().or(
        tag(s, "1"@).mapped(|_u: ()| ZType::HardwareBreakpoint).completed(),
    ).or(tag(s, "2"@).mapped(|_u: ()| ZType::WriteWatchpoint).completed()).or(
        tag(s, "3"@).mapped(|_u: ()| ZType::ReadWatchpoint).completed(),
    ).or(tag(s, "4"@).mapped(|_u: ()| ZType::AccessWatchpoint).completed()).or_none()
}

/// A bytecode expression: `X`, its length, `,` and so many bytes.
#[verifier::opaque]
pub open spec fn parse_cond_or_command_expression(s: Seq<u8>) -> Parsed<Seq<u8>> {
    tag(s, "X"@).followed_by(
        s,
        |_u: (), s1: Seq<u8>|
            hex_value(s1).followed_by(
                s1,
                |len: u64, s2: Seq<u8>|
                    tag(s2, ","@).followed_by(
                        s2,
                        |_u: (), s3: Seq<u8>| take(s3, (len as usize) as nat),
                    ),
            ),
    )
}

/// The parser of one bytecode expression of a row.
pub open spec fn expressions() -> spec_fn(Seq<u8>) -> Parsed<Seq<u8>> {
    |s: Seq<u8>| parse_cond_or_command_expression(s)
}

/// The conditions of a breakpoint.
#[verifier::opaque]
pub open spec fn parse_condition_list(s: Seq<u8>) -> Parsed<Seq<Seq<u8>>> {
    tag(s, ";"@).followed_by(s, |_u: (), s1: Seq<u8>| many1(s1, expressions()))
}

/// The conditions of a breakpoint, or none where the input does not go on
/// with conditions.
#[verifier::opaque]
pub open spec fn maybe_condition_list(s: Seq<u8>) -> Parsed<Option<Seq<Seq<u8>>>> {
    match parse_condition_list(s) {
        Parsed::Done(rest, list) => Parsed::Done(rest, Some(list)),
        Parsed::Undefined => Parsed::Undefined,
        _ => Parsed::Done(s, None),
    }
}

/// A persistence flag, a `,` and expressions.
#[verifier::opaque]
pub open spec fn persistent_expressions(s: Seq<u8>) -> Parsed<Seq<Seq<u8>>> {
    hex_value(s).followed_by(
        s,
        |_persist: u64, s1: Seq<u8>|
            tag(s1, ","@).followed_by(s1, |_u: (), s2: Seq<u8>| many1(s2, expressions())),
    )
}

/// The expressions behind `;cmds`, with or without a persistence flag in front.
#[verifier::opaque]
pub open spec fn command_expressions(s: Seq<u8>) -> Parsed<Seq<Seq<u8>>> {
    persistent_expressions(s).completed().or(many1(s, expressions()).completed()).or_none()
}

/// The commands of a breakpoint.
#[verifier::opaque]
pub open spec fn parse_command_list(s: Seq<u8>) -> Parsed<Seq<Seq<u8>>> {
    tag(s, ";cmds"@).followed_by(s, |_u: (), s1: Seq<u8>| command_expressions(s1))
}

/// The commands of a breakpoint, or none where the input ends too early.
#[verifier::opaque]
pub open spec fn maybe_command_list(s: Seq<u8>) -> Parsed<Option<Seq<Seq<u8>>>> {
    match parse_command_list(s) {
        Parsed::Done(rest, list) => Parsed::Done(rest, Some(list)),
        Parsed::Incomplete(_) => Parsed::Done(s, None),
        Parsed::Error(kind) => Parsed::Error(kind),
        Parsed::Undefined => Parsed::Undefined,
    }
}

/// The conditions and the commands of a breakpoint.
#[verifier::opaque]
pub open spec fn parse_cond_and_command_list(s: Seq<u8>) -> Parsed<
    (Option<Seq<Seq<u8>>>, Option<Seq<Seq<u8>>>),
> {
    maybe_condition_list(s).followed_by(
        s,
        |conditions: Option<Seq<Seq<u8>>>, s1: Seq<u8>|
            maybe_command_list(s1).mapped(
                |commands: Option<Seq<Seq<u8>>>| (conditions, commands),
            ),
    )
}

/// The front part of a `Z` or `z` packet.
#[verifier::opaque]
pub open spec fn z_head(s: Seq<u8>) -> Parsed<(ZAction, ZType, u64, u64)> {
    parse_z_action(s).followed_by(
        s,
        |action: ZAction, s1: Seq<u8>|
            parse_z_type(s1).followed_by(
                s1,
                |type_: ZType, s2: Seq<u8>|
                    tag(s2, ","@).followed_by(
                        s2,
                        |_u: (), s3: Seq<u8>|
                            hex_value(s3).followed_by(
                                s3,
                                |addr: u64, s4: Seq<u8>|
                                    tag(s4, ","@).followed_by(
                                        s4,
                                        |_u: (), s5: Seq<u8>|
                                            hex_value(s5).mapped(
                                                |kind: u64| (action, type_, addr, kind),
                                            ),
                                    ),
                            ),
                    ),
            ),
    )
}

/// What is left of a `Z` packet behind its front part.  Nothing is defined for
/// a breakpoint with something other than conditions and commands behind it.
#[verifier::opaque]
pub open spec fn insert_command(s: Seq<u8>, type_: ZType, addr: u64, kind: u64) -> Parsed<
    CommandView,
> {
    match type_ {
        ZType::SoftwareBreakpoint => match parse_cond_and_command_list(s) {
            Parsed::Done(rest, (conditions, commands)) => Parsed::Done(
                rest,
                CommandView::InsertSoftwareBreakpoint(
                    BreakpointView { addr, kind, conditions, commands },
                ),
            ),
            _ => Parsed::Undefined,
        },
        ZType::HardwareBreakpoint => match parse_cond_and_command_list(s) {
            Parsed::Done(rest, (conditions, commands)) => Parsed::Done(
                rest,
                CommandView::InsertHardwareBreakpoint(
                    BreakpointView { addr, kind, conditions, commands },
                ),
            ),
            _ => Parsed::Undefined,
        },
        ZType::WriteWatchpoint => Parsed::Done(
            s,
            CommandView::InsertWriteWatchpoint(Watchpoint { addr, n_bytes: kind }),
        ),
        ZType::ReadWatchpoint => Parsed::Done(
            s,
            CommandView::InsertReadWatchpoint(Watchpoint { addr, n_bytes: kind }),
        ),
        ZType::AccessWatchpoint => Parsed::Done(
            s,
            CommandView::InsertAccessWatchpoint(Watchpoint { addr, n_bytes: kind }),
        ),
    }
}

/// The command that a `z` packet stands for.
pub open spec fn remove_command(type_: ZType, addr: u64, kind: u64) -> CommandView {
    let breakpoint = BreakpointView { addr, kind, conditions: None, commands: None };
    let watchpoint = Watchpoint { addr, n_bytes: kind };
    match type_ {
        ZType::SoftwareBreakpoint => CommandView::RemoveSoftwareBreakpoint(breakpoint),
        ZType::HardwareBreakpoint => CommandView::RemoveHardwareBreakpoint(breakpoint),
        ZType::WriteWatchpoint => CommandView::RemoveWriteWatchpoint(watchpoint),
        ZType::ReadWatchpoint => CommandView::RemoveReadWatchpoint(watchpoint),
        ZType::AccessWatchpoint => CommandView::RemoveAccessWatchpoint(watchpoint),
    }
}

/// The `Z` and `z` packets.
#[verifier::opaque]
pub open spec fn parse_z_packet(s: Seq<u8>) -> Parsed<CommandView> {
    match z_head(s) {
        Parsed::Done(rest, (ZAction::Insert, type_, addr, kind)) => insert_command(
            rest,
            type_,
            addr,
            kind,
        ),
        Parsed::Done(rest, (ZAction::Remove, type_, addr, kind)) => Parsed::Done(
            rest,
            remove_command(type_, addr, kind),
        ),
        Parsed::Error(kind) => Parsed::Error(kind),
        Parsed::Incomplete(needed) => Parsed::Incomplete(needed),
        Parsed::Undefined => Parsed::Undefined,
    }
}

/// The two characters behind an `R`.
#[verifier::opaque]
pub open spec fn reset_code(s: Seq<u8>) -> Parsed<Seq<u8>> {
    tag(s, "R"@).followed_by(s, |_u: (), s1: Seq<u8>| take(s1, 2))
}

/// The data of a packet: a command.
#[verifier::opaque]
pub open spec fn command(s: Seq<u8>) -> Parsed<CommandView> {
    tag(s, "!"@).mapped(|_u: ()| CommandView::EnableExtendedMode).or(
        tag(s, "?"@).mapped(|_u: ()| CommandView::TargetHaltReason),
    ).or(parse_d_packet(s).mapped(|pid: Option<u64>| CommandView::Detach(pid))).or(
        tag(s, "g"@).mapped(|_u: ()| CommandView::ReadGeneralRegisters),
    ).or(tag(s, "s"@).mapped(|_u: ()| CommandView::Step)).or(
        tag(s, "c"@).mapped(|_u: ()| CommandView::Continue),
    ).or(
        write_general_registers(s).mapped(
            |bytes: Seq<u8>| CommandView::WriteGeneralRegisters(bytes),
        ),
    ).or(parse_h_packet(s).mapped(|id: ThreadId| CommandView::SetCurrentThread(id))).or(
        tag(s, "k"@).mapped(|_u: ()| CommandView::Kill(None)),
    ).or(
        read_memory(s).mapped(
            |m: (u64, u64)| CommandView::ReadMemory(MemoryRegion { address: m.0, length: m.1 }),
        ),
    ).or(
        write_memory(s).mapped(
            |m: (u64, u64, Seq<u8>)|
                CommandView::WriteMemory(MemoryRegion { address: m.0, length: m.1 }, m.2),
        ),
    ).or(read_register(s).mapped(|regno: u64| CommandView::ReadRegister(regno))).or(
        write_register(s).mapped(|w: (u64, Seq<u8>)| CommandView::WriteRegister(w.0, w.1)),
    ).or(query(s).mapped(|q: QueryView| CommandView::Query(q))).or(
        tag(s, "r"@).mapped(|_u: ()| CommandView::Reset),
    ).or(
        reset_code(s).mapped(|_b: Seq<u8>| CommandView::Reset),
    ).or(parse_ping_thread(s).mapped(|id: ThreadId| CommandView::PingThread(id))).or(
        v_command(s),
    ).or(
        write_memory_binary(s).mapped(
            |m: (u64, u64, Seq<u8>)|
                CommandView::WriteMemory(MemoryRegion { address: m.0, length: m.1 }, m.2),
        ),
    ).or(parse_z_packet(s)).or_none()
}

} // verus!
