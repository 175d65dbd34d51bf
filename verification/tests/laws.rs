use gdb_remote_protocol::model::{
    Command, FeatureSupported, GDBFeature, GDBFeatureSupported, Known, Packet, Query, ZAction, ZType,
};
use gdb_remote_protocol::hex::{hex_of, hex_of_byte, number_of_digits, value_of_digit};
use gdb_remote_protocol::outcome::{ErrorKind, IResult, Needed};
use gdb_remote_protocol::parse::{
    binary_byte, binary_byte_sequence, checksum, command, gdbfeature, gdbfeaturesupported, hex_byte,
    hex_byte_sequence, hex_digit, hex_value, insert_command, maybe_command_list,
    maybe_condition_list, packet, packet_or_response, parse_command_list,
    parse_cond_and_command_list, parse_cond_or_command_expression, parse_condition_list,
    parse_d_packet, parse_h_packet, parse_ping_thread, parse_thread_id, parse_thread_id_element,
    parse_z_action, parse_z_packet, parse_z_type, q_search_memory, query, read_memory,
    read_register, remove_command, v_command, write_memory, write_register,
};
use gdb_remote_protocol::response::{write_response, write_thread_id, Response};
use gdb_remote_protocol::text::same_text;
use gdb_remote_protocol::writer::{compute_checksum_incremental, PacketWriter};
use gdb_remote_protocol::{
    Breakpoint, Bytecode, Id, MemoryRegion, ProcessType, StopReason, ThreadId, Watchpoint,
};

fn sent(response: Response) -> Vec<u8> {
    let mut out = Vec::new();
    write_response(response, &mut out);
    out
}

fn text(response: Response) -> String {
    String::from_utf8(sent(response)).unwrap()
}

#[test]
fn packets_are_read_back() {
    assert_eq!(
        packet_or_response(b"$g#67$"),
        IResult::Done(&b"$"[..], Packet::Data(b"g".to_vec(), 0x67))
    );
    // Whatever the checksum says.
    assert_eq!(
        packet_or_response(b"$g#00"),
        IResult::Done(&b""[..], Packet::Data(b"g".to_vec(), 0))
    );
}

#[test]
fn parts_of_packets_are_incomplete() {
    let whole = b"$ab#c3";
    let sizes = [1, 2, 3, 4, 6, 6];
    for k in 0..6 {
        assert_eq!(
            packet_or_response(&whole[..k]),
            IResult::Incomplete(Needed::Size(sizes[k]))
        );
    }
}

#[test]
fn settled_packets_stay_settled() {
    assert_eq!(packet_or_response(b"x"), IResult::Error(ErrorKind::Alt));
    assert_eq!(packet_or_response(b"x$g#67"), IResult::Error(ErrorKind::Alt));
    assert_eq!(packet_or_response(b"$g#zz"), IResult::Error(ErrorKind::Alt));
    assert_eq!(packet(b"$g#zz"), IResult::Error(ErrorKind::MapRes));
    assert_eq!(packet(b"+"), IResult::Error(ErrorKind::Tag));
}

#[test]
fn checksums_are_read() {
    assert_eq!(checksum(b"+a"), IResult::Done(&b""[..], 10));
    assert_eq!(checksum(b"A1x"), IResult::Done(&b"x"[..], 0xa1));
    assert_eq!(checksum(b"a+"), IResult::Error(ErrorKind::MapRes));
    assert_eq!(checksum(b"++"), IResult::Error(ErrorKind::MapRes));
    assert_eq!(checksum(b"-1"), IResult::Error(ErrorKind::MapRes));
    assert_eq!(checksum(b"\xff\xff"), IResult::Error(ErrorKind::MapRes));
    assert_eq!(checksum(b"a"), IResult::Incomplete(Needed::Size(2)));
}

#[test]
fn checksums_can_be_taken_in_parts() {
    let whole = compute_checksum_incremental(b"qSupported", 3);
    let part = compute_checksum_incremental(b"qSup", 3);
    assert_eq!(compute_checksum_incremental(b"ported", part), whole);
    assert_eq!(compute_checksum_incremental(&[0xff, 0x02], 0), 1);
}

#[test]
fn numbers_are_written_and_read_back() {
    assert_eq!(hex_of(0), b"0".to_vec());
    assert_eq!(hex_of(0xdeadbeef), b"deadbeef".to_vec());
    assert_eq!(hex_of(u64::MAX), b"ffffffffffffffff".to_vec());
    assert_eq!(hex_value(&hex_of(u64::MAX)), IResult::Done(&b""[..], u64::MAX));
    assert_eq!(hex_value(b"0000000000000000000001g"), IResult::Done(&b"g"[..], 1));
    assert_eq!(hex_value(b"DEADbeef"), IResult::Done(&b""[..], 0xdeadbeef));
    assert_eq!(number_of_digits(b"10000000000000000"), None);
    assert_eq!(number_of_digits(b""), Some(0));
    assert_eq!(value_of_digit(b'F'), 15);
}

#[test]
fn bytes_are_written_and_read_back() {
    assert_eq!(hex_of_byte(0x0f), b"0f".to_vec());
    assert_eq!(text(Response::Bytes(vec![0xde, 0x01])), "$de01#2a");
    assert_eq!(hex_byte_sequence(b"de01"), IResult::Done(&b""[..], vec![0xde, 0x01]));
    assert_eq!(hex_byte_sequence(b"de01;"), IResult::Done(&b";"[..], vec![0xde, 0x01]));
    assert_eq!(hex_byte_sequence(b"de0;"), IResult::Done(&b"0;"[..], vec![0xde]));
    assert_eq!(hex_byte_sequence(b"de0"), IResult::Incomplete(Needed::Size(4)));
    assert_eq!(hex_byte_sequence(b"x"), IResult::Error(ErrorKind::Many1));
    assert_eq!(hex_byte(b"a"), IResult::Incomplete(Needed::Size(2)));
    assert_eq!(hex_byte(b"ag"), IResult::Error(ErrorKind::OneOf));
    assert_eq!(hex_digit(b"Fx"), IResult::Done(&b"x"[..], 'F'));
    assert_eq!(hex_digit(b""), IResult::Incomplete(Needed::Size(1)));
    assert_eq!(hex_digit(b":"), IResult::Error(ErrorKind::OneOf));
}

#[test]
fn binary_data_is_read_back() {
    assert_eq!(
        binary_byte_sequence(b"a}\x03}]b"),
        IResult::Done(&b""[..], vec![b'a', b'#', b'}', b'b'])
    );
    // A brace at the end stands for itself.
    assert_eq!(binary_byte(b"}"), IResult::Done(&b""[..], b'}'));
    assert_eq!(binary_byte(b""), IResult::Error(ErrorKind::Alt));
    assert_eq!(binary_byte_sequence(b""), IResult::Error(ErrorKind::Many1));
}

#[test]
fn threads_are_written_and_read_back() {
    let ids = [
        (ThreadId { pid: Id::Id(0x10), tid: Id::All }, &b"p10.-1"[..]),
        (ThreadId { pid: Id::Any, tid: Id::Id(u32::MAX - 1) }, b"p0.fffffffe"),
        (ThreadId { pid: Id::All, tid: Id::Any }, b"p-1.0"),
    ];
    for (id, written) in ids {
        let mut out = Vec::new();
        let mut writer = PacketWriter::new(&mut out);
        write_thread_id(&mut writer, id);
        assert_eq!(writer.checksum, compute_checksum_incremental(written, 0));
        assert_eq!(out, written.to_vec());
        assert_eq!(parse_thread_id(&out), IResult::Done(&b""[..], id));
    }
    // A leading zero is an id of its own.
    assert_eq!(parse_thread_id_element(b"023"), IResult::Done(&b"23"[..], Id::Any));
    assert_eq!(parse_thread_id_element(b"-2"), IResult::Error(ErrorKind::Alt));
    assert_eq!(parse_thread_id(b"p"), IResult::Error(ErrorKind::Alt));
    assert_eq!(parse_ping_thread(b"T1"), IResult::Done(&b""[..], ThreadId { pid: Id::Id(1), tid: Id::Any }));
    assert_eq!(parse_h_packet(b"Hg0"), IResult::Done(&b""[..], ThreadId { pid: Id::Any, tid: Id::Any }));
    assert_eq!(parse_h_packet(b"Hc0"), IResult::Error(ErrorKind::Tag));
}

#[test]
fn only_ids_that_may_occur_are_read() {
    assert_eq!(parse_thread_id_element(b"1"), IResult::Done(&b""[..], Id::Id(1)));
    assert_eq!(parse_thread_id_element(b"fffffffe"), IResult::Done(&b""[..], Id::Id(0xfffffffe)));
    // The low 32 bits of a number count.
    assert_eq!(parse_thread_id_element(b"100000002"), IResult::Done(&b""[..], Id::Id(2)));
    assert_eq!(
        command(b"T100000005"),
        IResult::Done(&b""[..], Command::PingThread(ThreadId { pid: Id::Id(5), tid: Id::Any }))
    );
    for refused in [&b"ffffffff"[..], b"100000000", b"1ffffffff", b"ffffffffffffffff"] {
        assert_eq!(parse_thread_id_element(refused), IResult::Error(ErrorKind::Alt));
        assert_eq!(parse_thread_id(refused), IResult::Error(ErrorKind::Alt));
    }
    assert_eq!(command(b"T100000000"), IResult::Error(ErrorKind::Alt));
    assert_eq!(command(b"Tffffffff"), IResult::Error(ErrorKind::Alt));
    assert_eq!(command(b"Hgp100000000.1"), IResult::Error(ErrorKind::Alt));
    assert_eq!(query(b"qThreadExtraInfo,ffffffff"), IResult::Error(ErrorKind::Alt));
    assert_eq!(
        parse_thread_id(b"p5.100000007"),
        IResult::Done(&b""[..], ThreadId { pid: Id::Id(5), tid: Id::Id(7) })
    );
    // A thread that may not occur is not taken for all threads of its process.
    assert_eq!(parse_thread_id(b"p1.ffffffff"), IResult::Error(ErrorKind::Alt));
    assert_eq!(parse_thread_id(b"p1.100000000"), IResult::Error(ErrorKind::Alt));
    assert_eq!(parse_thread_id(b"pffffffff"), IResult::Error(ErrorKind::Alt));
    // What is no thread at all is left over.
    assert_eq!(
        parse_thread_id(b"p1.x"),
        IResult::Done(&b".x"[..], ThreadId { pid: Id::Id(1), tid: Id::All })
    );
    assert_eq!(
        parse_thread_id(b"p1."),
        IResult::Done(&b"."[..], ThreadId { pid: Id::Id(1), tid: Id::All })
    );
}

#[test]
fn requests_are_read_back() {
    let region = MemoryRegion::new(0x10, 2);
    let watch = Watchpoint::new(0x20, 4);
    let lists = Breakpoint::new(
        1,
        2,
        Some(vec![Bytecode { bytecode: vec![0x58, 0x3b] }, Bytecode { bytecode: vec![] }]),
        Some(vec![Bytecode { bytecode: b"z".to_vec() }]),
    );
    let requests: Vec<(&[u8], Command)> = vec![
        (b"D", Command::Detach(None)),
        (b"D;f", Command::Detach(Some(15))),
        (b"!", Command::EnableExtendedMode),
        (b"?", Command::TargetHaltReason),
        (b"g", Command::ReadGeneralRegisters),
        (b"G01", Command::WriteGeneralRegisters(vec![1])),
        (b"p2", Command::ReadRegister(2)),
        (b"P2=03", Command::WriteRegister(2, vec![3])),
        (b"k", Command::Kill(None)),
        (b"vKill;a", Command::Kill(Some(10))),
        (b"m10,2", Command::ReadMemory(MemoryRegion::new(0x10, 2))),
        (b"M10,2:0123", Command::WriteMemory(region.clone(), vec![1, 0x23])),
        (b"X10,2:\x01}\x03", Command::WriteMemory(region, vec![1, 0x23])),
        (b"r", Command::Reset),
        (b"T1", Command::PingThread(ThreadId { pid: Id::Id(1), tid: Id::Any })),
        (b"vCtrlC", Command::CtrlC),
        (b"v", Command::UnknownVCommand),
        (b"Hg1", Command::SetCurrentThread(ThreadId { pid: Id::Id(1), tid: Id::Any })),
        (b"Z0,1,2;X2,X;X0,;cmdsX1,z", Command::InsertSoftwareBreakpoint(lists)),
        (b"Z2,20,4", Command::InsertWriteWatchpoint(watch)),
        (b"z2,20,4", Command::RemoveWriteWatchpoint(watch)),
        (b"s", Command::Step),
        (b"c", Command::Continue),
        (b"qC", Command::Query(Query::CurrentThread)),
        (b"qAttached", Command::Query(Query::Attached(None))),
        (b"qAttached:1", Command::Query(Query::Attached(Some(1)))),
        (b"QStartNoAckMode", Command::Query(Query::StartNoAckMode)),
        (
            b"qSearch:memory:1;2;03",
            Command::Query(Query::SearchMemory { address: 1, length: 2, bytes: vec![3] }),
        ),
    ];
    for (data, expected) in requests {
        assert_eq!(command(data), IResult::Done(&b""[..], expected));
    }
}

#[test]
fn the_first_byte_decides() {
    assert_eq!(command(b""), IResult::Incomplete(Needed::Size(1)));
    assert_eq!(command(b"A"), IResult::Error(ErrorKind::Alt));
    assert_eq!(command(b"Q"), IResult::Error(ErrorKind::Alt));
    // Some of the packets with a letter of their own ask for more.
    assert_eq!(command(b"p"), IResult::Incomplete(Needed::Size(2)));
    assert_eq!(command(b"H"), IResult::Incomplete(Needed::Size(2)));
    assert_eq!(command(b"R0"), IResult::Incomplete(Needed::Size(3)));
    assert_eq!(command(b"Z"), IResult::Error(ErrorKind::Alt));
    assert_eq!(command(b"Z0,"), IResult::Incomplete(Needed::Size(4)));
    assert_eq!(command(b"m1,"), IResult::Incomplete(Needed::Size(4)));
    assert_eq!(command(b"m1;"), IResult::Error(ErrorKind::Alt));
    assert_eq!(command(b"gxyz"), IResult::Done(&b"xyz"[..], Command::ReadGeneralRegisters));
    assert_eq!(command(b"qCRC:0,1"), IResult::Done(&b"RC:0,1"[..], Command::Query(Query::CurrentThread)));
    assert_eq!(command(b"vCont;c"), IResult::Done(&b""[..], Command::UnknownVCommand));
    assert_eq!(v_command(b"vKill;x"), IResult::Done(&b""[..], Command::UnknownVCommand));
    assert_eq!(v_command(b"w"), IResult::Error(ErrorKind::Alt));
}

#[test]
fn parts_of_requests_are_read() {
    assert_eq!(read_memory(b"m1,2"), IResult::Done(&b""[..], (1, 2)));
    assert_eq!(read_register(b"p1f"), IResult::Done(&b""[..], 0x1f));
    assert_eq!(write_register(b"P1:"), IResult::Error(ErrorKind::Tag));
    assert_eq!(write_memory(b"M1,2"), IResult::Error(ErrorKind::Complete));
    assert_eq!(
        q_search_memory(b"qSearch:memory:10;2;ff"),
        IResult::Done(&b""[..], (16, 2, vec![255]))
    );
    assert_eq!(q_search_memory(b"qSearch:memory:10"), IResult::Error(ErrorKind::Complete));
    assert_eq!(parse_d_packet(b"D;x"), IResult::Done(&b";x"[..], None));
    assert_eq!(parse_z_action(b"z"), IResult::Done(&b""[..], ZAction::Remove));
    assert_eq!(parse_z_type(b"4"), IResult::Done(&b""[..], ZType::AccessWatchpoint));
    assert_eq!(parse_z_type(b"5"), IResult::Error(ErrorKind::Alt));
    assert_eq!(parse_z_type(b""), IResult::Error(ErrorKind::Alt));
    assert_eq!(
        insert_command(b"x", ZType::ReadWatchpoint, 1, 2),
        IResult::Done(&b"x"[..], Command::InsertReadWatchpoint(Watchpoint::new(1, 2)))
    );
    assert_eq!(
        remove_command(ZType::HardwareBreakpoint, 1, 2),
        Command::RemoveHardwareBreakpoint(Breakpoint::new(1, 2, None, None))
    );
    assert_eq!(parse_z_packet(b"Z2,1;2"), IResult::Error(ErrorKind::Tag));
}

#[test]
fn lists_of_a_breakpoint_are_read() {
    let expr = |bytes: &[u8]| Bytecode { bytecode: bytes.to_vec() };
    assert_eq!(
        parse_cond_or_command_expression(b"X2,abc"),
        IResult::Done(&b"c"[..], expr(b"ab"))
    );
    assert_eq!(
        parse_cond_or_command_expression(b"X2,a"),
        IResult::Incomplete(Needed::Size(5))
    );
    assert_eq!(parse_condition_list(b";"), IResult::Incomplete(Needed::Size(2)));
    assert_eq!(maybe_condition_list(b";cmds"), IResult::Done(&b";cmds"[..], None));
    assert_eq!(maybe_condition_list(b""), IResult::Done(&b""[..], None));
    // What looks like a list but is none is left where it is.
    assert_eq!(maybe_condition_list(b";X2,a"), IResult::Done(&b";X2,a"[..], None));
    assert_eq!(maybe_condition_list(b";X1,aX9,b"), IResult::Done(&b";X1,aX9,b"[..], None));
    assert_eq!(
        maybe_condition_list(b";X01,aX0,rest"),
        IResult::Done(&b"rest"[..], Some(vec![expr(b"a"), expr(b"")]))
    );
    assert_eq!(maybe_command_list(b";cm"), IResult::Done(&b";cm"[..], None));
    assert_eq!(maybe_command_list(b"x"), IResult::Error(ErrorKind::Tag));
    assert_eq!(maybe_command_list(b";cmdsY"), IResult::Error(ErrorKind::Alt));
    // A persistence flag is read and dropped.
    assert_eq!(parse_command_list(b";cmds1,X1,a"), IResult::Done(&b""[..], vec![expr(b"a")]));
    assert_eq!(
        parse_cond_and_command_list(b";X1,a;cmdsX1,b"),
        IResult::Done(&b""[..], (Some(vec![expr(b"a")]), Some(vec![expr(b"b")])))
    );
}

#[test]
fn features_are_read() {
    assert_eq!(gdbfeature(b"no-resumed="), IResult::Done(&b"="[..], Known::Yes(GDBFeature::no_resumed)));
    assert_eq!(gdbfeature(b"no_resumed"), IResult::Done(&b""[..], Known::No("no_resumed")));
    assert_eq!(gdbfeature(b"exec-events"), IResult::Done(&b""[..], Known::Yes(GDBFeature::exec_events)));
    assert_eq!(gdbfeature(b"\xff"), IResult::Error(ErrorKind::MapRes));
    assert_eq!(gdbfeature(b"=x"), IResult::Error(ErrorKind::IsNot));
    assert_eq!(gdbfeature("\u{e9}t\u{e9}".as_bytes()), IResult::Done(&b""[..], Known::No("\u{e9}t\u{e9}")));
    assert_eq!(
        gdbfeaturesupported(b"swbreak+;hwbreak+"),
        IResult::Done(
            &b";hwbreak+"[..],
            GDBFeatureSupported(Known::Yes(GDBFeature::swbreak), FeatureSupported::Yes)
        )
    );
    assert_eq!(gdbfeaturesupported(b""), IResult::Incomplete(Needed::Size(2)));
    assert_eq!(gdbfeaturesupported(b"swbreak"), IResult::Incomplete(Needed::Size(8)));
    assert_eq!(gdbfeaturesupported(b"swbreak?"), IResult::Incomplete(Needed::Size(9)));
    assert_eq!(
        gdbfeaturesupported(b"a="),
        IResult::Done(&b""[..], GDBFeatureSupported(Known::No("a"), FeatureSupported::Value("")))
    );
    assert!(same_text("abc", "abc") && !same_text("abc", "abd") && !same_text("ab", "abc"));
}

#[test]
fn lists_of_queries_are_read() {
    assert_eq!(query(b"qSupported:"), IResult::Done(&b""[..], Query::SupportedFeatures(vec![])));
    assert_eq!(
        query(b"qSupported:swbreak+;"),
        IResult::Done(
            &b";"[..],
            Query::SupportedFeatures(vec![GDBFeatureSupported(
                Known::Yes(GDBFeature::swbreak),
                FeatureSupported::Yes
            )])
        )
    );
    assert_eq!(query(b"qSupported"), IResult::Error(ErrorKind::Alt));
    assert_eq!(query(b"QPassSignals:"), IResult::Error(ErrorKind::Alt));
    assert_eq!(query(b"QPassSignals:1;x"), IResult::Done(&b";x"[..], Query::PassSignals(vec![1])));
    assert_eq!(query(b"QCatchSyscalls:1;"), IResult::Error(ErrorKind::Alt));
    assert_eq!(query(b"QCatchSyscalls:1;1x"), IResult::Done(&b"x"[..], Query::CatchSyscalls(Some(vec![1]))));
    assert_eq!(query(b"qAttached;"), IResult::Done(&b";"[..], Query::Attached(None)));
}

#[test]
fn answers_are_read_back() {
    let sent = sent(Response::SearchResult(Some(0xbeef)));
    assert_eq!(
        packet_or_response(&sent),
        IResult::Done(
            &b""[..],
            Packet::Data(b"1,beef".to_vec(), compute_checksum_incremental(b"1,beef", 0))
        )
    );
}

#[test]
fn only_text_puts_marks_into_answers() {
    for response in [
        Response::Output("$#".to_string()),
        Response::Bytes(vec![0x24, 0x23]),
        Response::Error(0x24),
        Response::Stopped(StopReason::Signal(0x23)),
    ] {
        let sent = sent(response);
        let body = &sent[1..sent.len() - 3];
        assert!(!body.contains(&b'$') && !body.contains(&b'#'));
    }
    assert_eq!(text(Response::String("$#".into())), "$$##47");
}

#[test]
fn every_answer_is_written() {
    let id = ThreadId { pid: Id::Id(1), tid: Id::Any };
    assert_eq!(text(Response::String("a b".into())), "$a b#e3");
    assert_eq!(text(Response::Output("hi".to_string())), "$O6869#2c");
    assert_eq!(text(Response::CurrentThread(None)), "$OK#9a");
    assert_eq!(text(Response::ProcessType(ProcessType::Attached)), "$1#31");
    assert_eq!(text(Response::ProcessType(ProcessType::Created)), "$0#30");
    assert_eq!(text(Response::SearchResult(None)), "$0#30");
    assert_eq!(text(Response::Stopped(StopReason::Signal(5))), "$S05#b8");
    assert_eq!(text(Response::Stopped(StopReason::Exited(1, 10))), "$W0a;process:1#8d");
    assert_eq!(text(Response::Stopped(StopReason::ExitedWithSignal(1, 10))), "$X0a;process:1#8e");
    assert_eq!(text(Response::Stopped(StopReason::ExitedWithSignal(0x10, 9))), "$X09;process:10#96");
    assert_eq!(text(Response::Stopped(StopReason::ThreadExited(id, 0x10))), "$w10;p1.0#12");
    assert_eq!(text(Response::Stopped(StopReason::NoMoreThreads)), "$N#4e");
}
