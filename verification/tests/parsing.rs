use gdb_remote_protocol::model::{
    Command, FeatureSupported, GDBFeature, GDBFeatureSupported, Known, Packet, Query,
};
use gdb_remote_protocol::outcome::{ErrorKind, IResult, Needed};
use gdb_remote_protocol::parse::{
    checksum, gdbfeature, gdbfeaturesupported, hex_value, packet, packet_or_response,
    parse_command_list, parse_condition_list, parse_d_packet, parse_thread_id,
    parse_thread_id_element, parse_z_packet, query, v_command, write_general_registers,
    write_memory, write_memory_binary, write_register,
};
use gdb_remote_protocol::response::{write_response, Response};
use gdb_remote_protocol::writer::compute_checksum_incremental;
use gdb_remote_protocol::{Breakpoint, Bytecode, Id, ThreadId, Watchpoint};

#[test]
fn test_compute_checksum() {
    assert_eq!(compute_checksum_incremental(&b""[..], 0), 0);
    assert_eq!(compute_checksum_incremental(&b"qSupported:multiprocess+;xmlRegisters=i386;qRelocInsn+"[..],
                                0),
               0xb5);
}

#[test]
fn test_checksum() {
    assert_eq!(checksum(&b"00"[..]), IResult::Done(&b""[..], 0));
    assert_eq!(checksum(&b"a1"[..]), IResult::Done(&b""[..], 0xa1));
    assert_eq!(checksum(&b"1d"[..]), IResult::Done(&b""[..], 0x1d));
    assert_eq!(checksum(&b"ff"[..]), IResult::Done(&b""[..], 0xff));
}

#[test]
fn test_packet() {
    assert_eq!(packet(&b"$#00"[..]), IResult::Done(&b""[..], (b""[..].to_vec(), 0)));
    assert_eq!(packet(&b"$xyz#00"[..]), IResult::Done(&b""[..], (b"xyz"[..].to_vec(), 0)));
    assert_eq!(packet(&b"$a#a1"[..]), IResult::Done(&b""[..], (b"a"[..].to_vec(), 0xa1)));
    assert_eq!(packet(&b"$foo#ffxyz"[..]), IResult::Done(&b"xyz"[..], (b"foo"[..].to_vec(), 0xff)));
    assert_eq!(packet(&b"$qSupported:multiprocess+;xmlRegisters=i386;qRelocInsn+#b5"[..]),
               IResult::Done(&b""[..],
                    (b"qSupported:multiprocess+;xmlRegisters=i386;qRelocInsn+"[..].to_vec(),
                     0xb5)));
    assert_eq!(packet(&b"$"[..]), IResult::Incomplete(Needed::Size(2)));
    assert_eq!(packet(&b"$#"[..]), IResult::Incomplete(Needed::Size(4)));
    assert_eq!(packet(&b"$xyz"[..]), IResult::Incomplete(Needed::Size(5)));
    assert_eq!(packet(&b"$xyz#"[..]), IResult::Incomplete(Needed::Size(7)));
    assert_eq!(packet(&b"$xyz#a"[..]), IResult::Incomplete(Needed::Size(7)));
}

#[test]
fn test_packet_or_response() {
    assert_eq!(packet_or_response(&b"$#00"[..]), IResult::Done(&b""[..], Packet::Data(b""[..].to_vec(), 0)));
    assert_eq!(packet_or_response(&b"+"[..]), IResult::Done(&b""[..], Packet::Ack));
    assert_eq!(packet_or_response(&b"-"[..]), IResult::Done(&b""[..], Packet::Nack));
}

#[test]
fn test_gdbfeaturesupported() {
    assert_eq!(gdbfeaturesupported(&b"multiprocess+"[..]),
               IResult::Done(&b""[..], GDBFeatureSupported(Known::Yes(GDBFeature::multiprocess),
                                                  FeatureSupported::Yes)));
    assert_eq!(gdbfeaturesupported(&b"xmlRegisters=i386"[..]),
               IResult::Done(&b""[..], GDBFeatureSupported(Known::Yes(GDBFeature::xmlRegisters),
                                                  FeatureSupported::Value("i386"))));
    assert_eq!(gdbfeaturesupported(&b"qRelocInsn-"[..]),
               IResult::Done(&b""[..], GDBFeatureSupported(Known::Yes(GDBFeature::qRelocInsn),
                                                  FeatureSupported::No)));
    assert_eq!(gdbfeaturesupported(&b"vfork-events+"[..]),
               IResult::Done(&b""[..], GDBFeatureSupported(Known::Yes(GDBFeature::vfork_events),
                                                  FeatureSupported::Yes)));
    assert_eq!(gdbfeaturesupported(&b"vfork-events-"[..]),
               IResult::Done(&b""[..], GDBFeatureSupported(Known::Yes(GDBFeature::vfork_events),
                                                  FeatureSupported::No)));
    assert_eq!(gdbfeaturesupported(&b"unknown-feature+"[..]),
               IResult::Done(&b""[..], GDBFeatureSupported(Known::No("unknown-feature"),
                                                  FeatureSupported::Yes)));
    assert_eq!(gdbfeaturesupported(&b"unknown-feature-"[..]),
               IResult::Done(&b""[..], GDBFeatureSupported(Known::No("unknown-feature"),
                                                  FeatureSupported::No)));
}

#[test]
fn test_gdbfeature() {
    assert_eq!(gdbfeature(&b"multiprocess"[..]),
               IResult::Done(&b""[..], Known::Yes(GDBFeature::multiprocess)));
    assert_eq!(gdbfeature(&b"fork-events"[..]),
               IResult::Done(&b""[..], Known::Yes(GDBFeature::fork_events)));
    assert_eq!(gdbfeature(&b"some-unknown-feature"[..]),
               IResult::Done(&b""[..], Known::No("some-unknown-feature")));
}

#[test]
fn test_query() {
    // From a gdbserve packet capture.
    let b = "qSupported:multiprocess+;swbreak+;hwbreak+;qRelocInsn+;fork-events+;\
             vfork-events+;exec-events+;vContSupported+;QThreadEvents+;no-resumed+;\
             xmlRegisters=i386";
    assert_eq!(query(b.as_bytes()),
               IResult::Done(&b""[..], Query::SupportedFeatures(vec![
                   GDBFeatureSupported(Known::Yes(GDBFeature::multiprocess), FeatureSupported::Yes),
                   GDBFeatureSupported(Known::Yes(GDBFeature::swbreak), FeatureSupported::Yes),
                   GDBFeatureSupported(Known::Yes(GDBFeature::hwbreak), FeatureSupported::Yes),
                   GDBFeatureSupported(Known::Yes(GDBFeature::qRelocInsn), FeatureSupported::Yes),
                   GDBFeatureSupported(Known::Yes(GDBFeature::fork_events), FeatureSupported::Yes),
                   GDBFeatureSupported(Known::Yes(GDBFeature::vfork_events), FeatureSupported::Yes),
                   GDBFeatureSupported(Known::Yes(GDBFeature::exec_events), FeatureSupported::Yes),
                   GDBFeatureSupported(Known::Yes(GDBFeature::vContSupported),
                                       FeatureSupported::Yes),
                   GDBFeatureSupported(Known::Yes(GDBFeature::QThreadEvents),
                                       FeatureSupported::Yes),
                   GDBFeatureSupported(Known::Yes(GDBFeature::no_resumed), FeatureSupported::Yes),
                   GDBFeatureSupported(Known::Yes(GDBFeature::xmlRegisters),
                                       FeatureSupported::Value("i386")),
                   ])));
}

#[test]
fn test_hex_value() {
    assert_eq!(hex_value(&b""[..]), IResult::Incomplete(Needed::Size(1)));
    assert_eq!(hex_value(&b","[..]), IResult::Error(ErrorKind::TakeWhile1));
    assert_eq!(hex_value(&b"a"[..]), IResult::Done(&b""[..], 0xa));
    assert_eq!(hex_value(&b"10,"[..]), IResult::Done(&b","[..], 0x10));
    assert_eq!(hex_value(&b"ff"[..]), IResult::Done(&b""[..], 0xff));
}

#[test]
fn test_parse_thread_id_element() {
    assert_eq!(parse_thread_id_element(&b"0"[..]), IResult::Done(&b""[..], Id::Any));
    assert_eq!(parse_thread_id_element(&b"-1"[..]), IResult::Done(&b""[..], Id::All));
    assert_eq!(parse_thread_id_element(&b"23"[..]), IResult::Done(&b""[..], Id::Id(0x23)));
}

#[test]
fn test_parse_thread_id() {
    assert_eq!(parse_thread_id(&b"0"[..]),
               IResult::Done(&b""[..], ThreadId{pid: Id::Any, tid: Id::Any}));
    assert_eq!(parse_thread_id(&b"-1"[..]),
               IResult::Done(&b""[..], ThreadId{pid: Id::All, tid: Id::Any}));
    assert_eq!(parse_thread_id(&b"23"[..]),
               IResult::Done(&b""[..], ThreadId{pid: Id::Id(0x23), tid: Id::Any}));

    assert_eq!(parse_thread_id(&b"p23"[..]),
               IResult::Done(&b""[..], ThreadId{pid: Id::Id(0x23), tid: Id::All}));

    assert_eq!(parse_thread_id(&b"p0.0"[..]),
               IResult::Done(&b""[..], ThreadId{pid: Id::Any, tid: Id::Any}));
    assert_eq!(parse_thread_id(&b"p-1.23"[..]),
               IResult::Done(&b""[..], ThreadId{pid: Id::All, tid: Id::Id(0x23)}));
    assert_eq!(parse_thread_id(&b"pff.23"[..]),
               IResult::Done(&b""[..], ThreadId{pid: Id::Id(0xff), tid: Id::Id(0x23)}));
}

#[test]
fn test_parse_v_commands() {
    assert_eq!(v_command(&b"vKill;33"[..]),
               IResult::Done(&b""[..], Command::Kill(Some(0x33))));
    assert_eq!(v_command(&b"vCtrlC"[..]),
               IResult::Done(&b""[..], Command::CtrlC));
    assert_eq!(v_command(&b"vMustReplyEmpty"[..]),
               IResult::Done(&b""[..], Command::UnknownVCommand));
    assert_eq!(v_command(&b"vFile:close:0"[..]),
               IResult::Done(&b""[..], Command::UnknownVCommand));
}

#[test]
fn test_parse_d_packets() {
    assert_eq!(parse_d_packet(&b"D"[..]),
               IResult::Done(&b""[..], None));
    assert_eq!(parse_d_packet(&b"D;f0"[..]),
               IResult::Done(&b""[..], Some(240)));
}

#[test]
fn test_parse_write_memory() {
    assert_eq!(write_memory(&b"Mf0,3:ff0102"[..]),
               IResult::Done(&b""[..], (240, 3, vec!(255, 1, 2))));
}

#[test]
fn test_parse_write_memory_binary() {
    assert_eq!(write_memory_binary(&b"Xf0,1: "[..]),
               IResult::Done(&b""[..], (240, 1, vec!(0x20))));
    assert_eq!(write_memory_binary(&b"X90,10:}\x5d"[..]),
               IResult::Done(&b""[..], (144, 16, vec!(0x7d))));
    assert_eq!(write_memory_binary(&b"X5,100:}\x5d}\x03"[..]),
               IResult::Done(&b""[..], (5, 256, vec!(0x7d, 0x23))));
    assert_eq!(write_memory_binary(&b"Xff,2:}\x04\x9a"[..]),
               IResult::Done(&b""[..], (255, 2, vec!(0x24, 0x9a))));
    assert_eq!(write_memory_binary(&b"Xff,2:\xce}\x0a\x9a"[..]),
               IResult::Done(&b""[..], (255, 2, vec!(0xce, 0x2a, 0x9a))));
}

#[test]
fn test_parse_qrcmd() {
    assert_eq!(query(&b"qRcmd,736f6d657468696e67"[..]),
               IResult::Done(&b""[..], Query::Invoke(b"something".to_vec())));
}

#[test]
fn test_parse_randomization() {
    assert_eq!(query(&b"QDisableRandomization:0"[..]),
               IResult::Done(&b""[..], Query::AddressRandomization(true)));
    assert_eq!(query(&b"QDisableRandomization:1"[..]),
               IResult::Done(&b""[..], Query::AddressRandomization(false)));
}

#[test]
fn test_parse_syscalls() {
    assert_eq!(query(&b"QCatchSyscalls:0"[..]),
               IResult::Done(&b""[..], Query::CatchSyscalls(None)));
    assert_eq!(query(&b"QCatchSyscalls:1"[..]),
               IResult::Done(&b""[..], Query::CatchSyscalls(Some(vec!()))));
    assert_eq!(query(&b"QCatchSyscalls:1;0;1;ff"[..]),
               IResult::Done(&b""[..], Query::CatchSyscalls(Some(vec!(0, 1, 255)))));
}

#[test]
fn test_parse_signals() {
    assert_eq!(query(&b"QPassSignals:0"[..]),
               IResult::Done(&b""[..], Query::PassSignals(vec!(0))));
    assert_eq!(query(&b"QPassSignals:1;2;ff"[..]),
               IResult::Done(&b""[..], Query::PassSignals(vec!(1, 2, 255))));
    assert_eq!(query(&b"QProgramSignals:0"[..]),
               IResult::Done(&b""[..], Query::ProgramSignals(vec!(0))));
    assert_eq!(query(&b"QProgramSignals:1;2;ff"[..]),
               IResult::Done(&b""[..], Query::ProgramSignals(vec!(1, 2, 255))));
}

#[test]
fn test_thread_info() {
    assert_eq!(query(&b"qThreadExtraInfo,ffff"[..]),
               IResult::Done(&b""[..], Query::ThreadInfo(ThreadId { pid: Id::Id(65535), tid: Id::Any })));
}

#[test]
fn test_parse_write_register() {
    assert_eq!(write_register(&b"Pff=1020"[..]),
               IResult::Done(&b""[..], (255, vec!(16, 32))));
}

#[test]
fn test_parse_write_general_registers() {
    assert_eq!(write_general_registers(&b"G0001020304"[..]),
               IResult::Done(&b""[..], vec!(0, 1, 2, 3, 4)));
}

fn write_one(input: Response) -> Result<String, std::string::FromUtf8Error> {
    let mut result = Vec::new();
    write_response(input, &mut result);
    String::from_utf8(result)
}

#[test]
fn test_write_response() {
    assert_eq!(write_one(Response::Empty).unwrap(), "$#00");
    assert_eq!(write_one(Response::Okay).unwrap(), "$OK#9a");
    assert_eq!(write_one(Response::Error(1)).unwrap(), "$E01#a6");

    assert_eq!(write_one(Response::CurrentThread(Some(ThreadId {
        pid: Id::Id(255),
        tid: Id::Id(1)
    }))).unwrap(),
               "$QCpff.1#2f");
}

fn bytecode(bytes: Vec<u8>) -> Bytecode {
    Bytecode { bytecode: bytes }
}

#[test]
fn test_breakpoints() {
    assert_eq!(parse_z_packet(&b"Z0,1ff,0"[..]),
               IResult::Done(&b""[..], Command::InsertSoftwareBreakpoint(Breakpoint::new(0x1ff, 0, None, None))));
    assert_eq!(parse_z_packet(&b"z0,1fff,0"[..]),
               IResult::Done(&b""[..], Command::RemoveSoftwareBreakpoint(Breakpoint::new(0x1fff, 0, None, None))));
    assert_eq!(parse_z_packet(&b"Z1,ae,0"[..]),
               IResult::Done(&b""[..], Command::InsertHardwareBreakpoint(Breakpoint::new(0xae, 0, None, None))));
    assert_eq!(parse_z_packet(&b"z1,aec,0"[..]),
               IResult::Done(&b""[..], Command::RemoveHardwareBreakpoint(Breakpoint::new(0xaec, 0, None, None))));
    assert_eq!(parse_z_packet(&b"Z2,4cc,2"[..]),
               IResult::Done(&b""[..], Command::InsertWriteWatchpoint(Watchpoint::new(0x4cc, 2))));
    assert_eq!(parse_z_packet(&b"z2,4ccf,4"[..]),
               IResult::Done(&b""[..], Command::RemoveWriteWatchpoint(Watchpoint::new(0x4ccf, 4))));
    assert_eq!(parse_z_packet(&b"Z3,7777,4"[..]),
               IResult::Done(&b""[..], Command::InsertReadWatchpoint(Watchpoint::new(0x7777, 4))));
    assert_eq!(parse_z_packet(&b"z3,77778,8"[..]),
               IResult::Done(&b""[..], Command::RemoveReadWatchpoint(Watchpoint::new(0x77778, 8))));
    assert_eq!(parse_z_packet(&b"Z4,7777,10"[..]),
               IResult::Done(&b""[..], Command::InsertAccessWatchpoint(Watchpoint::new(0x7777, 16))));
    assert_eq!(parse_z_packet(&b"z4,77778,20"[..]),
               IResult::Done(&b""[..], Command::RemoveAccessWatchpoint(Watchpoint::new(0x77778, 32))));

    assert_eq!(parse_z_packet(&b"Z0,1ff,2;X1,0"[..]),
               IResult::Done(&b""[..], Command::InsertSoftwareBreakpoint(Breakpoint::new(0x1ff, 2,
                                                                Some(vec!(bytecode(vec!('0' as u8)))), None))));
    assert_eq!(parse_z_packet(&b"Z1,1ff,2;X1,0"[..]),
               IResult::Done(&b""[..], Command::InsertHardwareBreakpoint(Breakpoint::new(0x1ff, 2,
                                                                Some(vec!(bytecode(vec!('0' as u8)))), None))));

    assert_eq!(parse_z_packet(&b"Z0,1ff,2;cmdsX1,z"[..]),
               IResult::Done(&b""[..], Command::InsertSoftwareBreakpoint(Breakpoint::new(0x1ff, 2,
                                                                None, Some(vec!(bytecode(vec!('z' as u8))))))));
    assert_eq!(parse_z_packet(&b"Z1,1ff,2;cmdsX1,z"[..]),
               IResult::Done(&b""[..], Command::InsertHardwareBreakpoint(Breakpoint::new(0x1ff, 2,
                                                                None, Some(vec!(bytecode(vec!('z' as u8))))))));

    assert_eq!(parse_z_packet(&b"Z0,1ff,2;X1,0;cmdsX1,a"[..]),
               IResult::Done(&b""[..], Command::InsertSoftwareBreakpoint(Breakpoint::new(0x1ff, 2,
                                                                Some(vec!(bytecode(vec!('0' as u8)))),
                                                                Some(vec!(bytecode(vec!('a' as u8))))))));
    assert_eq!(parse_z_packet(&b"Z1,1ff,2;X1,0;cmdsX1,a"[..]),
               IResult::Done(&b""[..], Command::InsertHardwareBreakpoint(Breakpoint::new(0x1ff, 2,
                                                                Some(vec!(bytecode(vec!('0' as u8)))),
                                                                Some(vec!(bytecode(vec!('a' as u8))))))));
}

#[test]
fn test_cond_or_command_list() {
    assert_eq!(parse_condition_list(&b";X1,a"[..]),
               IResult::Done(&b""[..], vec!(bytecode(vec!('a' as u8)))));
    assert_eq!(parse_condition_list(&b";X2,ab"[..]),
               IResult::Done(&b""[..], vec!(bytecode(vec!('a' as u8, 'b' as u8)))));
    assert_eq!(parse_condition_list(&b";X1,zX1,y"[..]),
               IResult::Done(&b""[..], vec!(bytecode(vec!('z' as u8)),
                                   bytecode(vec!('y' as u8)))));
    assert_eq!(parse_condition_list(&b";X1,zX10,yyyyyyyyyyyyyyyy"[..]),
               IResult::Done(&b""[..], vec!(bytecode(vec!('z' as u8)),
                                   bytecode(vec!['y' as u8; 16]))));

    assert_eq!(parse_command_list(&b";cmdsX1,a"[..]),
               IResult::Done(&b""[..], vec!(bytecode(vec!('a' as u8)))));
    assert_eq!(parse_command_list(&b";cmdsX2,ab"[..]),
               IResult::Done(&b""[..], vec!(bytecode(vec!('a' as u8, 'b' as u8)))));
    assert_eq!(parse_command_list(&b";cmdsX1,zX1,y"[..]),
               IResult::Done(&b""[..], vec!(bytecode(vec!('z' as u8)),
                                   bytecode(vec!('y' as u8)))));
    assert_eq!(parse_command_list(&b";cmdsX1,zX10,yyyyyyyyyyyyyyyy"[..]),
               IResult::Done(&b""[..], vec!(bytecode(vec!('z' as u8)),
                                   bytecode(vec!['y' as u8; 16]))));
}
