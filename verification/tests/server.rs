use gdb_remote_protocol::model::{GDBFeatureSupported, Packet};
use gdb_remote_protocol::response::Response;
use gdb_remote_protocol::server::{
    can_handle, features_response, handle_packet, handle_supported_features, invoke_outcome,
    offset, outcome_of, respond_to, run_parser, Session, MAX_PACKET_SIZE,
};
use gdb_remote_protocol::{
    Breakpoint, Error, Handler, Id, MemoryRegion, ProcessType, StopReason, ThreadId, Watchpoint,
};
use std::cell::RefCell;

/// A handler with nothing but what every handler has to have.
struct Plain;

impl Handler for Plain {
    fn attached(&self, _pid: Option<u64>) -> Result<ProcessType, Error> {
        Ok(ProcessType::Created)
    }

    fn halt_reason(&self) -> Result<StopReason, Error> {
        Ok(StopReason::Signal(5))
    }
}

/// A handler that writes down what it is asked.
struct Recorder {
    calls: RefCell<Vec<String>>,
}

impl Recorder {
    fn new() -> Recorder {
        Recorder { calls: RefCell::new(Vec::new()) }
    }

    fn note(&self, call: String) {
        self.calls.borrow_mut().push(call);
    }
}

impl Handler for Recorder {
    fn query_supported_features(&self) -> Vec<String> {
        vec!["swbreak+".to_string(), "hwbreak-".to_string()]
    }

    fn attached(&self, pid: Option<u64>) -> Result<ProcessType, Error> {
        self.note(format!("attached {:?}", pid));
        Ok(ProcessType::Attached)
    }

    fn detach(&self, pid: Option<u64>) -> Result<(), Error> {
        self.note(format!("detach {:?}", pid));
        Ok(())
    }

    fn kill(&self, pid: Option<u64>) -> Result<(), Error> {
        self.note(format!("kill {:?}", pid));
        Err(Error::Error(0x1c))
    }

    fn ping_thread(&self, id: ThreadId) -> Result<(), Error> {
        self.note(format!("ping {:?}", id));
        Ok(())
    }

    fn read_memory(&self, region: MemoryRegion) -> Result<Vec<u8>, Error> {
        self.note(format!("read {:x} {:x}", region.address, region.length));
        Ok(vec![0xde, 0xad, 0x00])
    }

    fn write_memory(&self, address: u64, bytes: &[u8]) -> Result<(), Error> {
        self.note(format!("write {:x} {:?}", address, bytes));
        Ok(())
    }

    fn read_register(&self, register: u64) -> Result<Vec<u8>, Error> {
        self.note(format!("register {:x}", register));
        Ok(vec![0x0a])
    }

    fn write_register(&self, register: u64, contents: &[u8]) -> Result<(), Error> {
        self.note(format!("set register {:x} {:?}", register, contents));
        Err(Error::Unimplemented)
    }

    fn read_general_registers(&self) -> Result<Vec<u8>, Error> {
        Ok(vec![1, 2])
    }

    fn write_general_registers(&self, contents: &[u8]) -> Result<(), Error> {
        self.note(format!("set registers {:?}", contents));
        Ok(())
    }

    fn current_thread(&self) -> Result<Option<ThreadId>, Error> {
        Ok(Some(ThreadId { pid: Id::Id(255), tid: Id::Id(1) }))
    }

    fn set_current_thread(&self, id: ThreadId) -> Result<(), Error> {
        self.note(format!("thread {:?}", id));
        Ok(())
    }

    fn search_memory(&self, address: u64, length: u64, bytes: &[u8]) -> Result<Option<u64>, Error> {
        self.note(format!("search {:x} {:x} {:?}", address, length, bytes));
        Ok(Some(0xbeef))
    }

    fn halt_reason(&self) -> Result<StopReason, Error> {
        Ok(StopReason::Exited(16, 2))
    }

    fn invoke(&self, command: &[u8]) -> Result<String, Error> {
        self.note(format!("invoke {:?}", command));
        Ok("hi".to_string())
    }

    fn set_address_randomization(&self, enable: bool) -> Result<(), Error> {
        self.note(format!("randomize {}", enable));
        Ok(())
    }

    fn catch_syscalls(&self, syscalls: Option<Vec<u64>>) -> Result<(), Error> {
        self.note(format!("syscalls {:?}", syscalls));
        Ok(())
    }

    fn set_pass_signals(&self, signals: Vec<u64>) -> Result<(), Error> {
        self.note(format!("pass {:?}", signals));
        Ok(())
    }

    fn set_program_signals(&self, signals: Vec<u64>) -> Result<(), Error> {
        self.note(format!("program {:?}", signals));
        Ok(())
    }

    fn thread_info(&self, thread: ThreadId) -> Result<String, Error> {
        self.note(format!("info {:?}", thread));
        Ok("main".to_string())
    }

    fn insert_software_breakpoint(&self, breakpoint: Breakpoint) -> Result<(), Error> {
        self.note(format!("insert sw {:x} {:?}", breakpoint.addr, breakpoint.conditions));
        Ok(())
    }

    fn insert_hardware_breakpoint(&self, breakpoint: Breakpoint) -> Result<(), Error> {
        self.note(format!("insert hw {:x} {:?}", breakpoint.addr, breakpoint.commands));
        Ok(())
    }

    fn insert_write_watchpoint(&self, watchpoint: Watchpoint) -> Result<(), Error> {
        self.note(format!("insert write {:x}", watchpoint.addr));
        Ok(())
    }

    fn insert_read_watchpoint(&self, watchpoint: Watchpoint) -> Result<(), Error> {
        self.note(format!("insert read {:x}", watchpoint.addr));
        Ok(())
    }

    fn insert_access_watchpoint(&self, watchpoint: Watchpoint) -> Result<(), Error> {
        self.note(format!("insert access {:x}", watchpoint.addr));
        Ok(())
    }

    fn remove_software_breakpoint(&self, breakpoint: Breakpoint) -> Result<(), Error> {
        self.note(format!("remove sw {:x}", breakpoint.addr));
        Ok(())
    }

    fn remove_hardware_breakpoint(&self, breakpoint: Breakpoint) -> Result<(), Error> {
        self.note(format!("remove hw {:x}", breakpoint.addr));
        Ok(())
    }

    fn remove_write_watchpoint(&self, watchpoint: Watchpoint) -> Result<(), Error> {
        self.note(format!("remove write {:x}", watchpoint.addr));
        Ok(())
    }

    fn remove_read_watchpoint(&self, watchpoint: Watchpoint) -> Result<(), Error> {
        self.note(format!("remove read {:x}", watchpoint.addr));
        Ok(())
    }

    fn remove_access_watchpoint(&self, watchpoint: Watchpoint) -> Result<(), Error> {
        self.note(format!("remove access {:x}", watchpoint.addr));
        Ok(())
    }

    fn step(&self) -> Result<StopReason, Error> {
        Ok(StopReason::ThreadExited(ThreadId { pid: Id::Id(1), tid: Id::All }, 0x123))
    }

    fn cont(&self) -> Result<StopReason, Error> {
        Ok(StopReason::NoMoreThreads)
    }
}

fn body<H: Handler>(handler: &H, data: &[u8]) -> String {
    assert!(can_handle(data));
    let mut out = Vec::new();
    handle_packet(data, handler, &mut out);
    let text = String::from_utf8(out).unwrap();
    assert!(text.starts_with('$'));
    assert_eq!(text.rfind('#'), Some(text.len() - 3));
    text[1..text.len() - 3].to_string()
}

fn asked(data: &[u8]) -> (String, Vec<String>) {
    let recorder = Recorder::new();
    let answer = body(&recorder, data);
    (answer, recorder.calls.into_inner())
}

fn one(answer: &str, call: &str) -> (String, Vec<String>) {
    (answer.to_string(), vec![call.to_string()])
}

fn none(answer: &str) -> (String, Vec<String>) {
    (answer.to_string(), Vec::new())
}

#[test]
fn plain_handler_answers() {
    assert_eq!(body(&Plain, b"!"), "OK");
    assert_eq!(body(&Plain, b"?"), "S05");
    assert_eq!(body(&Plain, b"qAttached"), "0");
    assert_eq!(body(&Plain, b"qC"), "OK");
    assert_eq!(body(&Plain, b"QPassSignals:1"), "OK");
    assert_eq!(body(&Plain, b"QProgramSignals:1"), "OK");
    assert_eq!(body(&Plain, b"qSupported:swbreak+"), "PacketSize=65536");
    let unimplemented: Vec<&[u8]> = vec![
        b"D", b"D;1", b"g", b"G00", b"s", b"c", b"k", b"vKill;1", b"m0,1", b"M0,1:00", b"p0",
        b"P0=00", b"T1", b"Hg1", b"qRcmd,00", b"qSearch:memory:0;1;00", b"QDisableRandomization:0",
        b"QCatchSyscalls:0", b"QCatchSyscalls:1;1", b"qThreadExtraInfo,1", b"Z0,0,0", b"Z1,0,0",
        b"Z2,0,0", b"Z3,0,0", b"Z4,0,0", b"z0,0,0", b"z1,0,0", b"z2,0,0", b"z3,0,0", b"z4,0,0",
        b"X0,1:0",
    ];
    for data in unimplemented {
        assert_eq!(body(&Plain, data), "");
    }
}

#[test]
fn commands_reach_the_handler() {
    assert_eq!(asked(b"?"), none("W02;process:10"));
    assert_eq!(asked(b"g"), none("0102"));
    assert_eq!(asked(b"G0a0B"), one("OK", "set registers [10, 11]"));
    assert_eq!(asked(b"D"), one("OK", "detach None"));
    assert_eq!(asked(b"D;f0"), one("OK", "detach Some(240)"));
    assert_eq!(asked(b"m10,3"), one("dead00", "read 10 3"));
    assert_eq!(asked(b"M10,2:0102"), one("OK", "write 10 [1, 2]"));
    assert_eq!(asked(b"X10,2:\x01}\x03"), one("OK", "write 10 [1, 35]"));
    assert_eq!(asked(b"p1f"), one("0a", "register 1f"));
    assert_eq!(asked(b"P1f=0203"), one("", "set register 1f [2, 3]"));
    assert_eq!(asked(b"T5"), one("OK", "ping ThreadId { pid: Id(5), tid: Any }"));
    assert_eq!(asked(b"Hgp-1.7"), one("OK", "thread ThreadId { pid: All, tid: Id(7) }"));
    assert_eq!(asked(b"s"), none("w123;p1.-1"));
    assert_eq!(asked(b"c"), none("N"));
}

#[test]
fn queries_reach_the_handler() {
    assert_eq!(asked(b"qC"), none("QCpff.1"));
    assert_eq!(asked(b"qAttached:20"), one("1", "attached Some(32)"));
    assert_eq!(asked(b"qAttached"), one("1", "attached None"));
    assert_eq!(asked(b"qRcmd,6869"), one("O6869", "invoke [104, 105]"));
    assert_eq!(asked(b"qSearch:memory:8;10;ab"), one("1,beef", "search 8 10 [171]"));
    assert_eq!(asked(b"qSupported:multiprocess+"), none("PacketSize=65536;swbreak+;hwbreak-"));
    assert_eq!(asked(b"QStartNoAckMode"), none("OK"));
    assert_eq!(asked(b"QDisableRandomization:0"), one("OK", "randomize true"));
    assert_eq!(asked(b"QDisableRandomization:1"), one("OK", "randomize false"));
    assert_eq!(asked(b"QCatchSyscalls:0"), one("OK", "syscalls None"));
    assert_eq!(asked(b"QCatchSyscalls:1;a"), one("OK", "syscalls Some([10])"));
    assert_eq!(asked(b"QPassSignals:1;f"), one("OK", "pass [1, 15]"));
    assert_eq!(asked(b"QProgramSignals:2"), one("OK", "program [2]"));
    assert_eq!(
        asked(b"qThreadExtraInfo,p1.2"),
        one("main", "info ThreadId { pid: Id(1), tid: Id(2) }")
    );
}

#[test]
fn breakpoints_reach_the_handler() {
    assert_eq!(
        asked(b"Z0,8,1;X1,a"),
        one("OK", "insert sw 8 Some([Bytecode { bytecode: [97] }])")
    );
    assert_eq!(
        asked(b"Z1,8,1;cmdsX1,b"),
        one("OK", "insert hw 8 Some([Bytecode { bytecode: [98] }])")
    );
    assert_eq!(asked(b"Z2,8,1"), one("OK", "insert write 8"));
    assert_eq!(asked(b"Z3,8,1"), one("OK", "insert read 8"));
    assert_eq!(asked(b"Z4,8,1"), one("OK", "insert access 8"));
    assert_eq!(asked(b"z0,8,1"), one("OK", "remove sw 8"));
    assert_eq!(asked(b"z1,8,1"), one("OK", "remove hw 8"));
    assert_eq!(asked(b"z2,8,1"), one("OK", "remove write 8"));
    assert_eq!(asked(b"z3,8,1"), one("OK", "remove read 8"));
    assert_eq!(asked(b"z4,8,1"), one("OK", "remove access 8"));
}

#[test]
fn kill_answers_only_where_a_process_is_named() {
    assert_eq!(asked(b"k"), one("", "kill None"));
    assert_eq!(asked(b"vKill;2a"), one("E1c", "kill Some(42)"));
}

#[test]
fn length_mismatch_is_an_error() {
    assert_eq!(asked(b"M10,3:0102"), none("E01"));
    assert_eq!(asked(b"X10,1:abc"), none("E01"));
    let mut out = Vec::new();
    handle_packet(b"M10,3:0102", &Plain, &mut out);
    assert_eq!(out, b"$E01#a6".to_vec());
}

#[test]
fn what_is_no_command_gets_an_empty_answer() {
    for data in [&b""[..], b"@", b"vMustReplyEmpty", b"vCtrlC", b"r", b"R00", b"Q", b"p", b"G0", b"T100000000", b"Tffffffff"] {
        let mut out = Vec::new();
        assert!(!handle_packet(data, &Plain, &mut out));
        assert_eq!(out, b"$#00".to_vec());
    }
}

#[test]
fn only_no_ack_mode_turns_acks_off() {
    let mut out = Vec::new();
    assert!(handle_packet(b"QStartNoAckMode", &Plain, &mut out));
    assert_eq!(out, b"$OK#9a".to_vec());
    assert!(!handle_packet(b"!", &Plain, &mut out));
    let mut other = Vec::new();
    assert!(handle_packet(b"QStartNoAckMode;x", &Plain, &mut other));
    assert!(!handle_packet(b"QStartNoAckMod", &Plain, &mut other));
    // A further answer goes behind what is there already.
    assert_eq!(out, b"$OK#9a$OK#9a".to_vec());
}

#[test]
fn large_numbers_and_trailing_bytes_cannot_be_handled() {
    assert!(can_handle(b"pffffffffffffffff"));
    assert!(!can_handle(b"p10000000000000000"));
    assert!(can_handle(b"p00000000000000001"));
    assert!(!can_handle(b"Z0,1,2x"));
    assert!(!can_handle(b"Z1,1,2;foo"));
    assert!(can_handle(b"Z2,1,2x"));
    assert!(can_handle(b"z0,1,2x"));
    assert!(can_handle(b"Z0,1,2;"));
}

#[test]
fn features_are_joined() {
    let text = |response: Response<'static>| match response {
        Response::String(text) => text.into_owned(),
        _ => String::new(),
    };
    assert_eq!(text(features_response(Vec::new())), "PacketSize=65536");
    let three = vec!["a".to_string(), "".to_string(), "b+".to_string()];
    assert_eq!(text(features_response(three)), "PacketSize=65536;a;;b+");
    let listed: Vec<GDBFeatureSupported> = Vec::new();
    assert_eq!(text(handle_supported_features(&Plain, &listed)), "PacketSize=65536");
}

#[test]
fn invoked_commands_are_answered() {
    assert!(matches!(invoke_outcome(Ok(String::new())), Ok(Response::Okay)));
    assert!(matches!(invoke_outcome(Ok("x".to_string())), Ok(Response::Output(s)) if s == "x"));
    assert!(matches!(invoke_outcome(Err(Error::Error(7))), Err(Error::Error(7))));
    assert!(matches!(invoke_outcome(Err(Error::Unimplemented)), Err(Error::Unimplemented)));
    assert!(matches!(outcome_of(Ok(())), Ok(Response::Okay)));
    let failed: Result<(), Error> = Err(Error::Error(7));
    assert!(matches!(outcome_of(failed), Err(Error::Error(7))));
    assert!(matches!(respond_to(Err(Error::Error(7))), Response::Error(7)));
    assert!(matches!(respond_to(Err(Error::Unimplemented)), Response::Empty));
    assert!(matches!(respond_to(Ok(Response::Okay)), Response::Okay));
}

#[test]
fn results_become_responses() {
    let failed: Result<(), Error> = Err(Error::Error(9));
    assert!(matches!(Response::from(failed), Response::Error(9)));
    let missing: Result<String, Error> = Err(Error::Unimplemented);
    assert!(matches!(Response::from(missing), Response::Empty));
    assert!(matches!(Response::from(()), Response::Okay));
    assert!(matches!(Response::from(vec![1u8]), Response::Bytes(b) if b == vec![1]));
    let nobody: Option<ThreadId> = None;
    assert!(matches!(Response::from(nobody), Response::CurrentThread(None)));
    assert!(matches!(Response::from(Some(3u64)), Response::SearchResult(Some(3))));
    let found: Result<Option<u64>, Error> = Ok(None);
    assert!(matches!(Response::from(found), Response::SearchResult(None)));
    assert!(matches!(Response::from("t".to_string()), Response::String(t) if t == "t"));
}

#[test]
fn packets_are_found_in_a_buffer() {
    assert_eq!(run_parser(b"$g#67rest"), Some((5, Packet::Data(b"g".to_vec(), 0x67))));
    assert_eq!(run_parser(b"+$g#67"), Some((1, Packet::Ack)));
    assert_eq!(run_parser(b"-"), Some((1, Packet::Nack)));
    assert_eq!(run_parser(b"\x03"), Some((1, Packet::Interrupt)));
    assert_eq!(run_parser(b"$g#6"), None);
    assert_eq!(run_parser(b""), None);
    assert_eq!(run_parser(b"x"), None);
    let buf = &b"abc"[..];
    assert_eq!(offset(buf, &buf[2..]), 2);
}

#[test]
fn sessions_acknowledge_until_told_not_to() {
    let mut session = Session::new();
    let turn = session.received(b"$QStartNoAckMode#b0");
    assert!(turn.ack);
    assert_eq!(turn.length, 19);
    let mut out = Vec::new();
    let no_ack_mode = handle_packet(&turn.data.unwrap(), &Plain, &mut out);
    session.handled(no_ack_mode);
    assert!(!session.ack_mode);
    let turn = session.received(b"$g#67");
    assert!(!turn.ack);
    assert_eq!(turn.data, Some(b"g".to_vec()));
    session.handled(false);
    assert!(!session.ack_mode);
    assert!(!session.done);
}

#[test]
fn sessions_ignore_what_is_no_data() {
    let mut session = Session::new();
    for buf in [&b"+"[..], b"-", b"\x03"] {
        let turn = session.received(buf);
        assert!(!turn.ack && turn.data.is_none());
        assert_eq!(turn.length, 1);
    }
    let turn = session.received(b"junk");
    assert!(!turn.ack && turn.data.is_none());
    assert_eq!(turn.length, 0);
    assert!(!session.done);
    session.received(b"");
    assert!(session.done);
    let mut other = Session::new();
    other.read_failed();
    assert!(other.done && other.ack_mode);
}

/// What a server sends when its input comes in the given reads.
fn exchange(reads: &[&[u8]]) -> (String, Vec<String>) {
    let recorder = Recorder::new();
    let mut session = Session::new();
    let mut out = Vec::new();
    let mut next = 0;
    let mut buf: Vec<u8> = Vec::new();
    while !session.done {
        if buf.is_empty() && next < reads.len() {
            buf.extend_from_slice(reads[next]);
            next += 1;
        }
        let turn = session.received(&buf);
        if turn.ack {
            out.extend_from_slice(b"+");
        }
        if let Some(data) = turn.data {
            let no_ack_mode = handle_packet(&data, &recorder, &mut out);
            session.handled(no_ack_mode);
        }
        buf.drain(..turn.length);
    }
    assert_eq!(next, reads.len());
    (String::from_utf8(out).unwrap(), recorder.calls.into_inner())
}

#[test]
fn a_whole_exchange() {
    let expected = one("+$W02;process:10#8e+$OK#9a$dead00#ee", "read 10 3");
    assert_eq!(exchange(&[b"+$?#3f+$QStartNoAckMode#b0+$m10,3#00"]), expected);
    // How the input is cut into reads does not matter.
    assert_eq!(exchange(&[b"+", b"$?#3f", b"+$QStartNoAckMode#b0", b"+$m10,3#00"]), expected);
    assert_eq!(exchange(&[b"+$?#3f+", b"$QStartNoAckMode#b0+$m10,3#00"]), expected);
    assert_eq!(exchange(&[]), none(""));
    assert_eq!(exchange(&[b"+-\x03"]), none(""));
    assert_eq!(MAX_PACKET_SIZE, 65 * 1024);
}
