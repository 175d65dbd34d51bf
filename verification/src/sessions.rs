//! What a server sends in a whole session.
use vstd::prelude::*;
use vstd::utf8::encode_utf8;
use crate::grammar;
use crate::handler::Handler;
use crate::laws::{packet_extent, packet_settled};
use crate::model::PacketView;
use crate::outcome::Parsed;
use crate::replies::no_ack_mode_is_asked_for;
use crate::response::response_data;
use crate::server::{
    after_handling, after_read, answers, follows, response_to, turn_for, turns_acks_off, Outcome,
    Session, TurnView,
};
use crate::writer::framed;

verus! {

/// The packets that stand one behind the other at the front of an input.
pub open spec fn packets_of(s: Seq<u8>) -> Seq<PacketView>
    decreases s.len(),
{
    match grammar::packet_or_response(s) {
        Parsed::Done(rest, packet) if rest.len() < s.len() => seq![packet] + packets_of(rest),
        _ => seq![],
    }
}

/// What is left of an input behind those packets.
pub open spec fn left_over(s: Seq<u8>) -> Seq<u8>
    decreases s.len(),
{
    match grammar::packet_or_response(s) {
        Parsed::Done(rest, _) if rest.len() < s.len() => left_over(rest),
        _ => s,
    }
}

/// It does not matter where an input is cut: the packets in its first part, and
/// then those in what is left of that part and the second one, are the packets
/// in the whole.
pub proof fn packets_in_parts(a: Seq<u8>, b: Seq<u8>)
    ensures
        packets_of(a + b) == packets_of(a) + packets_of(left_over(a) + b),
        left_over(a + b) == left_over(left_over(a) + b),
    decreases a.len(),
{
    packet_extent(a);
    packet_settled(a, b);
    match grammar::packet_or_response(a) {
        Parsed::Done(rest, packet) => {
            packets_in_parts(rest, b);
            assert(seq![packet] + packets_of(rest) + packets_of(left_over(rest) + b) =~= seq![
                packet,
            ] + (packets_of(rest) + packets_of(left_over(rest) + b)));
        },
        _ => {
            assert(seq![] + packets_of(a + b) =~= packets_of(a + b));
        },
    }
}

/// The acknowledgment of a packet, where there is one.
pub open spec fn ack_text(ack: bool) -> Seq<u8> {
    if ack {
        encode_utf8("+"@)
    } else {
        seq![]
    }
}

/// One round of a session: a server reads, does what is to be done about what
/// it read, and drops it from the front of its input.
pub struct Round {
    /// The session before the round.
    pub before: Session,
    /// The bytes that can be read.
    pub buf: Seq<u8>,
    /// What came of the packet, where it holds data.
    pub outcome: Outcome,
    /// The bytes that are sent.
    pub sent: Seq<u8>,
    /// The session after the round.
    pub after: Session,
}

impl Round {
    /// What is to be done in the round.
    pub open spec fn turn(self) -> TurnView {
        turn_for(self.before.ack_mode, self.buf)
    }
}

/// A round goes by what `Session::received`, `handle_packet` and
/// `Session::handled` do, one after the other.
pub open spec fn took_place<H: Handler>(handler: &H, round: Round) -> bool {
    match round.turn().data {
        Some(data) => {
            &&& answers(handler, data, round.outcome)
            &&& round.sent == ack_text(round.turn().ack) + framed(
                response_data(response_to(round.outcome)),
            )
            &&& round.after == after_handling(
                after_read(round.before, round.buf),
                turns_acks_off(data),
            )
        },
        None => {
            &&& round.sent == ack_text(round.turn().ack)
            &&& round.after == after_read(round.before, round.buf)
        },
    }
}

/// How many bytes of its input a session has dropped after `n` rounds.
pub open spec fn consumed(rounds: Seq<Round>, n: int) -> int
    decreases n,
{
    if n <= 0 {
        0
    } else {
        consumed(rounds, n - 1) + rounds[n - 1].turn().length
    }
}

/// What a session has sent after `n` rounds.
pub open spec fn sent_in(rounds: Seq<Round>, n: int) -> Seq<u8>
    decreases n,
{
    if n <= 0 {
        seq![]
    } else {
        sent_in(rounds, n - 1) + rounds[n - 1].sent
    }
}

/// The session after `n` rounds.
pub open spec fn session_after(rounds: Seq<Round>, n: int) -> Session {
    if n <= 0 {
        Session { ack_mode: true, done: false }
    } else {
        rounds[n - 1].after
    }
}

/// The `k`-th round goes on where the one before it ended.  At least one whole
/// packet of what is left of the input can be read in it.
pub open spec fn goes_on<H: Handler>(
    handler: &H,
    input: Seq<u8>,
    rounds: Seq<Round>,
    k: int,
) -> bool {
    &&& rounds[k].before == session_after(rounds, k)
    &&& rounds[k].buf.is_prefix_of(input.skip(consumed(rounds, k)))
    &&& grammar::packet_or_response(rounds[k].buf) is Done
    &&& took_place(handler, rounds[k])
}

/// The rounds of a session from its start.
pub open spec fn runs_on<H: Handler>(handler: &H, input: Seq<u8>, rounds: Seq<Round>) -> bool {
    forall|k: int| 0 <= k < rounds.len() ==> #[trigger] goes_on(handler, input, rounds, k)
}

/// A packet that turns acknowledgments off.
pub open spec fn ends_acks(packet: PacketView) -> bool {
    packet matches PacketView::Data(data, _) && encode_utf8("QStartNoAckMode"@).is_prefix_of(data)
}

/// None of the first `n` packets turns acknowledgments off.
pub open spec fn acks_last(packets: Seq<PacketView>, n: int) -> bool {
    forall|j: int| 0 <= j < n ==> !ends_acks(#[trigger] packets[j])
}

/// What is owed for a packet: nothing, unless it holds data; for data, an
/// acknowledgment, if packets are still acknowledged, and the answer.
pub open spec fn owed(ack: bool, packet: PacketView, outcome: Outcome) -> Seq<u8> {
    match packet {
        PacketView::Data(_, _) => ack_text(ack) + framed(response_data(response_to(outcome))),
        _ => seq![],
    }
}

/// What is owed for the first `n` packets, one behind the other.
pub open spec fn owed_for(packets: Seq<PacketView>, rounds: Seq<Round>, n: int) -> Seq<u8>
    decreases n,
{
    if n <= 0 {
        seq![]
    } else {
        owed_for(packets, rounds, n - 1) + owed(
            acks_last(packets, n - 1),
            packets[n - 1],
            rounds[n - 1].outcome,
        )
    }
}

/// The packet that is read in a round is the next one of the input.
proof fn packet_of_round<H: Handler>(handler: &H, input: Seq<u8>, rounds: Seq<Round>, k: int)
    requires
        runs_on(handler, input, rounds),
        0 <= k < rounds.len(),
        0 <= consumed(rounds, k) <= input.len(),
    ensures
        ({
            let rem = input.skip(consumed(rounds, k));
            let left = input.skip(consumed(rounds, k + 1));
            &&& consumed(rounds, k) < consumed(rounds, k + 1) <= input.len()
            &&& packets_of(rem).len() > 0
            &&& packets_of(rem).skip(1) == packets_of(left)
            &&& left_over(rem) == left_over(left)
            &&& rounds[k].buf.len() > 0
            &&& rounds[k].turn().ack == (rounds[k].before.ack_mode && packets_of(rem)[0] is Data)
            &&& rounds[k].turn().data == match packets_of(rem)[0] {
                PacketView::Data(data, _) => Some(data),
                _ => None,
            }
        }),
{
    let round = rounds[k];
    let rem = input.skip(consumed(rounds, k));
    let more = rem.skip(round.buf.len() as int);
    assert(goes_on(handler, input, rounds, k));
    assert(rem =~= round.buf + more);
    packet_settled(round.buf, more);
    packet_extent(round.buf);
    if let Parsed::Done(rest, packet) = grammar::packet_or_response(round.buf) {
        assert(input.skip(consumed(rounds, k + 1)) =~= rest + more);
        assert(packets_of(rem) == seq![packet] + packets_of(rest + more));
        assert(packets_of(rem).skip(1) =~= packets_of(rest + more));
    }
}

/// Some rounds have read the first packets of the input.
proof fn packets_so_far<H: Handler>(handler: &H, input: Seq<u8>, rounds: Seq<Round>, n: int)
    requires
        runs_on(handler, input, rounds),
        0 <= n <= rounds.len(),
    ensures
        0 <= consumed(rounds, n) <= input.len(),
        n <= packets_of(input).len(),
        packets_of(input.skip(consumed(rounds, n))) == packets_of(input).skip(n),
        left_over(input.skip(consumed(rounds, n))) == left_over(input),
    decreases n,
{
    let packets = packets_of(input);
    if n == 0 {
        assert(input.skip(0) =~= input);
        assert(packets.skip(0) =~= packets);
    } else {
        packets_so_far(handler, input, rounds, n - 1);
        packet_of_round(handler, input, rounds, n - 1);
        assert(packets.skip(n - 1).skip(1) =~= packets.skip(n));
    }
}

/// What some rounds have sent, and where they have left the session.
proof fn rounds_so_far<H: Handler>(handler: &H, input: Seq<u8>, rounds: Seq<Round>, n: int)
    requires
        runs_on(handler, input, rounds),
        0 <= n <= rounds.len(),
    ensures
        sent_in(rounds, n) == owed_for(packets_of(input), rounds, n),
        session_after(rounds, n).ack_mode == acks_last(packets_of(input), n),
        !session_after(rounds, n).done,
    decreases n,
{
    let packets = packets_of(input);
    if n > 0 {
        let k = n - 1;
        rounds_so_far(handler, input, rounds, k);
        packets_so_far(handler, input, rounds, n);
        packets_so_far(handler, input, rounds, k);
        packet_of_round(handler, input, rounds, k);
        let round = rounds[k];
        assert(goes_on(handler, input, rounds, k));
        assert(packets[k] == packets.skip(k)[0]);
        if let PacketView::Data(data, _) = packets[k] {
            no_ack_mode_is_asked_for(data);
        }
        assert(acks_last(packets, n) <==> acks_last(packets, k) && !ends_acks(packets[k]));
    }
}

/// A server that has read all packets of its input has sent, in their order,
/// what is owed for each of them, and nothing else: nothing for anything but
/// data; for data an acknowledgment, unless an earlier packet turned
/// acknowledgments off, and then the answer.  Where the input was cut into reads
/// does not matter, as long as each read has a whole packet at its front.
pub proof fn session_sends_what_is_owed<H: Handler>(
    handler: &H,
    input: Seq<u8>,
    rounds: Seq<Round>,
)
    requires
        runs_on(handler, input, rounds),
        rounds.len() == packets_of(input).len(),
    ensures
        sent_in(rounds, rounds.len() as int) == owed_for(
            packets_of(input),
            rounds,
            rounds.len() as int,
        ),
        input.skip(consumed(rounds, rounds.len() as int)) == left_over(input),
        !session_after(rounds, rounds.len() as int).done,
        forall|k: int|
            0 <= k < rounds.len() ==> (packets_of(input)[k] matches PacketView::Data(data, _)
                ==> answers(handler, data, (#[trigger] rounds[k]).outcome)),
{
    let n = rounds.len() as int;
    rounds_so_far(handler, input, rounds, n);
    packets_so_far(handler, input, rounds, n);
    assert forall|k: int| 0 <= k < n implies (packets_of(input)[k] matches PacketView::Data(data, _)
        ==> answers(handler, data, (#[trigger] rounds[k]).outcome)) by {
        packets_so_far(handler, input, rounds, k);
        packet_of_round(handler, input, rounds, k);
        assert(goes_on(handler, input, rounds, k));
        assert(packets_of(input)[k] == packets_of(input).skip(k)[0]);
    }
    let rem = input.skip(consumed(rounds, n));
    assert(packets_of(rem).len() == 0);
    packet_extent(rem);
    assert(left_over(rem) == rem);
}

/// A session is over when there is nothing more to read.  Nothing is sent and
/// nothing is dropped then.
pub proof fn session_ends(session: Session)
    ensures
        after_read(session, Seq::<u8>::empty()).done,
        turn_for(session.ack_mode, Seq::<u8>::empty()) == (TurnView {
            ack: false,
            data: None,
            length: 0,
        }),
{
    packet_extent(Seq::<u8>::empty());
}

/// However a session goes on, a packet is not acknowledged any more once
/// acknowledgments were turned off, and nothing more is read once it is over.
pub proof fn sessions_do_not_go_back(trace: Seq<Session>, i: int, j: int)
    requires
        0 <= i <= j < trace.len(),
        forall|k: int| 0 <= k < trace.len() - 1 ==> follows(#[trigger] trace[k], trace[k + 1]),
    ensures
        follows(trace[i], trace[j]),
    decreases j - i,
{
    if i < j {
        sessions_do_not_go_back(trace, i, j - 1);
        assert(follows(trace[j - 1], trace[j - 1 + 1]));
    }
}

} // verus!
