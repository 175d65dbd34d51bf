//! What a client gets back.
use vstd::prelude::*;
use vstd::utf8::{encode_utf8, is_ascii_chars, is_ascii_chars_encode_utf8};
use crate::combine::tag;
use crate::grammar;
use crate::handler::{Error, Handler, ProcessType, StopReason};
use crate::hex::{
    is_hex, lower_digit_value, lower_hex, lower_hex_byte, lower_hex_bytes, lower_hex_number,
};
use crate::laws::packet_read_back;
use crate::model::{CommandView, Id, MemoryRegion, PacketView, QueryView, ThreadId};
use crate::outcome::Parsed;
use crate::queries::query_chosen;
use crate::requests::{command_of_letter, first_byte_decides, unknown_v};
use crate::response::{id_text, response_data, stop_text, thread_id_text, Response};
use crate::server::{
    answers, answers_command, join, reported_features, reports, response_to, turns_acks_off,
    Outcome,
};
use crate::writer::{byte_sum, framed, sum_from};

verus! {

/// Bytes that neither start nor end a packet: there is no `$` and no `#` among
/// them.
pub open spec fn plain(bytes: Seq<u8>) -> bool {
    !bytes.contains(0x24u8) && !bytes.contains(0x23u8)
}

proof fn plain_adds(a: Seq<u8>, b: Seq<u8>)
    requires
        plain(a),
        plain(b),
    ensures
        plain(a + b),
{
    let s = a + b;
    assert forall|j: int| 0 <= j < s.len() implies s[j] != 0x23u8 && s[j] != 0x24u8 by {
        if j < a.len() {
            assert(a.contains(a[j]));
        } else {
            assert(b.contains(b[j - a.len()]));
        }
    }
}

proof fn plain_text(t: Seq<char>)
    requires
        is_ascii_chars(t),
        forall|j: int| 0 <= j < t.len() ==> #[trigger] t[j] != '#' && t[j] != '$',
    ensures
        plain(encode_utf8(t)),
{
    is_ascii_chars_encode_utf8(t);
    let s = encode_utf8(t);
    assert forall|j: int| 0 <= j < s.len() implies s[j] != 0x23u8 && s[j] != 0x24u8 by {
        assert(s[j] == t[j] as u8);
        assert(t[j] != '#' && t[j] != '$');
    }
}

proof fn plain_number(n: nat)
    ensures
        plain(lower_hex(n)),
{
    lower_hex_number(n);
    let s = lower_hex(n);
    assert forall|j: int| 0 <= j < s.len() implies s[j] != 0x23u8 && s[j] != 0x24u8 by {
        assert(is_hex(s[j]));
    }
}

proof fn plain_byte(b: u8)
    ensures
        plain(lower_hex_byte(b)),
{
    lower_digit_value((b / 16) as nat);
    lower_digit_value((b % 16) as nat);
}

proof fn plain_bytes(bytes: Seq<u8>)
    ensures
        plain(lower_hex_bytes(bytes)),
    decreases bytes.len(),
{
    if bytes.len() > 0 {
        plain_bytes(bytes.drop_last());
        plain_byte(bytes.last());
        plain_adds(lower_hex_bytes(bytes.drop_last()), lower_hex_byte(bytes.last()));
    }
}

proof fn plain_id(id: Id)
    ensures
        plain(id_text(id)),
{
    match id {
        Id::All => {
            reveal_strlit("-1");
            plain_text("-1"@);
        },
        Id::Any => {
            reveal_strlit("0");
            plain_text("0"@);
        },
        Id::Id(num) => plain_number(num as nat),
    }
}

proof fn plain_thread(id: ThreadId)
    ensures
        plain(thread_id_text(id)),
{
    reveal_strlit("p");
    reveal_strlit(".");
    plain_text("p"@);
    plain_text("."@);
    plain_id(id.pid);
    plain_id(id.tid);
    let a = encode_utf8("p"@) + id_text(id.pid);
    plain_adds(encode_utf8("p"@), id_text(id.pid));
    plain_adds(a, encode_utf8("."@));
    plain_adds(a + encode_utf8("."@), id_text(id.tid));
}

proof fn plain_stop(reason: StopReason)
    ensures
        plain(stop_text(reason)),
{
    reveal_strlit("S");
    reveal_strlit("W");
    reveal_strlit("X");
    reveal_strlit("w");
    reveal_strlit("N");
    reveal_strlit(";");
    reveal_strlit(";process:");
    plain_text("S"@);
    plain_text("W"@);
    plain_text("X"@);
    plain_text("w"@);
    plain_text("N"@);
    plain_text(";"@);
    plain_text(";process:"@);
    match reason {
        StopReason::Signal(signo) => {
            plain_byte(signo);
            plain_adds(encode_utf8("S"@), lower_hex_byte(signo));
        },
        StopReason::Exited(pid, status) => {
            plain_byte(status);
            plain_number(pid as nat);
            let a = encode_utf8("W"@) + lower_hex_byte(status);
            plain_adds(encode_utf8("W"@), lower_hex_byte(status));
            plain_adds(a, encode_utf8(";process:"@));
            plain_adds(a + encode_utf8(";process:"@), lower_hex(pid as nat));
        },
        StopReason::ExitedWithSignal(pid, status) => {
            plain_byte(status);
            plain_number(pid as nat);
            let a = encode_utf8("X"@) + lower_hex_byte(status);
            plain_adds(encode_utf8("X"@), lower_hex_byte(status));
            plain_adds(a, encode_utf8(";process:"@));
            plain_adds(a + encode_utf8(";process:"@), lower_hex(pid as nat));
        },
        StopReason::ThreadExited(id, status) => {
            plain_number(status as nat);
            plain_thread(id);
            let a = encode_utf8("w"@) + lower_hex(status as nat);
            plain_adds(encode_utf8("w"@), lower_hex(status as nat));
            plain_adds(a, encode_utf8(";"@));
            plain_adds(a + encode_utf8(";"@), thread_id_text(id));
        },
        StopReason::NoMoreThreads => {},
    }
}

/// Only a text can put a `$` or a `#` into an answer.
pub proof fn reply_plain(response: Response<'_>)
    requires
        !(response is String),
    ensures
        plain(response_data(response)),
{
    match response {
        Response::Okay => {
            reveal_strlit("OK");
            plain_text("OK"@);
        },
        Response::Empty => {},
        Response::Error(val) => {
            reveal_strlit("E");
            plain_text("E"@);
            plain_byte(val);
            plain_adds(encode_utf8("E"@), lower_hex_byte(val));
        },
        Response::String(_) => {},
        Response::Output(text) => {
            reveal_strlit("O");
            plain_text("O"@);
            plain_bytes(encode_utf8(text@));
            plain_adds(encode_utf8("O"@), lower_hex_bytes(encode_utf8(text@)));
        },
        Response::Bytes(bytes) => plain_bytes(bytes@),
        Response::CurrentThread(None) => {
            reveal_strlit("OK");
            plain_text("OK"@);
        },
        Response::CurrentThread(Some(id)) => {
            reveal_strlit("QC");
            plain_text("QC"@);
            plain_thread(id);
            plain_adds(encode_utf8("QC"@), thread_id_text(id));
        },
        Response::ProcessType(ProcessType::Attached) => {
            reveal_strlit("1");
            plain_text("1"@);
        },
        Response::ProcessType(ProcessType::Created) => {
            reveal_strlit("0");
            plain_text("0"@);
        },
        Response::SearchResult(Some(addr)) => {
            reveal_strlit("1,");
            plain_text("1,"@);
            plain_number(addr as nat);
            plain_adds(encode_utf8("1,"@), lower_hex(addr as nat));
        },
        Response::SearchResult(None) => {
            reveal_strlit("0");
            plain_text("0"@);
        },
        Response::Stopped(reason) => plain_stop(reason),
    }
}

/// An answer arrives as it was given: whoever reads the packet finds its data,
/// with the right checksum, and what follows it.  A text has to be free of
/// `#` for that, since nothing is escaped.
pub proof fn reply_read_back(response: Response<'_>, rest: Seq<u8>)
    requires
        response matches Response::String(text) ==> !encode_utf8(text@).contains(0x23u8),
    ensures
        grammar::packet_or_response(framed(response_data(response)) + rest) == Parsed::Done(
            rest,
            PacketView::Data(response_data(response), sum_from(response_data(response), 0)),
        ),
{
    if !(response is String) {
        reply_plain(response);
    }
    packet_read_back(response_data(response), sum_from(response_data(response), 0), rest);
}

/// An answer without data.
proof fn empty_packet()
    ensures
        framed(seq![]) == encode_utf8("$#00"@),
{
    reveal_strlit("$");
    reveal_strlit("#");
    reveal_strlit("$#00");
    is_ascii_chars_encode_utf8("$"@);
    is_ascii_chars_encode_utf8("#"@);
    is_ascii_chars_encode_utf8("$#00"@);
    let s = framed(seq![]);
    let t = encode_utf8("$#00"@);
    assert(sum_from(seq![], 0) == 0);
    assert forall|j: int| 0 <= j < 4 implies s[j] == t[j] by {
        assert(t[j] == "$#00"@[j] as u8);
        assert(encode_utf8("$"@)[0] == "$"@[0] as u8);
        assert(encode_utf8("#"@)[0] == "#"@[0] as u8);
    }
    assert(s =~= t);
}

/// An error that the handler returns is what comes of the request, and no error
/// comes of it otherwise.
pub proof fn failure_is_passed_on<T>(outcome: Outcome, result: Result<T, Error>) where
    Response<'static>: From<T>,

    requires
        reports(outcome, result),
    ensures
        outcome is Err <==> result is Err,
        result matches Err(e) ==> outcome == Err::<Response<'static>, Error>(e),
{
}

/// Whatever the packet, a failure of the handler is answered with an `E` and the
/// number of the error in two digits, and a request that the handler does not
/// implement with the empty answer.  Acknowledgments stay as they are.  No
/// failure comes of a `k` packet.
pub proof fn failure_is_answered<H: Handler>(handler: &H, data: Seq<u8>, e: Error)
    requires
        answers(handler, data, Err(e)),
    ensures
        framed(response_data(response_to(Err(e)))) == match e {
            Error::Error(n) => framed(encode_utf8("E"@) + lower_hex_byte(n)),
            Error::Unimplemented => encode_utf8("$#00"@),
        },
        !turns_acks_off(data),
        grammar::command(data) matches Parsed::Done(_, command) && command != CommandView::Kill(
            None,
        ),
{
    empty_packet();
}

/// Data that is no command gets the empty answer, whatever the handler.
pub proof fn no_command_is_empty<H: Handler>(
    handler: &H,
    data: Seq<u8>,
    outcome: Outcome,
)
    requires
        !(grammar::command(data) is Done),
        answers(handler, data, outcome),
    ensures
        framed(response_data(response_to(outcome))) == encode_utf8("$#00"@),
{
    empty_packet();
}

/// A `v` packet that is not known gets the empty answer, whatever the handler.
pub proof fn unknown_v_is_empty<H: Handler>(
    handler: &H,
    data: Seq<u8>,
    outcome: Outcome,
)
    requires
        data.len() > 0,
        data[0] == 0x76,
        !encode_utf8("vCtrlC"@).is_prefix_of(data),
        !encode_utf8("vKill;"@).is_prefix_of(data),
        answers(handler, data, outcome),
    ensures
        framed(response_data(response_to(outcome))) == encode_utf8("$#00"@),
{
    unknown_v(data);
    empty_packet();
}

/// A request to write memory of which the length is not the number of bytes
/// that came with it is answered with error 1, and the handler is not asked.
pub proof fn length_mismatch_fails<H: Handler>(
    handler: &H,
    region: MemoryRegion,
    bytes: Seq<u8>,
    outcome: Outcome,
)
    requires
        region.length as usize != bytes.len(),
        answers_command(handler, CommandView::WriteMemory(region, bytes), outcome),
    ensures
        framed(response_data(response_to(outcome))) == encode_utf8("$E01#a6"@),
{
    reveal_strlit("$");
    reveal_strlit("#");
    reveal_strlit("E");
    reveal_strlit("$E01#a6");
    is_ascii_chars_encode_utf8("$"@);
    is_ascii_chars_encode_utf8("#"@);
    is_ascii_chars_encode_utf8("E"@);
    is_ascii_chars_encode_utf8("$E01#a6"@);
    assert(encode_utf8("$"@)[0] == "$"@[0] as u8);
    assert(encode_utf8("#"@)[0] == "#"@[0] as u8);
    assert(encode_utf8("E"@)[0] == "E"@[0] as u8);
    let data = response_data(response_to(outcome));
    assert(data =~= seq![0x45u8, 0x30u8, 0x31u8]);
    assert(byte_sum(data) == 0xa6) by {
        reveal_with_fuel(byte_sum, 4);
    }
    let s = framed(data);
    let t = encode_utf8("$E01#a6"@);
    assert forall|j: int| 0 <= j < 7 implies s[j] == t[j] by {
        assert(t[j] == "$E01#a6"@[j] as u8);
    }
    assert(s =~= t);
}

/// Acknowledgments are turned off by the data that starts with
/// `QStartNoAckMode`, and by no other.
pub proof fn no_ack_mode_is_asked_for(data: Seq<u8>)
    ensures
        turns_acks_off(data) <==> encode_utf8("QStartNoAckMode"@).is_prefix_of(data),
{
    let word = encode_utf8("QStartNoAckMode"@);
    reveal_strlit("QStartNoAckMode");
    is_ascii_chars_encode_utf8("QStartNoAckMode"@);
    first_byte_decides(data);
    if word.is_prefix_of(data) {
        let rest = data.skip(word.len() as int);
        assert(data =~= word + rest);
        assert(data[0] == "QStartNoAckMode"@[0] as u8);
        query_chosen(4, rest);
        reveal(grammar::query);
    } else {
        assert(!(tag(data, "QStartNoAckMode"@) is Done)) by {
            reveal(tag);
        }
        assert(grammar::query(data) matches Parsed::Done(_, q) ==> q != QueryView::StartNoAckMode)
            by {
            reveal(grammar::query);
        }
        if data.len() > 0 && data[0] != 0x71 && data[0] != 0x51 {
            no_other_command(data);
        }
    }
}

/// Only a query is read from a packet that starts with `q` or `Q`, and only
/// from such a packet.
proof fn no_other_command(data: Seq<u8>)
    requires
        data.len() > 0,
        data[0] != 0x71 && data[0] != 0x51,
    ensures
        command_of_letter(data) matches Parsed::Done(_, c) ==> !(c is Query),
{
    reveal(grammar::v_command);
    reveal(grammar::parse_z_packet);
    reveal(grammar::insert_command);
}

/// What a server reports of itself starts with the size of a packet, whatever
/// else its handler reports.
pub proof fn packet_size_comes_first(extra: Seq<Seq<char>>)
    ensures
        "PacketSize=65536"@.is_prefix_of(reported_features(extra)),
{
    let items = seq!["PacketSize=65536"@] + extra;
    first_item_comes_first(items, ";"@);
}

proof fn first_item_comes_first(items: Seq<Seq<char>>, sep: Seq<char>)
    requires
        items.len() > 0,
    ensures
        items[0].is_prefix_of(join(items, sep)),
    decreases items.len(),
{
    let text = join(items, sep);
    if items.len() > 1 {
        let front = join(items.drop_last(), sep);
        first_item_comes_first(items.drop_last(), sep);
        assert(text.subrange(0, items[0].len() as int) =~= front.subrange(
            0,
            items[0].len() as int,
        ));
    } else {
        assert(text.subrange(0, items[0].len() as int) =~= items[0]);
    }
}

} // verus!
