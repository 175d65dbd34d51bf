//! What a packet is, byte by byte, and what a server does about it.
use vstd::prelude::*;
use vstd::utf8::encode_utf8;
use crate::combine::{one_byte, tag, tag_accepts, tag_found, tag_refuses};
use crate::digits::{byte_written, number_of_one_digit, spells, two_digits};
use crate::grammar;
use crate::hex::{is_hex, lower_hex_byte};
use crate::laws::{data_ends, data_splits, dollar_and_hash};
use crate::model::PacketView;
use crate::outcome::{ErrorKind, Parsed};
use crate::server::{after_handling, after_read, turn_for, Session, TurnView};
use crate::writer::{byte_sum, byte_sum_adds, framed, sum_from};

verus! {

/// What the bytes are that a packet without data is.
proof fn signs()
    ensures
        encode_utf8("+"@) == seq![0x2bu8],
        encode_utf8("-"@) == seq![0x2du8],
        encode_utf8("\x03"@) == seq![0x03u8],
{
    reveal_strlit("+");
    reveal_strlit("-");
    reveal_strlit("\x03");
    one_byte("+"@);
    one_byte("-"@);
    one_byte("\x03"@);
}

/// Nothing but a `$` starts a packet with data.
proof fn no_dollar(s: Seq<u8>)
    requires
        s.len() > 0,
        s[0] != 0x24,
    ensures
        grammar::packet(s) is Error,
{
    reveal(grammar::packet);
    reveal_strlit("$");
    tag_refuses(s, "$"@);
}

/// A `+` is an acknowledgment, a `-` asks to send again, and the byte 3 is an
/// interrupt, whatever follows.
pub proof fn signs_read(rest: Seq<u8>)
    ensures
        grammar::packet_or_response(seq![0x2bu8] + rest) == Parsed::Done(rest, PacketView::Ack),
        grammar::packet_or_response(seq![0x2du8] + rest) == Parsed::Done(rest, PacketView::Nack),
        grammar::packet_or_response(seq![0x03u8] + rest) == Parsed::Done(
            rest,
            PacketView::Interrupt,
        ),
{
    reveal(grammar::packet_or_response);
    signs();
    reveal_strlit("+");
    reveal_strlit("-");
    let a = seq![0x2bu8] + rest;
    let n = seq![0x2du8] + rest;
    let i = seq![0x03u8] + rest;
    no_dollar(a);
    no_dollar(n);
    no_dollar(i);
    tag_accepts("+"@, rest);
    tag_refuses(n, "+"@);
    tag_accepts("-"@, rest);
    tag_refuses(i, "+"@);
    tag_refuses(i, "-"@);
    tag_accepts("\x03"@, rest);
}

/// What starts with none of these bytes, nor with a `$`, is no packet, and more
/// bytes will not make it one.
pub proof fn other_bytes_refused(s: Seq<u8>)
    requires
        s.len() > 0,
        s[0] != 0x24 && s[0] != 0x2b && s[0] != 0x2d && s[0] != 0x03,
    ensures
        grammar::packet_or_response(s) == Parsed::<PacketView>::Error(ErrorKind::Alt),
{
    reveal(grammar::packet_or_response);
    reveal_strlit("+");
    reveal_strlit("-");
    reveal_strlit("\x03");
    no_dollar(s);
    tag_refuses(s, "+"@);
    tag_refuses(s, "-"@);
    tag_refuses(s, "\x03"@);
}

/// `h` stands for a checksum: two digits, or a plus sign and one digit.
pub open spec fn checksum_for(h: Seq<u8>, sum: u8) -> bool {
    &&& h.len() == 2
    &&& spells(h, sum as nat) || h[0] == 0x2b && spells(h.skip(1), sum as nat)
}

/// A `$`, data, a `#` and a checksum are a packet, whatever follows and whatever
/// the checksum says.
pub proof fn data_read(data: Seq<u8>, h: Seq<u8>, sum: u8, rest: Seq<u8>)
    requires
        !data.contains(0x23u8),
        checksum_for(h, sum),
    ensures
        grammar::packet_or_response(
            seq![0x24u8] + (data + (seq![0x23u8] + (h + rest))),
        ) == Parsed::Done(rest, PacketView::Data(data, sum)),
{
    reveal(grammar::packet_or_response);
    reveal(grammar::packet);
    dollar_and_hash();
    let s3 = h + rest;
    let s2 = encode_utf8("#"@) + s3;
    tag_accepts("$"@, data + s2);
    data_ends(data, s2);
    tag_accepts("#"@, s3);
    assert(grammar::checksum(s3) == Parsed::Done(rest, sum)) by {
        reveal(grammar::checksum);
        assert(s3[0] == h[0] && s3[1] == h[1]);
        assert(s3.skip(2) =~= rest);
        if spells(h, sum as nat) {
            assert(is_hex(h[0]) && is_hex(h[1]));
            assert(h =~= seq![h[0], h[1]]);
            two_digits(h[0], h[1]);
        } else {
            assert(h.skip(1) =~= seq![h[1]]);
            assert(is_hex(h.skip(1)[0]));
            number_of_one_digit(h[1]);
        }
    }
}

/// `s` is a packet with data, and `rest`.
pub open spec fn data_written(s: Seq<u8>, data: Seq<u8>, sum: u8, rest: Seq<u8>) -> bool {
    !data.contains(0x23u8) && exists|h: Seq<u8>| #[trigger]
        checksum_for(h, sum) && s == seq![0x24u8] + (data + (seq![0x23u8] + (h + rest)))
}

/// A packet is read only from what is a packet.
pub proof fn packet_shape(s: Seq<u8>)
    ensures
        grammar::packet_or_response(s) matches Parsed::Done(rest, p) ==> match p {
            PacketView::Ack => s == seq![0x2bu8] + rest,
            PacketView::Nack => s == seq![0x2du8] + rest,
            PacketView::Interrupt => s == seq![0x03u8] + rest,
            PacketView::Data(data, sum) => data_written(s, data, sum, rest),
        },
{
    reveal(grammar::packet_or_response);
    signs();
    tag_found(s, "+"@);
    tag_found(s, "-"@);
    tag_found(s, "\x03"@);
    if let Parsed::Done(rest, p) = grammar::packet(s) {
        reveal(grammar::packet);
        dollar_and_hash();
        tag_found(s, "$"@);
        let s1 = tag(s, "$"@)->Done_0;
        let (data, s2) = data_splits(s1);
        data_ends(data, s2);
        tag_found(s2, "#"@);
        let s3 = tag(s2, "#"@)->Done_0;
        reveal(grammar::checksum);
        let h = s3.take(2);
        assert(h =~= seq![s3[0], s3[1]]);
        two_digits(s3[0], s3[1]);
        number_of_one_digit(s3[1]);
        assert(h.skip(1) =~= seq![s3[1]]);
        assert(s3 =~= h + rest);
        assert(checksum_for(h, p.1));
        assert(s == seq![0x24u8] + (data + (seq![0x23u8] + (h + rest))));
        assert(data_written(s, data, p.1, rest));
    }
}

/// Data is handled as it came, acknowledged if packets are, and dropped together
/// with the four bytes around it.
pub proof fn data_handled(ack_mode: bool, data: Seq<u8>, h: Seq<u8>, sum: u8, rest: Seq<u8>)
    requires
        !data.contains(0x23u8),
        checksum_for(h, sum),
    ensures
        turn_for(ack_mode, seq![0x24u8] + (data + (seq![0x23u8] + (h + rest)))) == (TurnView {
            ack: ack_mode,
            data: Some(data),
            length: (data.len() + 4) as int,
        }),
{
    data_read(data, h, sum, rest);
}

/// A `+`, a `-` and an interrupt are dropped, one byte each, and nothing is done
/// about them.
pub proof fn signs_dropped(ack_mode: bool, rest: Seq<u8>)
    ensures
        turn_for(ack_mode, seq![0x2bu8] + rest) == (TurnView { ack: false, data: None, length: 1 }),
        turn_for(ack_mode, seq![0x2du8] + rest) == (TurnView { ack: false, data: None, length: 1 }),
        turn_for(ack_mode, seq![0x03u8] + rest) == (TurnView { ack: false, data: None, length: 1 }),
{
    signs_read(rest);
}

/// Nothing is done about what is no packet, or not a whole one yet, and it is
/// left where it is.
pub proof fn others_left_alone(ack_mode: bool, s: Seq<u8>)
    requires
        !(grammar::packet_or_response(s) is Done),
    ensures
        turn_for(ack_mode, s) == (TurnView { ack: false, data: None, length: 0 }),
{
}

/// A session goes on as long as there is something to read, and packets are
/// acknowledged until they are not to be.
pub proof fn session_goes_on(session: Session, s: Seq<u8>)
    requires
        s.len() > 0,
    ensures
        after_read(session, s) == session,
        after_handling(session, false) == session,
        !after_handling(session, true).ack_mode,
        after_handling(session, true).done == session.done,
{
}

/// No bytes leave a checksum as it is, one byte adds its value to it, and more
/// bytes add what each of them adds: a checksum is the sum of the bytes, in eight
/// bits.
pub proof fn checksum_adds_up(b: u8, x: Seq<u8>, y: Seq<u8>, init: u8)
    ensures
        sum_from(Seq::<u8>::empty(), init) == init,
        sum_from(seq![b], init) == (init + b) % 256,
        sum_from(x + y, init) == sum_from(y, sum_from(x, init)),
{
    assert(seq![b].drop_last() =~= seq![]);
    assert(byte_sum(Seq::<u8>::empty()) == 0);
    byte_sum_adds(x, y);
}

/// What is sent for some data is a `$`, the data, a `#`, and the sum of the data
/// in two digits.
pub proof fn frame(data: Seq<u8>) -> (h: Seq<u8>)
    ensures
        h.len() == 2,
        spells(h, sum_from(data, 0) as nat),
        framed(data) == seq![0x24u8] + data + seq![0x23u8] + h,
{
    dollar_and_hash();
    byte_written(sum_from(data, 0));
    let h = lower_hex_byte(sum_from(data, 0));
    assert(framed(data) =~= seq![0x24u8] + data + seq![0x23u8] + h);
    h
}

} // verus!
