//! Packets on their way out.
use vstd::prelude::*;
use vstd::utf8::encode_utf8;
use crate::hex::{hex_of, hex_of_byte, lower_hex, lower_hex_byte, lower_hex_bytes};

verus! {

/// The sum of some bytes.
pub open spec fn byte_sum(bytes: Seq<u8>) -> nat
    decreases bytes.len(),
{
    if bytes.len() == 0 {
        0
    } else {
        byte_sum(bytes.drop_last()) + bytes.last() as nat
    }
}

/// The checksum of some bytes: `init` and the bytes added up, modulo 256.
pub open spec fn sum_from(bytes: Seq<u8>, init: u8) -> u8 {
    ((init + byte_sum(bytes)) % 256) as u8
}

/// The checksum of some bytes, added to that of what came before them.
pub fn compute_checksum_incremental(bytes: &[u8], init: u8) -> (sum: u8)
    ensures
        sum == sum_from(bytes@, init),
{
    let mut sum: u8 = init;
    let mut k: usize = 0;
    assert(bytes@.take(0) =~= seq![]);
    while k < bytes.len()
        invariant
            k <= bytes@.len(),
            sum == sum_from(bytes@.take(k as int), init),
        decreases bytes.len() - k,
    {
        assert(bytes@.take(k + 1).drop_last() =~= bytes@.take(k as int));
        sum = sum.wrapping_add(bytes[k]);
        k += 1;
    }
    assert(bytes@.take(k as int) =~= bytes@);
    sum
}

/// Puts some bytes at the end of a buffer.
pub fn append_bytes(buffer: &mut Vec<u8>, bytes: &[u8])
    ensures
        final(buffer)@ == old(buffer)@ + bytes@,
{
    let mut k: usize = 0;
    while k < bytes.len()
        invariant
            k <= bytes@.len(),
            buffer@ == old(buffer)@ + bytes@.take(k as int),
        decreases bytes.len() - k,
    {
        buffer.push(bytes[k]);
        assert(bytes@.take(k + 1) =~= bytes@.take(k as int).push(bytes@[k as int]));
        k += 1;
    }
    assert(bytes@.take(k as int) =~= bytes@);
}

/// The bytes of a packet that carries `data`: `$`, the data, `#`, and the
/// checksum of the data as two digits.
pub open spec fn framed(data: Seq<u8>) -> Seq<u8> {
    encode_utf8("$"@) + data + encode_utf8("#"@) + lower_hex_byte(sum_from(data, 0))
}

/// A writer which sends a single packet.
pub struct PacketWriter<'a> {
    /// Where the packet goes.
    pub writer: &'a mut Vec<u8>,
    /// The checksum of what was written so far.
    pub checksum: u8,
}

/// A writer that was `before` is now `after`: it wrote `bytes` and added them
/// to its checksum.
pub open spec fn writes(before: PacketWriter<'_>, after: PacketWriter<'_>, bytes: Seq<u8>) -> bool {
    &&& after.writer@ == before.writer@ + bytes
    &&& after.checksum == sum_from(bytes, before.checksum)
}

/// Writing some bytes and then some more is writing all of them.
pub broadcast proof fn writes_on(
    a: PacketWriter<'_>,
    b: PacketWriter<'_>,
    c: PacketWriter<'_>,
    x: Seq<u8>,
    y: Seq<u8>,
)
    requires
        #[trigger] writes(a, b, x),
        #[trigger] writes(b, c, y),
    ensures
        writes(a, c, x + y),
{
    assert(a.writer@ + (x + y) =~= (a.writer@ + x) + y);
    byte_sum_adds(x, y);
}

/// The sum of two rows of bytes is the sum of one and the sum of the other.
pub proof fn byte_sum_adds(x: Seq<u8>, y: Seq<u8>)
    ensures
        byte_sum(x + y) == byte_sum(x) + byte_sum(y),
    decreases y.len(),
{
    if y.len() == 0 {
        assert(x + y =~= x);
    } else {
        assert((x + y).drop_last() =~= x + y.drop_last());
        byte_sum_adds(x, y.drop_last());
    }
}

impl<'a> PacketWriter<'a> {
    /// A writer at the start of the data of a packet.
    pub fn new(writer: &'a mut Vec<u8>) -> (p: PacketWriter<'a>)
        ensures
            p.checksum == 0,
            *p.writer == *old(writer),
            *final(writer) == *final(p.writer),
    {
        PacketWriter { writer, checksum: 0 }
    }

    /// Ends the packet with its checksum.
    pub fn finish(&mut self)
        ensures
            final(self).writer@ == old(self).writer@ + encode_utf8("#"@) + lower_hex_byte(
                old(self).checksum,
            ),
            final(self).checksum == 0,
            *final(final(self).writer) == *final(old(self).writer),
    {
        let sum: u8 = self.checksum;
        self.write_str("#");
        self.write_hex_byte(sum);
        self.checksum = 0;
    }

    /// Writes some bytes.
    pub fn write(&mut self, buf: &[u8])
        ensures
            writes(*old(self), *final(self), buf@),
            *final(final(self).writer) == *final(old(self).writer),
    {
        append_bytes(self.writer, buf);
        self.checksum = compute_checksum_incremental(buf, self.checksum);
    }

    /// Writes some text.
    pub fn write_str(&mut self, text: &str)
        ensures
            writes(*old(self), *final(self), encode_utf8(text@)),
            *final(final(self).writer) == *final(old(self).writer),
    {
        self.write(text.as_bytes());
    }

    /// Writes a number in hexadecimal.
    pub fn write_hex(&mut self, n: u64)
        ensures
            writes(*old(self), *final(self), lower_hex(n as nat)),
            *final(final(self).writer) == *final(old(self).writer),
    {
        let digits = hex_of(n);
        self.write(digits.as_slice());
    }

    /// Writes a byte as two hexadecimal digits.
    pub fn write_hex_byte(&mut self, b: u8)
        ensures
            writes(*old(self), *final(self), lower_hex_byte(b)),
            *final(final(self).writer) == *final(old(self).writer),
    {
        let digits = hex_of_byte(b);
        self.write(digits.as_slice());
    }

    /// Writes each of some bytes as two hexadecimal digits.
    pub fn write_hex_bytes(&mut self, bytes: &[u8])
        ensures
            writes(*old(self), *final(self), lower_hex_bytes(bytes@)),
            *final(final(self).writer) == *final(old(self).writer),
    {
        let ghost before = *self;
        let mut k: usize = 0;
        proof {
            assert(bytes@.take(0) =~= seq![]);
            assert(before.writer@ + seq![] =~= before.writer@);
        }
        while k < bytes.len()
            invariant
                k <= bytes@.len(),
                before == *old(self),
                writes(before, *self, lower_hex_bytes(bytes@.take(k as int))),
                *final(self.writer) == *final(old(self).writer),
            decreases bytes.len() - k,
        {
            let ghost so_far = *self;
            self.write_hex_byte(bytes[k]);
            proof {
                assert(bytes@.take(k + 1).drop_last() =~= bytes@.take(k as int));
                writes_on(
                    before,
                    so_far,
                    *self,
                    lower_hex_bytes(bytes@.take(k as int)),
                    lower_hex_byte(bytes@[k as int]),
                );
            }
            k += 1;
        }
        assert(bytes@.take(k as int) =~= bytes@);
    }
}

} // verus!
