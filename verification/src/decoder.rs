//! Decoding of fixed-width unsigned integers from a byte stream.
//!
//! The stream is a run of integers of four or eight bytes, all in one byte
//! order and with nothing between them. A read at the very end of the stream
//! is a clean end; a read that finds fewer bytes than the integer needs is a
//! corrupt stream.

use vstd::prelude::*;
use crate::error::Error;

verus! {

/// The order in which the bytes of an integer stand in the stream.
#[derive(Clone, Copy, Debug, PartialEq, Eq, Structural)]
pub enum Endianness {
    Big,
    Little,
}

/// The number that `bytes` write, least significant byte first.
pub open spec fn le_value(bytes: Seq<u8>) -> nat
    decreases bytes.len(),
{
    if bytes.len() == 0 {
        0
    } else {
        bytes[0] as nat + 256 * le_value(bytes.drop_first())
    }
}

/// The number that `bytes` write, most significant byte first.
pub open spec fn be_value(bytes: Seq<u8>) -> nat
    decreases bytes.len(),
{
    if bytes.len() == 0 {
        0
    } else {
        be_value(bytes.drop_last()) * 256 + bytes.last() as nat
    }
}

/// The number that `bytes` write in the given order.
pub open spec fn value_of(bytes: Seq<u8>, order: Endianness) -> nat {
    match order {
        Endianness::Big => be_value(bytes),
        Endianness::Little => le_value(bytes),
    }
}

/// The bytes that write `value` in `width` bytes, least significant first.
pub open spec fn le_bytes(value: nat, width: nat) -> Seq<u8>
    decreases width,
{
    if width == 0 {
        Seq::empty()
    } else {
        seq![(value % 256) as u8] + le_bytes(value / 256, (width - 1) as nat)
    }
}

/// The bytes that write `value` in `width` bytes, most significant first.
pub open spec fn be_bytes(value: nat, width: nat) -> Seq<u8>
    decreases width,
{
    if width == 0 {
        Seq::empty()
    } else {
        be_bytes(value / 256, (width - 1) as nat).push((value % 256) as u8)
    }
}

/// The bytes that write `value` in `width` bytes in the given order.
pub open spec fn bytes_of(value: nat, width: nat, order: Endianness) -> Seq<u8> {
    match order {
        Endianness::Big => be_bytes(value, width),
        Endianness::Little => le_bytes(value, width),
    }
}

/// One more than the greatest number that `width` bytes write.
pub open spec fn byte_limit(width: nat) -> nat
    decreases width,
{
    if width == 0 {
        1
    } else {
        256 * byte_limit((width - 1) as nat)
    }
}

/// The limits of the widths that are read.
pub proof fn lemma_byte_limit()
    ensures
        byte_limit(4) == 0x1_0000_0000,
        byte_limit(8) == 0x1_0000_0000_0000_0000,
        forall|width: nat| width < 8 ==> 256 * #[trigger] byte_limit(width) <= 0x1_0000_0000_0000_0000,
{
    reveal_with_fuel(byte_limit, 10);
    assert forall|width: nat| width < 8 implies 256 * #[trigger] byte_limit(width)
        <= 0x1_0000_0000_0000_0000 by {
    }
}

/// What bytes write is below the limit of their number.
pub proof fn lemma_value_below_limit(bytes: Seq<u8>, order: Endianness)
    ensures
        value_of(bytes, order) < byte_limit(bytes.len()),
    decreases bytes.len(),
{
    if bytes.len() > 0 {
        match order {
            Endianness::Big => {
                lemma_value_below_limit(bytes.drop_last(), order);
            },
            Endianness::Little => {
                lemma_value_below_limit(bytes.drop_first(), order);
            },
        }
    }
}

/// Decoding gives back what was encoded: the bytes that write a value in some
/// width and order write that value, where the width is enough for it.
pub proof fn lemma_decode_encode(value: nat, width: nat, order: Endianness)
    requires
        value < byte_limit(width),
    ensures
        bytes_of(value, width, order).len() == width,
        value_of(bytes_of(value, width, order), order) == value,
    decreases width,
{
    if width > 0 {
        let rest = (width - 1) as nat;
        lemma_decode_encode(value / 256, rest, order);
        match order {
            Endianness::Big => {
                let bytes = be_bytes(value, width);
                assert(bytes.drop_last() =~= be_bytes(value / 256, rest));
            },
            Endianness::Little => {
                let bytes = le_bytes(value, width);
                assert(bytes.drop_first() =~= le_bytes(value / 256, rest));
            },
        }
    }
}

/// The integers of `width` bytes each that stand complete in `bytes`.
pub open spec fn values_in(bytes: Seq<u8>, width: nat, order: Endianness) -> Seq<nat> {
    Seq::new(
        bytes.len() / width,
        |i: int| value_of(bytes.subrange(i * width, i * width + width), order),
    )
}

/// Three integers, encoded one after another, decode to the same three.
pub proof fn lemma_decode_three(a: nat, b: nat, c: nat, width: nat, order: Endianness)
    requires
        width > 0,
        a < byte_limit(width),
        b < byte_limit(width),
        c < byte_limit(width),
    ensures
        values_in(
            bytes_of(a, width, order) + bytes_of(b, width, order) + bytes_of(c, width, order),
            width,
            order,
        ) == seq![a, b, c],
{
    lemma_decode_encode(a, width, order);
    lemma_decode_encode(b, width, order);
    lemma_decode_encode(c, width, order);
    let first = bytes_of(a, width, order);
    let second = bytes_of(b, width, order);
    let third = bytes_of(c, width, order);
    let all = first + second + third;
    assert(all.len() / width == 3) by (nonlinear_arith)
        requires
            all.len() == 3 * width,
            width > 0,
    ;
    let w = width as int;
    assert(all.subrange(0 * w, 0 * w + w) =~= first);
    assert(all.subrange(1 * w, 1 * w + w) =~= second);
    assert(all.subrange(2 * w, 2 * w + w) =~= third);
}

/// A byte stream with a reading position and a fixed byte order.
pub struct Decoder {
    bytes: Vec<u8>,
    position: usize,
    order: Endianness,
}

impl Decoder {
    /// The position lies within the stream.
    pub closed spec fn wf(&self) -> bool {
        self.position <= self.bytes.len()
    }

    /// The bytes that have not been read yet.
    pub closed spec fn remaining(&self) -> Seq<u8> {
        self.bytes@.skip(self.position as int)
    }

    /// The byte order of the stream.
    pub closed spec fn order(&self) -> Endianness {
        self.order
    }

    /// A decoder at the start of `bytes`.
    pub fn new(bytes: Vec<u8>, order: Endianness) -> (decoder: Decoder)
        ensures
            decoder.wf(),
            decoder.remaining() == bytes@,
            decoder.order() == order,
    {
        let decoder = Decoder { bytes, position: 0, order };
        decoder
    }

    /// Reads an integer of `width` bytes: `Ok(None)` at the end of the stream,
    /// `CorruptBinaryStream` where the stream ends inside the integer.
    fn try_read(&mut self, width: usize) -> (read: Result<Option<u64>, Error>)
        requires
            old(self).wf(),
            width == 4 || width == 8,
        ensures
            final(self).wf(),
            final(self).order() == old(self).order(),
            read == read_result(old(self).remaining(), width as nat, old(self).order()),
            final(self).remaining() == rest_after(old(self).remaining(), width as nat),
    {
        let left = self.bytes.len() - self.position;
        if left == 0 {
            return Ok(None);
        }
        if left < width {
            return Err(Error::CorruptBinaryStream);
        }
        let ghost word = self.remaining().take(width as int);
        let start = self.position;
        let mut value: u64 = 0;
        let mut i: usize = 0;
        match self.order {
            Endianness::Big => {
                while i < width
                    invariant
                        i <= width <= 8,
                        start + width <= self.bytes.len(),
                        word == self.bytes@.subrange(start as int, start + width),
                        value == be_value(word.take(i as int)),
                    decreases width - i,
                {
                    proof {
                        lemma_byte_limit();
                        lemma_value_below_limit(word.take(i as int), Endianness::Big);
                        assert(word.take(i + 1).drop_last() =~= word.take(i as int));
                    }
                    value = value * 256 + self.bytes[start + i] as u64;
                    i += 1;
                }
                assert(word.take(width as int) =~= word);
            },
            Endianness::Little => {
                while i < width
                    invariant
                        i <= width <= 8,
                        start + width <= self.bytes.len(),
                        word == self.bytes@.subrange(start as int, start + width),
                        value == le_value(word.skip(width - i)),
                    decreases width - i,
                {
                    proof {
                        lemma_byte_limit();
                        lemma_value_below_limit(word.skip(width - i), Endianness::Little);
                        assert(word.skip(width - i - 1).drop_first() =~= word.skip(width - i));
                    }
                    value = value * 256 + self.bytes[start + width - 1 - i] as u64;
                    i += 1;
                }
                assert(word.skip(0) =~= word);
            },
        }
        self.position = start + width;
        Ok(Some(value))
    }

    /// Reads a four-byte integer, or finds the stream at its end.
    pub fn try_read_u32(&mut self) -> (read: Result<Option<u32>, Error>)
        requires
            old(self).wf(),
        ensures
            final(self).wf(),
            final(self).order() == old(self).order(),
            final(self).remaining() == rest_after(old(self).remaining(), 4),
            match read_result(old(self).remaining(), 4, old(self).order()) {
                Ok(Some(value)) => read == Ok::<Option<u32>, Error>(Some(value as u32)),
                Ok(None) => read == Ok::<Option<u32>, Error>(None),
                Err(error) => read == Err::<Option<u32>, Error>(error),
            },
    {
        match self.try_read(4) {
            Ok(Some(value)) => Ok(Some(value as u32)),
            Ok(None) => Ok(None),
            Err(error) => Err(error),
        }
    }

    /// Reads an eight-byte integer, or finds the stream at its end.
    pub fn try_read_u64(&mut self) -> (read: Result<Option<u64>, Error>)
        requires
            old(self).wf(),
        ensures
            final(self).wf(),
            final(self).order() == old(self).order(),
            final(self).remaining() == rest_after(old(self).remaining(), 8),
            read == read_result(old(self).remaining(), 8, old(self).order()),
    {
        self.try_read(8)
    }

    /// Reads a four-byte integer that has to be there: the end of the stream
    /// is as much an error as an end inside the integer.
    pub fn read_u32(&mut self) -> (read: Result<u32, Error>)
        requires
            old(self).wf(),
        ensures
            final(self).wf(),
            final(self).order() == old(self).order(),
            final(self).remaining() == rest_after(old(self).remaining(), 4),
            match read {
                Ok(value) => old(self).remaining().len() >= 4 && value == value_of(
                    old(self).remaining().take(4),
                    old(self).order(),
                ),
                Err(error) => old(self).remaining().len() < 4 && error
                    == Error::CorruptBinaryStream,
            },
    {
        proof {
            lemma_byte_limit();
            lemma_value_below_limit(self.remaining().take(4), self.order());
        }
        match self.try_read_u32() {
            Ok(Some(value)) => Ok(value),
            Ok(None) => Err(Error::CorruptBinaryStream),
            Err(error) => Err(error),
        }
    }

    /// Reads an eight-byte integer that has to be there.
    pub fn read_u64(&mut self) -> (read: Result<u64, Error>)
        requires
            old(self).wf(),
        ensures
            final(self).wf(),
            final(self).order() == old(self).order(),
            final(self).remaining() == rest_after(old(self).remaining(), 8),
            match read {
                Ok(value) => old(self).remaining().len() >= 8 && value == value_of(
                    old(self).remaining().take(8),
                    old(self).order(),
                ),
                Err(error) => old(self).remaining().len() < 8 && error
                    == Error::CorruptBinaryStream,
            },
    {
        proof {
            lemma_byte_limit();
            lemma_value_below_limit(self.remaining().take(8), self.order());
        }
        match self.try_read_u64() {
            Ok(Some(value)) => Ok(value),
            Ok(None) => Err(Error::CorruptBinaryStream),
            Err(error) => Err(error),
        }
    }

    /// Reads eight-byte integers up to the end of the stream. A stream that
    /// ends inside an integer is corrupt, whatever stood before.
    pub fn read_u64_sequence(&mut self) -> (read: Result<Vec<u64>, Error>)
        requires
            old(self).wf(),
        ensures
            final(self).wf(),
            final(self).order() == old(self).order(),
            match read {
                Ok(values) => {
                    &&& old(self).remaining().len() % 8 == 0
                    &&& values@.map_values(|v: u64| v as nat) == values_in(
                        old(self).remaining(),
                        8,
                        old(self).order(),
                    )
                    &&& final(self).remaining().len() == 0
                },
                Err(error) => {
                    &&& old(self).remaining().len() % 8 != 0
                    &&& error == Error::CorruptBinaryStream
                    &&& final(self).remaining() == old(self).remaining().skip(
                        old(self).remaining().len() - old(self).remaining().len() % 8,
                    )
                },
            },
    {
        let ghost all = self.remaining();
        let ghost order = self.order();
        let mut values: Vec<u64> = Vec::new();
        loop
            invariant
                self.wf(),
                self.order() == order,
                order == old(self).order(),
                all == old(self).remaining(),
                all.len() >= 8 * values.len(),
                self.remaining() == all.skip(8 * values.len()),
                forall|i: int|
                    0 <= i < values.len() ==> (#[trigger] values@[i]) as nat == value_of(
                        all.subrange(i * 8, i * 8 + 8),
                        order,
                    ),
            decreases self.remaining().len(),
        {
            let ghost before = self.remaining();
            proof {
                lemma_byte_limit();
                lemma_value_below_limit(before.take(8), order);
            }
            match self.try_read_u64() {
                Ok(Some(value)) => {
                    proof {
                        assert(before.take(8) =~= all.subrange(
                            values.len() * 8,
                            values.len() * 8 + 8,
                        ));
                    }
                    values.push(value);
                },
                Ok(None) => {
                    return Ok(values);
                },
                Err(error) => {
                    return Err(error);
                },
            }
        }
    }
}

/// What a read of `width` bytes finds in `bytes`: the integer, the clean end
/// of the stream, or a stream that ends inside the integer.
pub open spec fn read_result(bytes: Seq<u8>, width: nat, order: Endianness) -> Result<
    Option<u64>,
    Error,
> {
    if bytes.len() == 0 {
        Ok(None)
    } else if bytes.len() < width {
        Err(Error::CorruptBinaryStream)
    } else {
        Ok(Some(value_of(bytes.take(width as int), order) as u64))
    }
}

/// What is left of `bytes` after a read of `width` bytes: a read that finds
/// no integer consumes nothing.
pub open spec fn rest_after(bytes: Seq<u8>, width: nat) -> Seq<u8> {
    if bytes.len() < width {
        bytes
    } else {
        bytes.skip(width as int)
    }
}

} // verus!
