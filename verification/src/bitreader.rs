//! A cursor that reads a byte slice bit by bit, most significant bit first.
//!
//! Contracts speak of the slice as a sequence of bits ([`bits_of`]) and of the
//! cursor as an index into that sequence.

use crate::error::{Error, ErrorKind};
use vstd::arithmetic::power2::{lemma2_to64, lemma_pow2_strictly_increases, lemma_pow2_unfold, pow2};
use vstd::prelude::*;

verus! {

/// Bit `k` of a byte, where bit 0 is the most significant one.
pub open spec fn bit_of_byte(b: u8, k: int) -> bool {
    (b >> ((7 - k) as u8)) & 1u8 != 0u8
}

/// The bits of `data`, each byte's most significant bit first.
pub open spec fn bits_of(data: Seq<u8>) -> Seq<bool> {
    Seq::new(8 * data.len(), |i: int| bit_of_byte(data[i / 8], i % 8))
}

/// The number spelled by the `n` bits from `pos` on, first bit most significant.
pub open spec fn bits_value(bits: Seq<bool>, pos: int, n: nat) -> nat
    decreases n,
{
    if n == 0 {
        0
    } else {
        2 * bits_value(bits, pos, (n - 1) as nat) + (if bits[pos + n - 1] {
            1nat
        } else {
            0nat
        })
    }
}

/// The smallest multiple of eight that is not below `pos`.
pub open spec fn align_up(pos: int) -> int {
    if pos % 8 == 0 {
        pos
    } else {
        pos + 8 - pos % 8
    }
}

/// True when the bits from `pos` on are a single one followed by zeros only.
pub open spec fn only_stop_bit_left(bits: Seq<bool>, pos: int) -> bool {
    &&& 0 <= pos < bits.len()
    &&& bits[pos]
    &&& forall|j: int| pos < j < bits.len() ==> !#[trigger] bits[j]
}

/// True when the bits strictly after `pos` and before the next byte boundary are all zero.
pub open spec fn zero_padded(bits: Seq<bool>, pos: int) -> bool {
    forall|j: int| pos < j < align_up(pos + 1) ==> !#[trigger] bits[j]
}

/// True when `res` is an error of the given kind.
pub open spec fn fails_with<T>(res: Result<T, Error>, kind: ErrorKind) -> bool {
    res matches Err(e) && e.kind() == kind
}

/// `n` bits spell a number below two to the `n`.
pub proof fn lemma_bits_value_bound(bits: Seq<bool>, pos: int, n: nat)
    ensures
        bits_value(bits, pos, n) < pow2(n),
    decreases n,
{
    if n == 0 {
        lemma2_to64();
    } else {
        lemma_bits_value_bound(bits, pos, (n - 1) as nat);
        lemma_pow2_unfold(n);
    }
}

proof fn lemma_shift_in(value: u32, b: u32)
    requires
        value < 0x8000_0000u32,
        b <= 1,
    ensures
        (value << 1u32) | b == 2 * value + b,
{
    assert((value << 1u32) | b == 2 * value + b) by (bit_vector)
        requires
            value < 0x8000_0000u32,
            b <= 1,
    ;
}

proof fn lemma_zero_byte(b: u8)
    ensures
        b == 0 <==> (forall|k: int| 0 <= k < 8 ==> !#[trigger] bit_of_byte(b, k)),
{
    assert(b == 0 <==> ((b >> 7u8) & 1u8 == 0u8 && (b >> 6u8) & 1u8 == 0u8 && (b >> 5u8) & 1u8
        == 0u8 && (b >> 4u8) & 1u8 == 0u8 && (b >> 3u8) & 1u8 == 0u8 && (b >> 2u8) & 1u8 == 0u8
        && (b >> 1u8) & 1u8 == 0u8 && (b >> 0u8) & 1u8 == 0u8)) by (bit_vector);
    if b != 0 {
        assert(bit_of_byte(b, 0) || bit_of_byte(b, 1) || bit_of_byte(b, 2) || bit_of_byte(b, 3)
            || bit_of_byte(b, 4) || bit_of_byte(b, 5) || bit_of_byte(b, 6) || bit_of_byte(b, 7));
    } else {
        assert forall|k: int| 0 <= k < 8 implies !#[trigger] bit_of_byte(b, k) by {
            assert(k == 0 || k == 1 || k == 2 || k == 3 || k == 4 || k == 5 || k == 6 || k == 7);
        }
    }
}

/// A bit cursor over a borrowed byte slice.
pub struct BitReader<'a> {
    data: &'a [u8],
    byte_pos: usize,
    bit_pos: u8,
}

impl<'a> BitReader<'a> {
    #[verifier::type_invariant]
    spec fn well_formed(self) -> bool {
        &&& self.bit_pos < 8
        &&& self.byte_pos <= self.data@.len()
        &&& self.byte_pos == self.data@.len() ==> self.bit_pos == 0
    }

    /// The bytes under the cursor.
    pub closed spec fn bytes(&self) -> Seq<u8> {
        self.data@
    }

    /// Index of the next bit to be read.
    pub closed spec fn pos(&self) -> nat {
        (8 * self.byte_pos + self.bit_pos) as nat
    }

    /// The bits under the cursor.
    pub open spec fn bits(&self) -> Seq<bool> {
        bits_of(self.bytes())
    }

    /// Number of bits not yet read.
    pub open spec fn remaining(&self) -> int {
        self.bits().len() - self.pos()
    }

    pub fn new(data: &'a [u8]) -> (r: Self)
        ensures
            r.bytes() == data@,
            r.pos() == 0,
    {
        Self { data, byte_pos: 0, bit_pos: 0 }
    }

    /// Byte index and bit index (0 to 7) of the next bit.
    pub fn position(&self) -> (p: (usize, u8))
        ensures
            8 * p.0 + p.1 == self.pos(),
            p.1 < 8,
            self.pos() <= self.bits().len(),
    {
        proof {
            use_type_invariant(self);
        }
        (self.byte_pos, self.bit_pos)
    }

    /// Moves the cursor to a bit inside the data; any other target is refused
    /// and leaves the cursor where it was.
    pub fn seek(&mut self, byte_pos: usize, bit_pos: u8) -> (res: Result<(), Error>)
        ensures
            final(self).bytes() == old(self).bytes(),
            byte_pos < old(self).bytes().len() && bit_pos < 8 ==> res is Ok && final(self).pos()
                == 8 * byte_pos + bit_pos,
            !(byte_pos < old(self).bytes().len() && bit_pos < 8) ==> fails_with(
                res,
                ErrorKind::BitstreamError,
            ) && final(self).pos() == old(self).pos(),
    {
        if byte_pos >= self.data.len() || bit_pos > 7 {
            return Err(Error::BitstreamError("Seek position out of bounds".to_string()));
        }
        *self = BitReader { data: self.data, byte_pos, bit_pos };
        Ok(())
    }

    pub fn available_bits(&self) -> (n: usize)
        requires
            self.remaining() <= usize::MAX,
        ensures
            n == self.remaining(),
    {
        proof {
            use_type_invariant(self);
        }
        if self.byte_pos >= self.data.len() {
            return 0;
        }
        (self.data.len() - self.byte_pos - 1) * 8 + (8 - self.bit_pos as usize)
    }

    /// Reads one bit, or reports the end of the data and stays put.
    pub fn read_bit(&mut self) -> (res: Result<bool, Error>)
        ensures
            final(self).bytes() == old(self).bytes(),
            final(self).pos() <= final(self).bits().len(),
            old(self).pos() < old(self).bits().len() ==> res == Ok::<bool, Error>(
                old(self).bits()[old(self).pos() as int],
            ) && final(self).pos() == old(self).pos() + 1,
            old(self).pos() >= old(self).bits().len() ==> fails_with(
                res,
                ErrorKind::UnexpectedEof,
            ) && final(self).pos() == old(self).pos(),
    {
        proof {
            use_type_invariant(&*self);
        }
        if self.byte_pos >= self.data.len() {
            return Err(Error::UnexpectedEof);
        }
        let bit = (self.data[self.byte_pos] >> (7 - self.bit_pos)) & 1;
        if self.bit_pos == 7 {
            self.bit_pos = 0;
            self.byte_pos += 1;
        } else {
            self.bit_pos += 1;
        }
        Ok(bit != 0)
    }

    /// Reads `n` bits as a number, first bit most significant. More than 32
    /// bits are refused; when fewer than `n` remain, all of them are consumed.
    pub fn read_bits(&mut self, n: u32) -> (res: Result<u32, Error>)
        ensures
            final(self).bytes() == old(self).bytes(),
            final(self).pos() <= final(self).bits().len(),
            n > 32 ==> fails_with(res, ErrorKind::BitstreamError),
            n > 32 ==> final(self).pos() == old(self).pos(),
            n <= 32 && n <= old(self).remaining() ==> res == Ok::<u32, Error>(
                bits_value(old(self).bits(), old(self).pos() as int, n as nat) as u32,
            ) && final(self).pos() == old(self).pos() + n,
            n <= 32 && n > old(self).remaining() ==> fails_with(res, ErrorKind::UnexpectedEof)
                && final(self).pos() == old(self).bits().len(),
    {
        proof {
            use_type_invariant(&*self);
        }
        if n > 32 {
            return Err(Error::BitstreamError("Cannot read more than 32 bits".to_string()));
        }
        let ghost start = self.pos() as int;
        let ghost bits = self.bits();
        let mut value: u32 = 0;
        let mut i: u32 = 0;
        while i < n
            invariant
                i <= n <= 32,
                self.bytes() == old(self).bytes(),
                bits == self.bits(),
                start == old(self).pos(),
                self.pos() == start + i,
                self.pos() <= bits.len(),
                value == bits_value(bits, start, i as nat),
            decreases n - i,
        {
            let bit: u32 = match self.read_bit() {
                Ok(b) => if b {
                    1
                } else {
                    0
                },
                Err(e) => {
                    return Err(e);
                },
            };
            proof {
                lemma2_to64();
                lemma_bits_value_bound(bits, start, i as nat);
                if i < 31 {
                    lemma_pow2_strictly_increases(i as nat, 31);
                }
                lemma_shift_in(value, bit);
            }
            value = (value << 1) | bit;
            i += 1;
        }
        proof {
            lemma2_to64();
            lemma_bits_value_bound(bits, start, n as nat);
            if n < 32 {
                lemma_pow2_strictly_increases(n as nat, 32);
            }
        }
        Ok(value)
    }

    pub fn read_flag(&mut self) -> (res: Result<bool, Error>)
        ensures
            final(self).bytes() == old(self).bytes(),
            final(self).pos() <= final(self).bits().len(),
            old(self).pos() < old(self).bits().len() ==> res == Ok::<bool, Error>(
                old(self).bits()[old(self).pos() as int],
            ) && final(self).pos() == old(self).pos() + 1,
            old(self).pos() >= old(self).bits().len() ==> fails_with(
                res,
                ErrorKind::UnexpectedEof,
            ) && final(self).pos() == old(self).pos(),
    {
        self.read_bit()
    }

    pub fn read_u8(&mut self) -> (res: Result<u8, Error>)
        ensures
            final(self).bytes() == old(self).bytes(),
            final(self).pos() <= final(self).bits().len(),
            8 <= old(self).remaining() ==> res == Ok::<u8, Error>(
                bits_value(old(self).bits(), old(self).pos() as int, 8) as u8,
            ) && final(self).pos() == old(self).pos() + 8,
            8 > old(self).remaining() ==> fails_with(res, ErrorKind::UnexpectedEof),
            8 > old(self).remaining() ==> final(self).pos() == old(self).bits().len(),
    {
        proof {
            lemma_bits_value_bound(self.bits(), self.pos() as int, 8);
            lemma2_to64();
        }
        match self.read_bits(8) {
            Ok(v) => Ok(v as u8),
            Err(e) => Err(e),
        }
    }

    pub fn read_u16(&mut self) -> (res: Result<u16, Error>)
        ensures
            final(self).bytes() == old(self).bytes(),
            final(self).pos() <= final(self).bits().len(),
            16 <= old(self).remaining() ==> res == Ok::<u16, Error>(
                bits_value(old(self).bits(), old(self).pos() as int, 16) as u16,
            ) && final(self).pos() == old(self).pos() + 16,
            16 > old(self).remaining() ==> fails_with(res, ErrorKind::UnexpectedEof),
            16 > old(self).remaining() ==> final(self).pos() == old(self).bits().len(),
    {
        proof {
            lemma_bits_value_bound(self.bits(), self.pos() as int, 16);
            lemma2_to64();
        }
        match self.read_bits(16) {
            Ok(v) => Ok(v as u16),
            Err(e) => Err(e),
        }
    }

    /// What `read_bits` would return, with the cursor left where it was.
    pub fn peek_bits(&mut self, n: u32) -> (res: Result<u32, Error>)
        ensures
            final(self).bytes() == old(self).bytes(),
            final(self).pos() == old(self).pos(),
            n > 32 ==> fails_with(res, ErrorKind::BitstreamError),
            n <= 32 && n <= old(self).remaining() ==> res == Ok::<u32, Error>(
                bits_value(old(self).bits(), old(self).pos() as int, n as nat) as u32,
            ),
            n <= 32 && n > old(self).remaining() ==> fails_with(res, ErrorKind::UnexpectedEof),
    {
        proof {
            use_type_invariant(&*self);
        }
        let saved_byte = self.byte_pos;
        let saved_bit = self.bit_pos;
        let res = self.read_bits(n);
        *self = BitReader { data: self.data, byte_pos: saved_byte, bit_pos: saved_bit };
        res
    }

    /// Moves `n` bits ahead; when fewer remain, stops at the end and reports it.
    pub fn skip_bits(&mut self, n: u32) -> (res: Result<(), Error>)
        ensures
            final(self).bytes() == old(self).bytes(),
            final(self).pos() <= final(self).bits().len(),
            n <= old(self).remaining() ==> res is Ok && final(self).pos() == old(self).pos() + n,
            n > old(self).remaining() ==> fails_with(res, ErrorKind::UnexpectedEof),
            n > old(self).remaining() ==> final(self).pos() == old(self).bits().len(),
    {
        proof {
            use_type_invariant(&*self);
        }
        let mut i: u32 = 0;
        while i < n
            invariant
                i <= n,
                self.bytes() == old(self).bytes(),
                self.pos() == old(self).pos() + i,
                self.pos() <= self.bits().len(),
            decreases n - i,
        {
            match self.read_bit() {
                Ok(_) => {},
                Err(e) => {
                    return Err(e);
                },
            }
            i += 1;
        }
        Ok(())
    }

    pub fn byte_aligned(&self) -> (b: bool)
        ensures
            b == (self.pos() % 8 == 0),
    {
        proof {
            use_type_invariant(self);
        }
        self.bit_pos == 0
    }

    /// Moves to the next byte boundary unless already on one.
    pub fn align_to_byte(&mut self)
        ensures
            final(self).bytes() == old(self).bytes(),
            final(self).pos() == align_up(old(self).pos() as int),
            final(self).pos() <= final(self).bits().len(),
    {
        proof {
            use_type_invariant(&*self);
        }
        assert(self.data.len() == self.data@.len());
        if self.bit_pos != 0 {
            self.bit_pos = 0;
            self.byte_pos += 1;
        }
    }

    /// False at the end of the data and when all that is left is the stop bit
    /// with its zero padding; true otherwise.
    pub fn more_rbsp_data(&self) -> (more: bool)
        ensures
            more == (self.pos() < self.bits().len() && !only_stop_bit_left(
                self.bits(),
                self.pos() as int,
            )),
    {
        proof {
            use_type_invariant(self);
        }
        if self.byte_pos >= self.data.len() {
            return false;
        }
        let ghost bits = self.bits();
        let ghost pos = self.pos() as int;
        let first = self.data[self.byte_pos];
        if (first >> (7 - self.bit_pos)) & 1 == 0 {
            return true;
        }
        let mut k: u8 = self.bit_pos + 1;
        while k < 8
            invariant
                self.bit_pos < k <= 8,
                self.byte_pos < self.data@.len(),
                first == self.data@[self.byte_pos as int],
                bits == bits_of(self.data@),
                bits == self.bits(),
                pos == self.pos(),
                pos == 8 * self.byte_pos + self.bit_pos,
                bits[pos],
                forall|j: int| pos < j < 8 * self.byte_pos + k ==> !#[trigger] bits[j],
            decreases 8 - k,
        {
            if (first >> (7 - k)) & 1 != 0 {
                assert(bits[8 * self.byte_pos + k]);
                return true;
            }
            k += 1;
        }
        let mut i: usize = self.byte_pos + 1;
        while i < self.data.len()
            invariant
                self.byte_pos < i <= self.data@.len(),
                bits == bits_of(self.data@),
                bits == self.bits(),
                pos == self.pos(),
                0 <= pos < 8 * i,
                bits[pos],
                forall|j: int| pos < j < 8 * i ==> !#[trigger] bits[j],
            decreases self.data@.len() - i,
        {
            let b = self.data[i];
            proof {
                lemma_zero_byte(b);
            }
            if b != 0 {
                proof {
                    let k = choose|k: int| 0 <= k < 8 && bit_of_byte(b, k);
                    assert(bits[8 * i + k]);
                }
                return true;
            }
            assert forall|j: int| pos < j < 8 * (i + 1) implies !#[trigger] bits[j] by {
                if j >= 8 * i {
                    assert(!bit_of_byte(b, j % 8));
                }
            }
            i += 1;
        }
        false
    }

    /// Consumes the stop bit and the zero bits up to the next byte boundary.
    /// Fails at the end of the data, when the stop bit is zero, and when a
    /// padding bit is one.
    pub fn rbsp_trailing_bits(&mut self) -> (res: Result<(), Error>)
        ensures
            final(self).bytes() == old(self).bytes(),
            final(self).pos() <= final(self).bits().len(),
            old(self).remaining() <= 0 ==> fails_with(res, ErrorKind::UnexpectedEof),
            old(self).remaining() > 0 && !(old(self).bits()[old(self).pos() as int] && zero_padded(
                old(self).bits(),
                old(self).pos() as int,
            )) ==> fails_with(res, ErrorKind::BitstreamError),
            old(self).remaining() > 0 && old(self).bits()[old(self).pos() as int] && zero_padded(
                old(self).bits(),
                old(self).pos() as int,
            ) ==> res is Ok && final(self).pos() == align_up(old(self).pos() as int + 1),
    {
        proof {
            use_type_invariant(&*self);
        }
        let ghost bits = self.bits();
        let ghost start = self.pos() as int;
        match self.read_flag() {
            Ok(true) => {},
            Ok(false) => {
                return Err(Error::BitstreamError("Expected rbsp_stop_one_bit".to_string()));
            },
            Err(e) => {
                return Err(e);
            },
        }
        while !self.byte_aligned()
            invariant
                self.bytes() == old(self).bytes(),
                bits == self.bits(),
                start == old(self).pos(),
                start < self.pos() <= align_up(start + 1),
                self.pos() <= bits.len(),
                bits.len() % 8 == 0,
                forall|j: int| start < j < self.pos() ==> !#[trigger] bits[j],
            decreases align_up(start + 1) - self.pos(),
        {
            match self.read_flag() {
                Ok(false) => {},
                Ok(true) => {
                    return Err(
                        Error::BitstreamError("Expected rbsp_alignment_zero_bit".to_string()),
                    );
                },
                Err(e) => {
                    return Err(e);
                },
            }
        }
        Ok(())
    }
}

} // verus!
