//! How a header's syntax is written down, in contracts and in code.
//!
//! A header is a run of syntax elements, one after the other, where later
//! elements may depend on earlier ones. In contracts its meaning is given by
//! threading a [`Cursor`] through one `take_*` step per element. A cursor is a
//! bit position, or the first fault that was met; every step from a fault
//! gives that fault again and a zero value, so the first fault is the one
//! that the whole header reports.
//!
//! [`Scan`] reads the same way: it wraps a [`BitReader`], keeps the first
//! error, and after an error returns zeros without reading on.

use crate::bitreader::{bits_of, bits_value, fails_with, only_stop_bit_left, BitReader};
use crate::eg::{read_se, read_ue, se_at, ue_at};
use crate::error::{Error, ErrorKind};
use vstd::prelude::*;

verus! {

/// A position in a bit sequence, or the first fault met on the way.
pub enum Cursor {
    At(int),
    Fault(ErrorKind),
}

impl Cursor {
    /// The cursor before the first bit.
    pub open spec fn start() -> Cursor {
        Cursor::At(0)
    }

    /// This cursor turned into the fault `kind`, unless it is a fault already.
    pub open spec fn fail(self, kind: ErrorKind) -> Cursor {
        match self {
            Cursor::At(_) => Cursor::Fault(kind),
            Cursor::Fault(_) => self,
        }
    }

    /// This cursor if `cond` holds, else this cursor failed with `kind`.
    pub open spec fn require(self, cond: bool, kind: ErrorKind) -> Cursor {
        if cond {
            self
        } else {
            self.fail(kind)
        }
    }
}

/// An `n`-bit number. More than 32 bits are invalid.
pub open spec fn take_bits(bits: Seq<bool>, c: Cursor, n: nat) -> (nat, Cursor) {
    match c {
        Cursor::Fault(_) => (0, c),
        Cursor::At(pos) => if n > 32 {
            (0, Cursor::Fault(ErrorKind::BitstreamError))
        } else if pos + n > bits.len() {
            (0, Cursor::Fault(ErrorKind::UnexpectedEof))
        } else {
            (bits_value(bits, pos, n), Cursor::At(pos + n))
        },
    }
}

/// A one-bit flag.
pub open spec fn take_flag(bits: Seq<bool>, c: Cursor) -> (bool, Cursor) {
    match c {
        Cursor::Fault(_) => (false, c),
        Cursor::At(pos) => if !(0 <= pos < bits.len()) {
            (false, Cursor::Fault(ErrorKind::UnexpectedEof))
        } else {
            (bits[pos], Cursor::At(pos + 1))
        },
    }
}

/// An unsigned Exp-Golomb code.
pub open spec fn take_ue(bits: Seq<bool>, c: Cursor) -> (nat, Cursor) {
    match c {
        Cursor::Fault(_) => (0, c),
        Cursor::At(pos) => match ue_at(bits, pos) {
            Ok((v, next)) => (v, Cursor::At(next)),
            Err(kind) => (0, Cursor::Fault(kind)),
        },
    }
}

/// A signed Exp-Golomb code.
pub open spec fn take_se(bits: Seq<bool>, c: Cursor) -> (int, Cursor) {
    match c {
        Cursor::Fault(_) => (0, c),
        Cursor::At(pos) => match se_at(bits, pos) {
            Ok((v, next)) => (v, Cursor::At(next)),
            Err(kind) => (0, Cursor::Fault(kind)),
        },
    }
}

/// `count` unsigned codes, read and dropped.
pub open spec fn past_ues(bits: Seq<bool>, c: Cursor, count: nat) -> Cursor
    decreases count,
{
    if count == 0 || c is Fault {
        c
    } else {
        past_ues(bits, take_ue(bits, c).1, (count - 1) as nat)
    }
}

/// `count` signed codes, read and dropped.
pub open spec fn past_ses(bits: Seq<bool>, c: Cursor, count: nat) -> Cursor
    decreases count,
{
    if count == 0 || c is Fault {
        c
    } else {
        past_ses(bits, take_se(bits, c).1, (count - 1) as nat)
    }
}

/// `count` numbers of `width` bits each, read and dropped.
pub open spec fn past_fixed(bits: Seq<bool>, c: Cursor, width: nat, count: nat) -> Cursor
    decreases count,
{
    if count == 0 || c is Fault {
        c
    } else {
        past_fixed(bits, take_bits(bits, c, width).1, width, (count - 1) as nat)
    }
}

/// The rest of a scaling list with `size` entries to go, where `last` and
/// `next` are the running scale values. While `next` is not zero each entry
/// holds a signed delta and `next` becomes `(last + delta + 256) mod 256`;
/// once it is zero the remaining entries hold nothing.
pub open spec fn past_scaling_entries(
    bits: Seq<bool>,
    c: Cursor,
    size: nat,
    last: int,
    next: int,
) -> Cursor
    decreases size,
{
    if size == 0 || c is Fault || next == 0 {
        c
    } else {
        let (delta, c2) = take_se(bits, c);
        let next2 = (last + delta + 256) % 256;
        past_scaling_entries(
            bits,
            c2,
            (size - 1) as nat,
            if next2 == 0 {
                last
            } else {
                next2
            },
            next2,
        )
    }
}

/// A scaling list of `size` entries, read and dropped. Both running scale
/// values start at 8.
pub open spec fn past_scaling_list(bits: Seq<bool>, c: Cursor, size: nat) -> Cursor {
    past_scaling_entries(bits, c, size, 8, 8)
}

/// `count` optional scaling lists, each announced by a flag. The first
/// `small` of them have 16 entries, the others 64.
pub open spec fn past_scaling_lists(bits: Seq<bool>, c: Cursor, count: nat, small: nat) -> Cursor
    decreases count,
{
    if count == 0 || c is Fault {
        c
    } else {
        let (present, c1) = take_flag(bits, c);
        let c2 = if present {
            past_scaling_list(
                bits,
                c1,
                if small > 0 {
                    16
                } else {
                    64
                },
            )
        } else {
            c1
        };
        past_scaling_lists(
            bits,
            c2,
            (count - 1) as nat,
            if small > 0 {
                (small - 1) as nat
            } else {
                0
            },
        )
    }
}

/// True when more than the stop bit and its padding is left at the cursor.
pub open spec fn more_data(bits: Seq<bool>, c: Cursor) -> bool {
    c matches Cursor::At(pos) && 0 <= pos < bits.len() && !only_stop_bit_left(bits, pos)
}

/// What a finished header reports: its value, or the first fault met.
pub open spec fn finish<T>(value: T, c: Cursor) -> Result<T, ErrorKind> {
    match c {
        Cursor::Fault(kind) => Err(kind),
        Cursor::At(_) => Ok(value),
    }
}

/// A bit reader that keeps the first error. Once it holds an error, reading
/// returns zero and `false` and moves nothing.
pub struct Scan<'a> {
    reader: BitReader<'a>,
    fault: Option<Error>,
}

impl<'a> Scan<'a> {
    /// The bits being read.
    pub closed spec fn bits(&self) -> Seq<bool> {
        self.reader.bits()
    }

    /// Where the next element starts, or the first fault met.
    pub closed spec fn cursor(&self) -> Cursor {
        match self.fault {
            Some(e) => Cursor::Fault(e.kind()),
            None => Cursor::At(self.reader.pos() as int),
        }
    }

    pub fn new(data: &'a [u8]) -> (scan: Self)
        ensures
            scan.bits() == bits_of(data@),
            scan.cursor() == Cursor::start(),
    {
        Scan { reader: BitReader::new(data), fault: None }
    }

    /// True while no error has been met.
    pub fn sound(&self) -> (b: bool)
        ensures
            b == (self.cursor() is At),
    {
        self.fault.is_none()
    }

    /// Records `error`, unless an earlier one is held.
    pub fn fail(&mut self, error: Error)
        ensures
            final(self).bits() == old(self).bits(),
            final(self).cursor() == old(self).cursor().fail(error.kind()),
    {
        if self.fault.is_none() {
            self.fault = Some(error);
        }
    }

    /// An `n`-bit number.
    pub fn u(&mut self, n: u32) -> (v: u32)
        ensures
            final(self).bits() == old(self).bits(),
            v < vstd::arithmetic::power2::pow2(n as nat),
            (v as nat, final(self).cursor()) == take_bits(
                old(self).bits(),
                old(self).cursor(),
                n as nat,
            ),
    {
        proof {
            vstd::arithmetic::power2::lemma_pow2_pos(n as nat);
        }
        if self.fault.is_some() {
            return 0;
        }
        proof {
            crate::bitreader::lemma_bits_value_bound(
                self.reader.bits(),
                self.reader.pos() as int,
                n as nat,
            );
            vstd::arithmetic::power2::lemma2_to64();
            if n < 32 {
                vstd::arithmetic::power2::lemma_pow2_strictly_increases(n as nat, 32);
            }
        }
        match self.reader.read_bits(n) {
            Ok(v) => v,
            Err(e) => {
                self.fault = Some(e);
                0
            },
        }
    }

    /// A one-bit flag.
    pub fn flag(&mut self) -> (b: bool)
        ensures
            final(self).bits() == old(self).bits(),
            (b, final(self).cursor()) == take_flag(old(self).bits(), old(self).cursor()),
    {
        if self.fault.is_some() {
            return false;
        }
        match self.reader.read_flag() {
            Ok(b) => b,
            Err(e) => {
                self.fault = Some(e);
                false
            },
        }
    }

    /// An unsigned Exp-Golomb code.
    pub fn ue(&mut self) -> (v: u32)
        ensures
            final(self).bits() == old(self).bits(),
            v <= 0xFFFF_FFFE,
            (v as nat, final(self).cursor()) == take_ue(old(self).bits(), old(self).cursor()),
    {
        if self.fault.is_some() {
            return 0;
        }
        match read_ue(&mut self.reader) {
            Ok(v) => v,
            Err(e) => {
                self.fault = Some(e);
                0
            },
        }
    }

    /// A signed Exp-Golomb code.
    pub fn se(&mut self) -> (v: i32)
        ensures
            final(self).bits() == old(self).bits(),
            -0x7FFF_FFFF <= v <= 0x7FFF_FFFF,
            (v as int, final(self).cursor()) == take_se(old(self).bits(), old(self).cursor()),
    {
        if self.fault.is_some() {
            return 0;
        }
        match read_se(&mut self.reader) {
            Ok(v) => v,
            Err(e) => {
                self.fault = Some(e);
                0
            },
        }
    }

    /// Reads and drops `count` unsigned codes.
    pub fn skip_ues(&mut self, count: u64)
        ensures
            final(self).bits() == old(self).bits(),
            final(self).cursor() == past_ues(old(self).bits(), old(self).cursor(), count as nat),
    {
        let mut i: u64 = 0;
        while i < count && self.fault.is_none()
            invariant
                i <= count,
                self.bits() == old(self).bits(),
                past_ues(old(self).bits(), old(self).cursor(), count as nat) == past_ues(
                    self.bits(),
                    self.cursor(),
                    (count - i) as nat,
                ),
            decreases count - i,
        {
            let _ = self.ue();
            i += 1;
        }
    }

    /// Reads and drops `count` signed codes.
    pub fn skip_ses(&mut self, count: u64)
        ensures
            final(self).bits() == old(self).bits(),
            final(self).cursor() == past_ses(old(self).bits(), old(self).cursor(), count as nat),
    {
        let mut i: u64 = 0;
        while i < count && self.fault.is_none()
            invariant
                i <= count,
                self.bits() == old(self).bits(),
                past_ses(old(self).bits(), old(self).cursor(), count as nat) == past_ses(
                    self.bits(),
                    self.cursor(),
                    (count - i) as nat,
                ),
            decreases count - i,
        {
            let _ = self.se();
            i += 1;
        }
    }

    /// Reads and drops `count` numbers of `width` bits each.
    pub fn skip_numbers(&mut self, width: u32, count: u64)
        ensures
            final(self).bits() == old(self).bits(),
            final(self).cursor() == past_fixed(
                old(self).bits(),
                old(self).cursor(),
                width as nat,
                count as nat,
            ),
    {
        let mut i: u64 = 0;
        while i < count && self.fault.is_none()
            invariant
                i <= count,
                self.bits() == old(self).bits(),
                past_fixed(old(self).bits(), old(self).cursor(), width as nat, count as nat)
                    == past_fixed(self.bits(), self.cursor(), width as nat, (count - i) as nat),
            decreases count - i,
        {
            let _ = self.u(width);
            i += 1;
        }
    }

    /// True when no error is held and more than the stop bit and its padding
    /// is left.
    pub fn more_data(&self) -> (more: bool)
        ensures
            more == more_data(self.bits(), self.cursor()),
    {
        self.fault.is_none() && self.reader.more_rbsp_data()
    }

    /// Ends the header: `value`, or the first error met.
    pub fn finish<T>(self, value: T) -> (res: Result<T, Error>)
        ensures
            match finish(value, self.cursor()) {
                Ok(v) => res == Ok::<T, Error>(v),
                Err(kind) => fails_with(res, kind),
            },
    {
        match self.fault {
            Some(e) => Err(e),
            None => Ok(value),
        }
    }
}

} // verus!
