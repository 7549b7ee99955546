//! NAL units: the header byte, the escaped payload, and the conversion
//! between escaped (EBSP) and raw (RBSP) payload bytes.

use crate::bitreader::fails_with;
use crate::error::{Error, ErrorKind};
use vstd::prelude::*;
use vstd::slice::{slice_subrange, slice_to_vec};

verus! {

/// The 5-bit type field of a NAL header. The reserved and extended ranges
/// keep their code.
#[derive(Debug, Clone, Copy, PartialEq, Eq, Structural)]
pub enum NalUnitType {
    Unspecified,
    NonIdrSlice,
    DataPartitionA,
    DataPartitionB,
    DataPartitionC,
    IdrSlice,
    Sei,
    Sps,
    Pps,
    Aud,
    EndOfSeq,
    EndOfStream,
    Filler,
    SpsExt,
    Prefix,
    SubsetSps,
    DepthParameterSet,
    Reserved(u8),
    UnspecifiedExt(u8),
}

/// The type that a code stands for. Codes above 31 do not occur in a header
/// and count as unspecified.
pub open spec fn nal_type_of(value: u8) -> NalUnitType {
    if value == 0 {
        NalUnitType::Unspecified
    } else if value == 1 {
        NalUnitType::NonIdrSlice
    } else if value == 2 {
        NalUnitType::DataPartitionA
    } else if value == 3 {
        NalUnitType::DataPartitionB
    } else if value == 4 {
        NalUnitType::DataPartitionC
    } else if value == 5 {
        NalUnitType::IdrSlice
    } else if value == 6 {
        NalUnitType::Sei
    } else if value == 7 {
        NalUnitType::Sps
    } else if value == 8 {
        NalUnitType::Pps
    } else if value == 9 {
        NalUnitType::Aud
    } else if value == 10 {
        NalUnitType::EndOfSeq
    } else if value == 11 {
        NalUnitType::EndOfStream
    } else if value == 12 {
        NalUnitType::Filler
    } else if value == 13 {
        NalUnitType::SpsExt
    } else if value == 14 {
        NalUnitType::Prefix
    } else if value == 15 {
        NalUnitType::SubsetSps
    } else if value == 16 {
        NalUnitType::DepthParameterSet
    } else if value <= 23 {
        NalUnitType::Reserved(value)
    } else if value <= 31 {
        NalUnitType::UnspecifiedExt(value)
    } else {
        NalUnitType::Unspecified
    }
}

impl NalUnitType {
    /// The code of this type.
    pub open spec fn code(self) -> u8 {
        match self {
            NalUnitType::Unspecified => 0,
            NalUnitType::NonIdrSlice => 1,
            NalUnitType::DataPartitionA => 2,
            NalUnitType::DataPartitionB => 3,
            NalUnitType::DataPartitionC => 4,
            NalUnitType::IdrSlice => 5,
            NalUnitType::Sei => 6,
            NalUnitType::Sps => 7,
            NalUnitType::Pps => 8,
            NalUnitType::Aud => 9,
            NalUnitType::EndOfSeq => 10,
            NalUnitType::EndOfStream => 11,
            NalUnitType::Filler => 12,
            NalUnitType::SpsExt => 13,
            NalUnitType::Prefix => 14,
            NalUnitType::SubsetSps => 15,
            NalUnitType::DepthParameterSet => 16,
            NalUnitType::Reserved(v) => v,
            NalUnitType::UnspecifiedExt(v) => v,
        }
    }

    /// True for the five types that carry slice data.
    pub open spec fn is_vcl(self) -> bool {
        self == NalUnitType::NonIdrSlice || self == NalUnitType::DataPartitionA || self
            == NalUnitType::DataPartitionB || self == NalUnitType::DataPartitionC || self
            == NalUnitType::IdrSlice
    }

    pub fn as_u8(&self) -> (code: u8)
        ensures
            code == self.code(),
    {
        match self {
            Self::Unspecified => 0,
            Self::NonIdrSlice => 1,
            Self::DataPartitionA => 2,
            Self::DataPartitionB => 3,
            Self::DataPartitionC => 4,
            Self::IdrSlice => 5,
            Self::Sei => 6,
            Self::Sps => 7,
            Self::Pps => 8,
            Self::Aud => 9,
            Self::EndOfSeq => 10,
            Self::EndOfStream => 11,
            Self::Filler => 12,
            Self::SpsExt => 13,
            Self::Prefix => 14,
            Self::SubsetSps => 15,
            Self::DepthParameterSet => 16,
            Self::Reserved(v) => *v,
            Self::UnspecifiedExt(v) => *v,
        }
    }
}

impl vstd::std_specs::convert::FromSpecImpl<u8> for NalUnitType {
    open spec fn obeys_from_spec() -> bool {
        true
    }

    open spec fn from_spec(value: u8) -> Self {
        nal_type_of(value)
    }
}

impl From<u8> for NalUnitType {
    fn from(value: u8) -> (t: Self) {
        match value {
            0 => Self::Unspecified,
            1 => Self::NonIdrSlice,
            2 => Self::DataPartitionA,
            3 => Self::DataPartitionB,
            4 => Self::DataPartitionC,
            5 => Self::IdrSlice,
            6 => Self::Sei,
            7 => Self::Sps,
            8 => Self::Pps,
            9 => Self::Aud,
            10 => Self::EndOfSeq,
            11 => Self::EndOfStream,
            12 => Self::Filler,
            13 => Self::SpsExt,
            14 => Self::Prefix,
            15 => Self::SubsetSps,
            16 => Self::DepthParameterSet,
            17..=23 => Self::Reserved(value),
            24..=31 => Self::UnspecifiedExt(value),
            _ => Self::Unspecified,
        }
    }
}

/// Every 5-bit code is the code of the type it stands for.
pub proof fn lemma_code_of_type(value: u8)
    requires
        value <= 31,
    ensures
        nal_type_of(value).code() == value,
{
}

/// One NAL unit: how long its start code was, the two header fields, and the
/// payload after the header byte with its escapes in place.
#[derive(Debug, Clone)]
pub struct Nal {
    pub start_code_len: u8,
    pub ref_idc: u8,
    pub nal_type: NalUnitType,
    pub ebsp: Vec<u8>,
}

/// A NAL unit as contracts see it.
pub struct NalView {
    pub start_code_len: u8,
    pub ref_idc: u8,
    pub nal_type: NalUnitType,
    pub ebsp: Seq<u8>,
}

impl View for Nal {
    type V = NalView;

    open spec fn view(&self) -> NalView {
        NalView {
            start_code_len: self.start_code_len,
            ref_idc: self.ref_idc,
            nal_type: self.nal_type,
            ebsp: self.ebsp@,
        }
    }
}

/// The NAL unit that `data` holds: a header byte with its top bit clear, then
/// the payload. Empty data and a set top bit are refused.
pub open spec fn nal_of(start_code_len: u8, data: Seq<u8>) -> Result<NalView, ErrorKind> {
    if data.len() == 0 || (data[0] >> 7u8) & 1u8 != 0u8 {
        Err(ErrorKind::InvalidNalHeader)
    } else {
        Ok(
            NalView {
                start_code_len,
                ref_idc: (data[0] >> 5u8) & 3u8,
                nal_type: nal_type_of(data[0] & 31u8),
                ebsp: data.skip(1),
            },
        )
    }
}

/// The header byte of a NAL unit: `ref_idc` in bits 6 and 5, the type code in
/// bits 4 to 0.
pub open spec fn header_byte(ref_idc: u8, nal_type: NalUnitType) -> u8 {
    ((ref_idc & 3u8) << 5u8) | (nal_type.code() & 31u8)
}

/// The start code of the given length: three bytes where the length is 3,
/// four bytes otherwise.
pub open spec fn start_code(start_code_len: u8) -> Seq<u8> {
    if start_code_len == 3 {
        seq![0u8, 0u8, 1u8]
    } else {
        seq![0u8, 0u8, 0u8, 1u8]
    }
}

/// A NAL unit in Annex-B form: its start code, the header byte, the payload.
pub open spec fn annexb_of(nal: NalView) -> Seq<u8> {
    start_code(nal.start_code_len) + seq![header_byte(nal.ref_idc, nal.nal_type)] + nal.ebsp
}

/// `e` with each escape byte taken out: wherever `00 00 03` is met, scanning
/// from the left, the `03` goes.
pub open spec fn unescape(e: Seq<u8>) -> Seq<u8>
    decreases e.len(),
{
    if e.len() == 0 {
        Seq::empty()
    } else if e.len() >= 3 && e[0] == 0 && e[1] == 0 && e[2] == 3 {
        seq![0u8, 0u8] + unescape(e.skip(3))
    } else {
        seq![e[0]] + unescape(e.skip(1))
    }
}

/// `r` escaped, given that `zeros` zero bytes (at most two count) were just
/// written: a byte of 3 or less that follows two zeros gets `03` before it.
pub open spec fn escape_from(r: Seq<u8>, zeros: nat) -> Seq<u8>
    decreases r.len(),
{
    if r.len() == 0 {
        Seq::empty()
    } else if zeros == 2 && r[0] <= 3 {
        seq![3u8, r[0]] + escape_from(r.skip(1), if r[0] == 0 { 1 } else { 0 })
    } else {
        seq![r[0]] + escape_from(r.skip(1), if r[0] == 0 { zeros + 1 } else { 0 })
    }
}

/// `r` escaped.
pub open spec fn escape(r: Seq<u8>) -> Seq<u8> {
    escape_from(r, 0)
}

spec fn zero_bytes(n: nat) -> Seq<u8> {
    Seq::new(n, |i: int| 0u8)
}

proof fn lemma_unescape_zeros(z: nat, tail: Seq<u8>)
    requires
        z <= 2,
        tail.len() == 0 || tail[0] != 3 || z < 2,
        tail.len() == 0 || tail[0] != 0,
    ensures
        unescape(zero_bytes(z) + tail) == zero_bytes(z) + unescape(tail),
    decreases z,
{
    let s = zero_bytes(z) + tail;
    if z == 0 {
        assert(s =~= tail);
        assert(zero_bytes(0) + unescape(tail) =~= unescape(tail));
    } else {
        assert(s[0] == 0);
        assert(s.skip(1) =~= zero_bytes((z - 1) as nat) + tail);
        lemma_unescape_zeros((z - 1) as nat, tail);
        if s.len() >= 3 {
            assert(s[1] == (zero_bytes(z) + tail)[1]);
            if z == 2 {
                assert(s[2] == tail[0]);
            } else {
                assert(s[1] == tail[0]);
            }
        }
        assert(unescape(s) == seq![0u8] + unescape(s.skip(1)));
        assert(seq![0u8] + (zero_bytes((z - 1) as nat) + unescape(tail)) =~= zero_bytes(z)
            + unescape(tail));
    }
}

proof fn lemma_roundtrip_from(r: Seq<u8>, z: nat)
    requires
        z <= 2,
    ensures
        unescape(zero_bytes(z) + escape_from(r, z)) == zero_bytes(z) + r,
    decreases r.len(),
{
    if r.len() == 0 {
        lemma_unescape_zeros(z, Seq::empty());
        assert(zero_bytes(z) + unescape(Seq::<u8>::empty()) =~= zero_bytes(z) + r);
    } else {
        let b = r[0];
        let rest = r.skip(1);
        if z == 2 && b <= 3 {
            let z2: nat = if b == 0 { 1 } else { 0 };
            let tail = escape_from(rest, z2);
            let s = zero_bytes(2) + (seq![3u8, b] + tail);
            assert(s[0] == 0 && s[1] == 0 && s[2] == 3);
            assert(s.skip(3) =~= seq![b] + tail);
            assert(unescape(s) == seq![0u8, 0u8] + unescape(seq![b] + tail));
            lemma_roundtrip_from(rest, z2);
            if b == 0 {
                assert(seq![b] + tail =~= zero_bytes(1) + tail);
                assert(seq![0u8, 0u8] + (zero_bytes(1) + rest) =~= zero_bytes(2) + r);
            } else {
                let t = seq![b] + tail;
                assert(t.skip(1) =~= tail);
                assert(unescape(t) == seq![b] + unescape(tail));
                assert(zero_bytes(0) + tail =~= tail);
                assert(zero_bytes(0) + rest =~= rest);
                assert(seq![0u8, 0u8] + (seq![b] + rest) =~= zero_bytes(2) + r);
            }
        } else if b == 0 {
            let tail = escape_from(rest, z + 1);
            assert(zero_bytes(z) + (seq![b] + tail) =~= zero_bytes(z + 1) + tail);
            lemma_roundtrip_from(rest, z + 1);
            assert(zero_bytes(z + 1) + rest =~= zero_bytes(z) + r);
        } else {
            let tail = escape_from(rest, 0);
            let t = seq![b] + tail;
            lemma_unescape_zeros(z, t);
            assert(t.skip(1) =~= tail);
            assert(unescape(t) == seq![b] + unescape(tail));
            lemma_roundtrip_from(rest, 0);
            assert(zero_bytes(0) + tail =~= tail);
            assert(zero_bytes(0) + rest =~= rest);
            assert(zero_bytes(z) + (seq![b] + rest) =~= zero_bytes(z) + r);
        }
    }
}

/// Escaping a payload and taking the escapes out again gives the payload back.
pub proof fn lemma_escape_roundtrip(r: Seq<u8>)
    ensures
        unescape(escape(r)) == r,
{
    lemma_roundtrip_from(r, 0);
    assert(zero_bytes(0) + escape_from(r, 0) =~= escape(r));
    assert(zero_bytes(0) + r =~= r);
}

proof fn lemma_header_bits(header: u8)
    ensures
        (header >> 5u8) & 3u8 <= 3,
        header & 31u8 <= 31,
        ((header >> 7u8) & 1u8 == 0u8) ==> ((((header >> 5u8) & 3u8) & 3u8) << 5u8) | ((header
            & 31u8) & 31u8) == header,
{
    assert((header >> 5u8) & 3u8 <= 3) by (bit_vector);
    assert(header & 31u8 <= 31) by (bit_vector);
    assert(((header >> 7u8) & 1u8 == 0u8) ==> ((((header >> 5u8) & 3u8) & 3u8) << 5u8) | ((header
        & 31u8) & 31u8) == header) by (bit_vector);
}

/// A parsed NAL unit written back in Annex-B form is its start code followed
/// by the bytes it was parsed from.
pub proof fn lemma_parse_then_write(start_code_len: u8, data: Seq<u8>)
    requires
        nal_of(start_code_len, data) is Ok,
    ensures
        annexb_of(nal_of(start_code_len, data)->Ok_0) == start_code(start_code_len) + data,
{
    let nal = nal_of(start_code_len, data)->Ok_0;
    lemma_header_bits(data[0]);
    lemma_code_of_type(data[0] & 31u8);
    assert(header_byte(nal.ref_idc, nal.nal_type) == data[0]);
    assert(seq![data[0]] + data.skip(1) =~= data);
    assert(annexb_of(nal) =~= start_code(start_code_len) + (seq![data[0]] + data.skip(1)));
}

impl Nal {
    /// Splits `data` into header fields and payload.
    pub fn parse(start_code_len: u8, data: &[u8]) -> (res: Result<Nal, Error>)
        ensures
            match nal_of(start_code_len, data@) {
                Ok(view) => res matches Ok(nal) && nal@ == view && nal.ref_idc <= 3,
                Err(kind) => fails_with(res, kind),
            },
    {
        if data.len() == 0 {
            return Err(Error::InvalidNalHeader);
        }
        let header = data[0];
        let forbidden_zero_bit = (header >> 7) & 1;
        if forbidden_zero_bit != 0 {
            return Err(Error::InvalidNalHeader);
        }
        let ref_idc = (header >> 5) & 0b11;
        let nal_unit_type = header & 0b11111;
        let nal_type = NalUnitType::from(nal_unit_type);
        let ebsp = slice_to_vec(slice_subrange(data, 1, data.len()));
        proof {
            lemma_header_bits(header);
            assert(ebsp@ =~= data@.skip(1));
        }
        Ok(Nal { start_code_len, ref_idc, nal_type, ebsp })
    }

    /// The payload with its escapes taken out.
    pub fn to_rbsp(&self) -> (rbsp: Vec<u8>)
        ensures
            rbsp@ == unescape(self.ebsp@),
    {
        ebsp_to_rbsp(self.ebsp.as_slice())
    }

    pub fn is_slice(&self) -> (b: bool)
        ensures
            b == self.nal_type.is_vcl(),
    {
        match self.nal_type {
            NalUnitType::NonIdrSlice
            | NalUnitType::IdrSlice
            | NalUnitType::DataPartitionA
            | NalUnitType::DataPartitionB
            | NalUnitType::DataPartitionC => true,
            _ => false,
        }
    }

    pub fn is_vcl(&self) -> (b: bool)
        ensures
            b == self.nal_type.is_vcl(),
    {
        match self.nal_type {
            NalUnitType::NonIdrSlice
            | NalUnitType::DataPartitionA
            | NalUnitType::DataPartitionB
            | NalUnitType::DataPartitionC
            | NalUnitType::IdrSlice => true,
            _ => false,
        }
    }

    /// Appends this unit in Annex-B form to `out`.
    pub fn write_annexb(&self, out: &mut Vec<u8>)
        ensures
            final(out)@ == old(out)@ + annexb_of(self@),
    {
        let ghost before = out@;
        out.push(0x00);
        out.push(0x00);
        if self.start_code_len != 3 {
            out.push(0x00);
        }
        out.push(0x01);
        let header = ((self.ref_idc & 0b11) << 5) | (self.nal_type.as_u8() & 0b11111);
        out.push(header);
        let ghost head = out@;
        let mut i: usize = 0;
        while i < self.ebsp.len()
            invariant
                i <= self.ebsp@.len(),
                out@ == head + self.ebsp@.subrange(0, i as int),
            decreases self.ebsp@.len() - i,
        {
            out.push(self.ebsp[i]);
            i += 1;
            assert(out@ =~= head + self.ebsp@.subrange(0, i as int));
        }
        assert(out@ =~= before + annexb_of(self@));
    }
}

/// Takes the escape bytes out of a payload.
pub fn ebsp_to_rbsp(ebsp: &[u8]) -> (rbsp: Vec<u8>)
    ensures
        rbsp@ == unescape(ebsp@),
{
    let mut rbsp: Vec<u8> = Vec::with_capacity(ebsp.len());
    let mut i: usize = 0;
    assert(ebsp@.skip(0) =~= ebsp@);
    while i < ebsp.len()
        invariant
            i <= ebsp@.len(),
            rbsp@ + unescape(ebsp@.skip(i as int)) == unescape(ebsp@),
        decreases ebsp@.len() - i,
    {
        let ghost rest = ebsp@.skip(i as int);
        let ghost done = rbsp@;
        if ebsp.len() - i > 2 && ebsp[i] == 0x00 && ebsp[i + 1] == 0x00 && ebsp[i + 2] == 0x03 {
            rbsp.push(0x00);
            rbsp.push(0x00);
            i += 3;
            assert(rest.skip(3) =~= ebsp@.skip(i as int));
            assert(rbsp@ + unescape(ebsp@.skip(i as int)) =~= done + (seq![0u8, 0u8] + unescape(
                rest.skip(3),
            )));
        } else {
            rbsp.push(ebsp[i]);
            i += 1;
            assert(rest.skip(1) =~= ebsp@.skip(i as int));
            assert(rbsp@ + unescape(ebsp@.skip(i as int)) =~= done + (seq![rest[0]] + unescape(
                rest.skip(1),
            )));
        }
    }
    assert(rbsp@ + unescape(ebsp@.skip(i as int)) =~= rbsp@);
    rbsp
}

/// Puts escape bytes into a payload so that no start code shows in it.
pub fn rbsp_to_ebsp(rbsp: &[u8]) -> (ebsp: Vec<u8>)
    ensures
        ebsp@ == escape(rbsp@),
{
    let mut ebsp: Vec<u8> = Vec::with_capacity(rbsp.len());
    let mut zero_count: u8 = 0;
    let mut i: usize = 0;
    assert(rbsp@.skip(0) =~= rbsp@);
    while i < rbsp.len()
        invariant
            i <= rbsp@.len(),
            zero_count <= 2,
            ebsp@ + escape_from(rbsp@.skip(i as int), zero_count as nat) == escape(rbsp@),
        decreases rbsp@.len() - i,
    {
        let ghost rest = rbsp@.skip(i as int);
        let ghost done = ebsp@;
        let ghost zeros = zero_count as nat;
        let byte = rbsp[i];
        if zero_count == 2 && byte <= 0x03 {
            ebsp.push(0x03);
            zero_count = 0;
        }
        ebsp.push(byte);
        if byte == 0x00 {
            zero_count += 1;
        } else {
            zero_count = 0;
        }
        i += 1;
        assert(rest.skip(1) =~= rbsp@.skip(i as int));
        assert(ebsp@ + escape_from(rbsp@.skip(i as int), zero_count as nat) =~= done + escape_from(
            rest,
            zeros,
        ));
    }
    assert(ebsp@ + escape_from(rbsp@.skip(i as int), zero_count as nat) =~= ebsp@);
    ebsp
}

} // verus!
