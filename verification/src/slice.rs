//! Slice headers, as far as grouping slices into pictures needs them, and
//! the identity of the picture that a slice belongs to.

use crate::bitreader::{bits_of, fails_with};
use crate::error::{Error, ErrorKind};
use crate::nal::NalUnitType;
use crate::pps::Pps;
use crate::sps::Sps;
use crate::syntax::{finish, take_bits, take_flag, take_se, take_ue, Cursor, Scan};
use vstd::prelude::*;

verus! {

/// The five slice types.
#[derive(Debug, Clone, Copy, PartialEq, Eq, Structural)]
pub enum SliceType {
    P,
    B,
    I,
    Sp,
    Si,
}

/// The slice type that a raw code stands for: the code modulo 5.
pub open spec fn slice_type_of(value: nat) -> SliceType {
    if value % 5 == 0 {
        SliceType::P
    } else if value % 5 == 1 {
        SliceType::B
    } else if value % 5 == 2 {
        SliceType::I
    } else if value % 5 == 3 {
        SliceType::Sp
    } else {
        SliceType::Si
    }
}

impl SliceType {
    /// The slice type for a raw code. Every code has one.
    pub fn from_value(value: u32) -> (t: Option<Self>)
        ensures
            t == Some(slice_type_of(value as nat)),
    {
        match value % 5 {
            0 => Some(SliceType::P),
            1 => Some(SliceType::B),
            2 => Some(SliceType::I),
            3 => Some(SliceType::Sp),
            _ => Some(SliceType::Si),
        }
    }
}

/// The start of a slice header.
#[derive(Debug, Clone)]
pub struct SliceHeader {
    pub first_mb_in_slice: u32,
    pub slice_type: SliceType,
    pub pic_parameter_set_id: u8,
    pub colour_plane_id: u8,
    pub frame_num: u32,
    pub field_pic_flag: bool,
    pub bottom_field_flag: bool,
    pub idr_pic_id: u32,
    pub pic_order_cnt_lsb: u32,
    pub delta_pic_order_cnt_bottom: i32,
    pub delta_pic_order_cnt: [i32; 2],
    pub redundant_pic_cnt: u32,
    pub direct_spatial_mv_pred_flag: bool,
    pub num_ref_idx_active_override_flag: bool,
    pub num_ref_idx_l0_active_minus1: u32,
    pub num_ref_idx_l1_active_minus1: u32,
}

/// The id of the picture parameter set that a slice payload names: the third
/// unsigned code in it. An id above 255 is `SliceParseError`.
#[verifier::opaque]
pub open spec fn slice_pps_id_of(rbsp: Seq<u8>) -> Result<u8, ErrorKind> {
    let bits = bits_of(rbsp);
    let (_first_mb, c) = take_ue(bits, Cursor::start());
    let (_slice_type, c) = take_ue(bits, c);
    let (id, c) = take_ue(bits, c);
    let c = c.require(id <= 255, ErrorKind::SliceParseError);
    finish(id as u8, c)
}

/// What the first part of a slice header holds: which slice, of which
/// picture.
pub struct SliceStart {
    pub first_mb_in_slice: u32,
    pub slice_type: SliceType,
    pub pic_parameter_set_id: u8,
    pub colour_plane_id: u8,
    pub frame_num: u32,
    pub field_pic_flag: bool,
    pub bottom_field_flag: bool,
    pub idr_pic_id: u32,
}

/// The first part of a slice header. The colour plane is there with separate
/// colour planes only, the field flags with field coding only, the IDR
/// picture id in IDR slices only; what is not there is zero or false.
pub open spec fn start_of(
    bits: Seq<bool>,
    c: Cursor,
    nal_type: NalUnitType,
    sps: Sps,
) -> (SliceStart, Cursor) {
    let (first_mb, c) = take_ue(bits, c);
    let (type_code, c) = take_ue(bits, c);
    let (pps_id, c) = take_ue(bits, c);
    let c = c.require(pps_id <= 255, ErrorKind::SliceParseError);
    let (colour_plane, c) = if sps.separate_colour_plane_flag {
        take_bits(bits, c, 2)
    } else {
        (0nat, c)
    };
    let (frame_num, c) = take_bits(bits, c, (sps.log2_max_frame_num_minus4 + 4) as nat);
    let (field_pic, c) = if !sps.frame_mbs_only_flag {
        take_flag(bits, c)
    } else {
        (false, c)
    };
    let (bottom_field, c) = if field_pic {
        take_flag(bits, c)
    } else {
        (false, c)
    };
    let (idr_pic_id, c) = if nal_type == NalUnitType::IdrSlice {
        take_ue(bits, c)
    } else {
        (0nat, c)
    };
    (
        SliceStart {
            first_mb_in_slice: first_mb as u32,
            slice_type: slice_type_of(type_code),
            pic_parameter_set_id: pps_id as u8,
            colour_plane_id: colour_plane as u8,
            frame_num: frame_num as u32,
            field_pic_flag: field_pic,
            bottom_field_flag: bottom_field,
            idr_pic_id: idr_pic_id as u32,
        },
        c,
    )
}

/// The rest of the header, after the start `s`: picture order count fields
/// as the order type asks, the redundant picture count, and for P, SP and B
/// slices the reference index counts, which are the parameter set's unless
/// the header overrides them.
pub open spec fn header_of(
    bits: Seq<bool>,
    c: Cursor,
    s: SliceStart,
    sps: Sps,
    pps: Pps,
) -> (SliceHeader, Cursor) {
    let bottom_too = pps.bottom_field_pic_order_in_frame_present_flag && !s.field_pic_flag;
    let deltas = sps.pic_order_cnt_type == 1 && !sps.delta_pic_order_always_zero_flag;
    let (lsb, c) = if sps.pic_order_cnt_type == 0 {
        take_bits(bits, c, (sps.log2_max_pic_order_cnt_lsb_minus4 + 4) as nat)
    } else {
        (0nat, c)
    };
    let (delta_bottom, c) = if sps.pic_order_cnt_type == 0 && bottom_too {
        take_se(bits, c)
    } else {
        (0int, c)
    };
    let (delta0, c) = if deltas {
        take_se(bits, c)
    } else {
        (0int, c)
    };
    let (delta1, c) = if deltas && bottom_too {
        take_se(bits, c)
    } else {
        (0int, c)
    };
    let (redundant, c) = if pps.redundant_pic_cnt_present_flag {
        take_ue(bits, c)
    } else {
        (0nat, c)
    };
    let (direct, c) = if s.slice_type == SliceType::B {
        take_flag(bits, c)
    } else {
        (false, c)
    };
    let (overridden, c) = if s.slice_type == SliceType::P || s.slice_type == SliceType::Sp
        || s.slice_type == SliceType::B {
        take_flag(bits, c)
    } else {
        (false, c)
    };
    let (l0, c) = if overridden {
        take_ue(bits, c)
    } else {
        (pps.num_ref_idx_l0_default_active_minus1 as nat, c)
    };
    let (l1, c) = if overridden && s.slice_type == SliceType::B {
        take_ue(bits, c)
    } else {
        (pps.num_ref_idx_l1_default_active_minus1 as nat, c)
    };
    (
        SliceHeader {
            first_mb_in_slice: s.first_mb_in_slice,
            slice_type: s.slice_type,
            pic_parameter_set_id: s.pic_parameter_set_id,
            colour_plane_id: s.colour_plane_id,
            frame_num: s.frame_num,
            field_pic_flag: s.field_pic_flag,
            bottom_field_flag: s.bottom_field_flag,
            idr_pic_id: s.idr_pic_id,
            pic_order_cnt_lsb: lsb as u32,
            delta_pic_order_cnt_bottom: delta_bottom as i32,
            delta_pic_order_cnt: [delta0 as i32, delta1 as i32],
            redundant_pic_cnt: redundant as u32,
            direct_spatial_mv_pred_flag: direct,
            num_ref_idx_active_override_flag: overridden,
            num_ref_idx_l0_active_minus1: l0 as u32,
            num_ref_idx_l1_active_minus1: l1 as u32,
        },
        c,
    )
}

/// The slice header that the payload `rbsp` spells under the given parameter
/// sets, or the first fault in it.
#[verifier::opaque]
pub open spec fn slice_header_of(
    rbsp: Seq<u8>,
    nal_type: NalUnitType,
    sps: Sps,
    pps: Pps,
) -> Result<SliceHeader, ErrorKind> {
    let bits = bits_of(rbsp);
    let (s, c) = start_of(bits, Cursor::start(), nal_type, sps);
    let (header, c) = header_of(bits, c, s, sps, pps);
    finish(header, c)
}

/// What tells the pictures of a stream apart. Two slices belong to one
/// picture exactly when their picture ids are equal.
#[derive(Debug, Clone, Copy, PartialEq, Eq, Hash)]
pub struct PictureId {
    pub frame_num: u32,
    pub pic_parameter_set_id: u8,
    pub idr_pic_id: Option<u32>,
    pub pic_order_cnt_lsb: Option<u32>,
    pub delta_pic_order_cnt: Option<[i32; 2]>,
    pub field_pic_flag: bool,
    pub bottom_field_flag: bool,
}

/// The picture id of a slice: the IDR picture id in IDR slices only, the
/// order count bits with order type 0 only, the order count deltas with
/// order type 1 only.
pub open spec fn picture_id_of(header: SliceHeader, nal_type: NalUnitType, sps: Sps) -> PictureId {
    PictureId {
        frame_num: header.frame_num,
        pic_parameter_set_id: header.pic_parameter_set_id,
        idr_pic_id: if nal_type == NalUnitType::IdrSlice {
            Some(header.idr_pic_id)
        } else {
            None
        },
        pic_order_cnt_lsb: if sps.pic_order_cnt_type == 0 {
            Some(header.pic_order_cnt_lsb)
        } else {
            None
        },
        delta_pic_order_cnt: if sps.pic_order_cnt_type == 1 {
            Some(header.delta_pic_order_cnt)
        } else {
            None
        },
        field_pic_flag: header.field_pic_flag,
        bottom_field_flag: header.bottom_field_flag,
    }
}

fn parse_start(scan: &mut Scan, nal_type: NalUnitType, sps: &Sps) -> (out: SliceStart)
    ensures
        final(scan).bits() == old(scan).bits(),
        final(scan).cursor() == start_of(old(scan).bits(), old(scan).cursor(), nal_type, *sps).1,
        final(scan).cursor() is At ==> out == start_of(
            old(scan).bits(),
            old(scan).cursor(),
            nal_type,
            *sps,
        ).0,
{
    let first_mb_in_slice = scan.ue();
    let slice_type_value = scan.ue();
    let slice_type = match SliceType::from_value(slice_type_value) {
        Some(t) => t,
        None => SliceType::P,
    };
    let pic_parameter_set_id = scan.ue();
    if pic_parameter_set_id > 255 {
        scan.fail(Error::SliceParseError("Invalid PPS ID".to_string()));
    }
    let mut colour_plane_id: u32 = 0;
    if sps.separate_colour_plane_flag {
        colour_plane_id = scan.u(2);
    }
    let frame_num_bits: u32 = sps.log2_max_frame_num_minus4 as u32 + 4;
    let frame_num = scan.u(frame_num_bits);
    let mut field_pic_flag = false;
    let mut bottom_field_flag = false;
    if !sps.frame_mbs_only_flag {
        field_pic_flag = scan.flag();
        if field_pic_flag {
            bottom_field_flag = scan.flag();
        }
    }
    let mut idr_pic_id: u32 = 0;
    if nal_type == NalUnitType::IdrSlice {
        idr_pic_id = scan.ue();
    }
    proof {
        vstd::arithmetic::power2::lemma2_to64();
    }
    SliceStart {
        first_mb_in_slice,
        slice_type,
        pic_parameter_set_id: if pic_parameter_set_id > 255 {
            0
        } else {
            pic_parameter_set_id as u8
        },
        colour_plane_id: colour_plane_id as u8,
        frame_num,
        field_pic_flag,
        bottom_field_flag,
        idr_pic_id,
    }
}

fn parse_rest(scan: &mut Scan, s: SliceStart, sps: &Sps, pps: &Pps) -> (out: SliceHeader)
    ensures
        final(scan).bits() == old(scan).bits(),
        final(scan).cursor() == header_of(old(scan).bits(), old(scan).cursor(), s, *sps, *pps).1,
        out == header_of(old(scan).bits(), old(scan).cursor(), s, *sps, *pps).0,
{
    let bottom_too = pps.bottom_field_pic_order_in_frame_present_flag && !s.field_pic_flag;
    let mut pic_order_cnt_lsb: u32 = 0;
    let mut delta_pic_order_cnt_bottom: i32 = 0;
    let mut delta0: i32 = 0;
    let mut delta1: i32 = 0;
    if sps.pic_order_cnt_type == 0 {
        let pic_order_cnt_lsb_bits: u32 = sps.log2_max_pic_order_cnt_lsb_minus4 as u32 + 4;
        pic_order_cnt_lsb = scan.u(pic_order_cnt_lsb_bits);
        if bottom_too {
            delta_pic_order_cnt_bottom = scan.se();
        }
    } else if sps.pic_order_cnt_type == 1 && !sps.delta_pic_order_always_zero_flag {
        delta0 = scan.se();
        if bottom_too {
            delta1 = scan.se();
        }
    }
    let mut redundant_pic_cnt: u32 = 0;
    if pps.redundant_pic_cnt_present_flag {
        redundant_pic_cnt = scan.ue();
    }
    let mut direct_spatial_mv_pred_flag = false;
    if s.slice_type == SliceType::B {
        direct_spatial_mv_pred_flag = scan.flag();
    }
    let mut num_ref_idx_active_override_flag = false;
    let mut num_ref_idx_l0_active_minus1: u32 = pps.num_ref_idx_l0_default_active_minus1 as u32;
    let mut num_ref_idx_l1_active_minus1: u32 = pps.num_ref_idx_l1_default_active_minus1 as u32;
    if s.slice_type == SliceType::P || s.slice_type == SliceType::Sp || s.slice_type
        == SliceType::B {
        num_ref_idx_active_override_flag = scan.flag();
        if num_ref_idx_active_override_flag {
            num_ref_idx_l0_active_minus1 = scan.ue();
            if s.slice_type == SliceType::B {
                num_ref_idx_l1_active_minus1 = scan.ue();
            }
        }
    }
    SliceHeader {
        first_mb_in_slice: s.first_mb_in_slice,
        slice_type: s.slice_type,
        pic_parameter_set_id: s.pic_parameter_set_id,
        colour_plane_id: s.colour_plane_id,
        frame_num: s.frame_num,
        field_pic_flag: s.field_pic_flag,
        bottom_field_flag: s.bottom_field_flag,
        idr_pic_id: s.idr_pic_id,
        pic_order_cnt_lsb,
        delta_pic_order_cnt_bottom,
        delta_pic_order_cnt: [delta0, delta1],
        redundant_pic_cnt,
        direct_spatial_mv_pred_flag,
        num_ref_idx_active_override_flag,
        num_ref_idx_l0_active_minus1,
        num_ref_idx_l1_active_minus1,
    }
}

impl SliceHeader {
    /// Parses the start of a slice payload, escapes already taken out, under
    /// the parameter sets that the slice refers to.
    pub fn parse(rbsp: &[u8], nal_type: NalUnitType, sps: &Sps, pps: &Pps) -> (res: Result<
        SliceHeader,
        Error,
    >)
        ensures
            match slice_header_of(rbsp@, nal_type, *sps, *pps) {
                Ok(header) => res == Ok::<SliceHeader, Error>(header),
                Err(kind) => fails_with(res, kind),
            },
    {
        proof {
            reveal(slice_header_of);
        }
        let mut scan = Scan::new(rbsp);
        let start = parse_start(&mut scan, nal_type, sps);
        let header = parse_rest(&mut scan, start, sps, pps);
        scan.finish(header)
    }
}

impl PictureId {
    /// The id of the picture that a slice with this header belongs to.
    pub fn from_slice_header(header: &SliceHeader, nal_type: NalUnitType, sps: &Sps) -> (id: Self)
        ensures
            id == picture_id_of(*header, nal_type, *sps),
    {
        let idr_pic_id = if nal_type == NalUnitType::IdrSlice {
            Some(header.idr_pic_id)
        } else {
            None
        };
        let pic_order_cnt_lsb = if sps.pic_order_cnt_type == 0 {
            Some(header.pic_order_cnt_lsb)
        } else {
            None
        };
        let delta_pic_order_cnt = if sps.pic_order_cnt_type == 1 {
            Some(header.delta_pic_order_cnt)
        } else {
            None
        };
        PictureId {
            frame_num: header.frame_num,
            pic_parameter_set_id: header.pic_parameter_set_id,
            idr_pic_id,
            pic_order_cnt_lsb,
            delta_pic_order_cnt,
            field_pic_flag: header.field_pic_flag,
            bottom_field_flag: header.bottom_field_flag,
        }
    }

    /// True when both ids name the same picture.
    pub fn same_picture(&self, other: &PictureId) -> (same: bool)
        ensures
            same == (*self == *other),
    {
        let same_idr = match (self.idr_pic_id, other.idr_pic_id) {
            (Some(a), Some(b)) => a == b,
            (None, None) => true,
            _ => false,
        };
        let same_lsb = match (self.pic_order_cnt_lsb, other.pic_order_cnt_lsb) {
            (Some(a), Some(b)) => a == b,
            (None, None) => true,
            _ => false,
        };
        let same_delta = match (&self.delta_pic_order_cnt, &other.delta_pic_order_cnt) {
            (Some(a), Some(b)) => {
                assert(a@ =~= b@ ==> a == b);
                a[0] == b[0] && a[1] == b[1]
            },
            (None, None) => true,
            _ => false,
        };
        self.frame_num == other.frame_num && self.pic_parameter_set_id
            == other.pic_parameter_set_id && same_idr && same_lsb && same_delta
            && self.field_pic_flag == other.field_pic_flag && self.bottom_field_flag
            == other.bottom_field_flag
    }
}

} // verus!
