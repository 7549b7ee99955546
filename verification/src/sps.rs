//! Sequence parameter sets.
//!
//! [`sps_of`] says which parameter set a payload holds, or why it holds none;
//! [`Sps::parse`] computes it.

use crate::bitreader::{bits_of, fails_with};
use crate::error::{Error, ErrorKind};
use crate::syntax::{
    finish, past_scaling_lists, past_ses, take_bits, take_flag, take_se, take_ue, Cursor, Scan,
};
use vstd::prelude::*;

verus! {

/// A decoded sequence parameter set.
#[derive(Debug, Clone)]
pub struct Sps {
    pub profile_idc: u8,
    pub constraint_set0_flag: bool,
    pub constraint_set1_flag: bool,
    pub constraint_set2_flag: bool,
    pub constraint_set3_flag: bool,
    pub constraint_set4_flag: bool,
    pub constraint_set5_flag: bool,
    pub level_idc: u8,
    pub seq_parameter_set_id: u8,
    pub chroma_format_idc: u8,
    pub separate_colour_plane_flag: bool,
    pub bit_depth_luma_minus8: u8,
    pub bit_depth_chroma_minus8: u8,
    pub qpprime_y_zero_transform_bypass_flag: bool,
    pub seq_scaling_matrix_present_flag: bool,
    pub log2_max_frame_num_minus4: u8,
    pub pic_order_cnt_type: u8,
    pub log2_max_pic_order_cnt_lsb_minus4: u8,
    pub delta_pic_order_always_zero_flag: bool,
    pub offset_for_non_ref_pic: i32,
    pub offset_for_top_to_bottom_field: i32,
    pub num_ref_frames_in_pic_order_cnt_cycle: u8,
    pub max_num_ref_frames: u32,
    pub gaps_in_frame_num_value_allowed_flag: bool,
    pub pic_width_in_mbs_minus1: u32,
    pub pic_height_in_map_units_minus1: u32,
    pub frame_mbs_only_flag: bool,
    pub mb_adaptive_frame_field_flag: bool,
    pub direct_8x8_inference_flag: bool,
    pub frame_cropping_flag: bool,
    pub frame_crop_left_offset: u32,
    pub frame_crop_right_offset: u32,
    pub frame_crop_top_offset: u32,
    pub frame_crop_bottom_offset: u32,
    pub vui_parameters_present_flag: bool,
    pub width: u32,
    pub height: u32,
}

/// True for the profiles whose parameter sets carry the chroma block.
pub open spec fn has_chroma_block(profile_idc: u8) -> bool {
    profile_idc == 100 || profile_idc == 110 || profile_idc == 122 || profile_idc == 244
        || profile_idc == 44 || profile_idc == 83 || profile_idc == 86 || profile_idc == 118
        || profile_idc == 128 || profile_idc == 138 || profile_idc == 139 || profile_idc == 134
        || profile_idc == 135
}

/// Horizontal chroma subsampling factor of a chroma format; 0 for monochrome.
pub open spec fn sub_width(chroma_format_idc: u8) -> int {
    if chroma_format_idc == 1 || chroma_format_idc == 2 {
        2
    } else if chroma_format_idc == 3 {
        1
    } else {
        0
    }
}

/// Vertical chroma subsampling factor of a chroma format; 0 for monochrome.
pub open spec fn sub_height(chroma_format_idc: u8) -> int {
    if chroma_format_idc == 1 {
        2
    } else if chroma_format_idc == 2 || chroma_format_idc == 3 {
        1
    } else {
        0
    }
}

impl Sps {
    /// The parameter set before anything is read: everything zero or false,
    /// the chroma format 1.
    pub open spec fn blank() -> Sps {
        Sps {
            profile_idc: 0,
            constraint_set0_flag: false,
            constraint_set1_flag: false,
            constraint_set2_flag: false,
            constraint_set3_flag: false,
            constraint_set4_flag: false,
            constraint_set5_flag: false,
            level_idc: 0,
            seq_parameter_set_id: 0,
            chroma_format_idc: 1,
            separate_colour_plane_flag: false,
            bit_depth_luma_minus8: 0,
            bit_depth_chroma_minus8: 0,
            qpprime_y_zero_transform_bypass_flag: false,
            seq_scaling_matrix_present_flag: false,
            log2_max_frame_num_minus4: 0,
            pic_order_cnt_type: 0,
            log2_max_pic_order_cnt_lsb_minus4: 0,
            delta_pic_order_always_zero_flag: false,
            offset_for_non_ref_pic: 0,
            offset_for_top_to_bottom_field: 0,
            num_ref_frames_in_pic_order_cnt_cycle: 0,
            max_num_ref_frames: 0,
            gaps_in_frame_num_value_allowed_flag: false,
            pic_width_in_mbs_minus1: 0,
            pic_height_in_map_units_minus1: 0,
            frame_mbs_only_flag: false,
            mb_adaptive_frame_field_flag: false,
            direct_8x8_inference_flag: false,
            frame_cropping_flag: false,
            frame_crop_left_offset: 0,
            frame_crop_right_offset: 0,
            frame_crop_top_offset: 0,
            frame_crop_bottom_offset: 0,
            vui_parameters_present_flag: false,
            width: 0,
            height: 0,
        }
    }

    /// Picture width in luma samples after cropping, as the fields give it.
    pub open spec fn cropped_width(self) -> int {
        (self.pic_width_in_mbs_minus1 + 1) * 16 - sub_width(self.chroma_format_idc) * (
        self.frame_crop_left_offset + self.frame_crop_right_offset)
    }

    /// Picture height in luma samples after cropping, as the fields give it.
    pub open spec fn cropped_height(self) -> int {
        let mult: int = if self.frame_mbs_only_flag {
            1
        } else {
            2
        };
        (self.pic_height_in_map_units_minus1 + 1) * 16 * mult - sub_height(self.chroma_format_idc)
            * mult * (self.frame_crop_top_offset + self.frame_crop_bottom_offset)
    }

    /// True when both cropped dimensions fit their fields.
    pub open spec fn dims_fit(self) -> bool {
        0 <= self.cropped_width() <= u32::MAX && 0 <= self.cropped_height() <= u32::MAX
    }

    /// This parameter set with `width` and `height` filled in from the other fields.
    pub open spec fn with_dims(self) -> Sps {
        Sps { width: self.cropped_width() as u32, height: self.cropped_height() as u32, ..self }
    }

    /// The ranges that every parsed parameter set keeps.
    pub open spec fn in_range(self) -> bool {
        &&& self.seq_parameter_set_id <= 31
        &&& self.chroma_format_idc <= 3
        &&& self.log2_max_frame_num_minus4 <= 12
        &&& self.log2_max_pic_order_cnt_lsb_minus4 <= 12
        &&& self.pic_order_cnt_type <= 2
        &&& self.width == self.cropped_width()
        &&& self.height == self.cropped_height()
    }
}

/// Profile, constraint flags, level and id: the fixed part at the start.
pub open spec fn head(bits: Seq<bool>, c: Cursor, sps: Sps) -> (Sps, Cursor) {
    let (profile_idc, c) = take_bits(bits, c, 8);
    let (set0, c) = take_flag(bits, c);
    let (set1, c) = take_flag(bits, c);
    let (set2, c) = take_flag(bits, c);
    let (set3, c) = take_flag(bits, c);
    let (set4, c) = take_flag(bits, c);
    let (set5, c) = take_flag(bits, c);
    let (_reserved, c) = take_bits(bits, c, 2);
    let (level_idc, c) = take_bits(bits, c, 8);
    let (id, c) = take_ue(bits, c);
    let c = c.require(id <= 31, ErrorKind::MalformedSps);
    (
        Sps {
            profile_idc: profile_idc as u8,
            constraint_set0_flag: set0,
            constraint_set1_flag: set1,
            constraint_set2_flag: set2,
            constraint_set3_flag: set3,
            constraint_set4_flag: set4,
            constraint_set5_flag: set5,
            level_idc: level_idc as u8,
            seq_parameter_set_id: id as u8,
            ..sps
        },
        c,
    )
}

/// The chroma block, present for some profiles only. A bit depth that does
/// not fit its field, which is one above 255, is `MalformedSps`. Scaling lists
/// are read and dropped: 8 of them, or 12 with chroma format 3, each of 16
/// entries.
pub open spec fn chroma(bits: Seq<bool>, c: Cursor, sps: Sps) -> (Sps, Cursor) {
    if !has_chroma_block(sps.profile_idc) {
        (sps, c)
    } else {
        let (format, c) = take_ue(bits, c);
        let c = c.require(format <= 3, ErrorKind::MalformedSps);
        let (separate, c) = if format == 3 {
            take_flag(bits, c)
        } else {
            (false, c)
        };
        let (luma, c) = take_ue(bits, c);
        let c = c.require(luma <= 255, ErrorKind::MalformedSps);
        let (chroma, c) = take_ue(bits, c);
        let c = c.require(chroma <= 255, ErrorKind::MalformedSps);
        let (bypass, c) = take_flag(bits, c);
        let (matrix, c) = take_flag(bits, c);
        let lists: nat = if format != 3 {
            8
        } else {
            12
        };
        let c = if matrix {
            past_scaling_lists(bits, c, lists, lists)
        } else {
            c
        };
        (
            Sps {
                chroma_format_idc: format as u8,
                separate_colour_plane_flag: separate,
                bit_depth_luma_minus8: luma as u8,
                bit_depth_chroma_minus8: chroma as u8,
                qpprime_y_zero_transform_bypass_flag: bypass,
                seq_scaling_matrix_present_flag: matrix,
                ..sps
            },
            c,
        )
    }
}

/// Frame numbering and picture order count. The fields of the order types
/// that are not in use stay zero. With order type 1 as many offsets as the
/// cycle is long are read and dropped; a cycle length that does not fit its
/// field, which is one above 255, is `MalformedSps`.
pub open spec fn order(bits: Seq<bool>, c: Cursor, sps: Sps) -> (Sps, Cursor) {
    let (frame_num, c) = take_ue(bits, c);
    let c = c.require(frame_num <= 12, ErrorKind::MalformedSps);
    let (poc_type, c) = take_ue(bits, c);
    let c = c.require(poc_type <= 2, ErrorKind::MalformedSps);
    let (lsb, c) = if poc_type == 0 {
        take_ue(bits, c)
    } else {
        (0nat, c)
    };
    let c = c.require(lsb <= 12, ErrorKind::MalformedSps);
    let (always_zero, c) = if poc_type == 1 {
        take_flag(bits, c)
    } else {
        (false, c)
    };
    let (non_ref, c) = if poc_type == 1 {
        take_se(bits, c)
    } else {
        (0int, c)
    };
    let (top_to_bottom, c) = if poc_type == 1 {
        take_se(bits, c)
    } else {
        (0int, c)
    };
    let (cycle, c) = if poc_type == 1 {
        take_ue(bits, c)
    } else {
        (0nat, c)
    };
    let c = c.require(cycle <= 255, ErrorKind::MalformedSps);
    let c = past_ses(bits, c, cycle);
    (
        Sps {
            log2_max_frame_num_minus4: frame_num as u8,
            pic_order_cnt_type: poc_type as u8,
            log2_max_pic_order_cnt_lsb_minus4: lsb as u8,
            delta_pic_order_always_zero_flag: always_zero,
            offset_for_non_ref_pic: non_ref as i32,
            offset_for_top_to_bottom_field: top_to_bottom as i32,
            num_ref_frames_in_pic_order_cnt_cycle: cycle as u8,
            ..sps
        },
        c,
    )
}

/// Reference frames, picture size in macroblocks, field coding and cropping.
pub open spec fn frame(bits: Seq<bool>, c: Cursor, sps: Sps) -> (Sps, Cursor) {
    let (max_refs, c) = take_ue(bits, c);
    let (gaps, c) = take_flag(bits, c);
    let (width_mbs, c) = take_ue(bits, c);
    let (height_units, c) = take_ue(bits, c);
    let (frame_only, c) = take_flag(bits, c);
    let (adaptive, c) = if !frame_only {
        take_flag(bits, c)
    } else {
        (false, c)
    };
    let (direct, c) = take_flag(bits, c);
    let (cropping, c) = take_flag(bits, c);
    let (left, c) = if cropping {
        take_ue(bits, c)
    } else {
        (0nat, c)
    };
    let (right, c) = if cropping {
        take_ue(bits, c)
    } else {
        (0nat, c)
    };
    let (top, c) = if cropping {
        take_ue(bits, c)
    } else {
        (0nat, c)
    };
    let (bottom, c) = if cropping {
        take_ue(bits, c)
    } else {
        (0nat, c)
    };
    let (vui, c) = take_flag(bits, c);
    (
        Sps {
            max_num_ref_frames: max_refs as u32,
            gaps_in_frame_num_value_allowed_flag: gaps,
            pic_width_in_mbs_minus1: width_mbs as u32,
            pic_height_in_map_units_minus1: height_units as u32,
            frame_mbs_only_flag: frame_only,
            mb_adaptive_frame_field_flag: adaptive,
            direct_8x8_inference_flag: direct,
            frame_cropping_flag: cropping,
            frame_crop_left_offset: left as u32,
            frame_crop_right_offset: right as u32,
            frame_crop_top_offset: top as u32,
            frame_crop_bottom_offset: bottom as u32,
            vui_parameters_present_flag: vui,
            ..sps
        },
        c,
    )
}

/// The parameter set that the payload `rbsp` spells, or the first fault in
/// it. A value out of its range is `MalformedSps`, and so are cropped
/// dimensions that are negative or do not fit 32 bits.
#[verifier::opaque]
pub open spec fn sps_syntax(rbsp: Seq<u8>) -> Result<Sps, ErrorKind> {
    let bits = bits_of(rbsp);
    let (sps, c) = head(bits, Cursor::start(), Sps::blank());
    let (sps, c) = chroma(bits, c, sps);
    let (sps, c) = order(bits, c, sps);
    let (sps, c) = frame(bits, c, sps);
    let c = c.require(sps.dims_fit(), ErrorKind::MalformedSps);
    finish(sps.with_dims(), c)
}

/// What parsing `rbsp` as a sequence parameter set gives. A payload that
/// ends too early is malformed.
#[verifier::opaque]
pub open spec fn sps_of(rbsp: Seq<u8>) -> Result<Sps, ErrorKind> {
    match sps_syntax(rbsp) {
        Err(ErrorKind::UnexpectedEof) => Err(ErrorKind::MalformedSps),
        other => other,
    }
}

/// A fault met in one part of the syntax is still there after the later parts.
proof fn lemma_fault_stays(bits: Seq<bool>, c: Cursor)
    requires
        c is Fault,
    ensures
        forall|sps: Sps| (#[trigger] head(bits, c, sps)).1 == c,
        forall|sps: Sps| (#[trigger] chroma(bits, c, sps)).1 == c,
        forall|sps: Sps| (#[trigger] order(bits, c, sps)).1 == c,
        forall|sps: Sps| (#[trigger] frame(bits, c, sps)).1 == c,
{
    assert(past_scaling_lists(bits, c, 8, 8) == c);
    assert(past_scaling_lists(bits, c, 12, 12) == c);
    assert(forall|n: nat| #[trigger] past_ses(bits, c, n) == c);
}

/// What `sps_of` is, spelled out.
proof fn lemma_sps_of(rbsp: Seq<u8>)
    ensures
        sps_of(rbsp) == match sps_syntax(rbsp) {
            Err(ErrorKind::UnexpectedEof) => Err(ErrorKind::MalformedSps),
            other => other,
        },
{
    reveal(sps_of);
}

/// Every parameter set that a payload spells keeps its ranges.
pub proof fn lemma_sps_in_range(rbsp: Seq<u8>)
    ensures
        sps_of(rbsp) matches Ok(sps) ==> sps.in_range(),
{
    reveal(sps_of);
    reveal(sps_syntax);
    let bits = bits_of(rbsp);
    let (s1, c1) = head(bits, Cursor::start(), Sps::blank());
    let (s2, c2) = chroma(bits, c1, s1);
    let (s3, c3) = order(bits, c2, s2);
    let (s4, c4) = frame(bits, c3, s3);
    if sps_of(rbsp) is Ok {
        if c1 is Fault {
            lemma_fault_stays(bits, c1);
        }
        if c2 is Fault {
            lemma_fault_stays(bits, c2);
        }
        if c3 is Fault {
            lemma_fault_stays(bits, c3);
        }
        assert(c4 is At && c3 is At && c2 is At && c1 is At);
        assert(s4.chroma_format_idc == s2.chroma_format_idc);
        assert(s4.seq_parameter_set_id == s1.seq_parameter_set_id);
    }
}

fn blank_sps() -> (sps: Sps)
    ensures
        sps == Sps::blank(),
{
    Sps {
        profile_idc: 0,
        constraint_set0_flag: false,
        constraint_set1_flag: false,
        constraint_set2_flag: false,
        constraint_set3_flag: false,
        constraint_set4_flag: false,
        constraint_set5_flag: false,
        level_idc: 0,
        seq_parameter_set_id: 0,
        chroma_format_idc: 1,
        separate_colour_plane_flag: false,
        bit_depth_luma_minus8: 0,
        bit_depth_chroma_minus8: 0,
        qpprime_y_zero_transform_bypass_flag: false,
        seq_scaling_matrix_present_flag: false,
        log2_max_frame_num_minus4: 0,
        pic_order_cnt_type: 0,
        log2_max_pic_order_cnt_lsb_minus4: 0,
        delta_pic_order_always_zero_flag: false,
        offset_for_non_ref_pic: 0,
        offset_for_top_to_bottom_field: 0,
        num_ref_frames_in_pic_order_cnt_cycle: 0,
        max_num_ref_frames: 0,
        gaps_in_frame_num_value_allowed_flag: false,
        pic_width_in_mbs_minus1: 0,
        pic_height_in_map_units_minus1: 0,
        frame_mbs_only_flag: false,
        mb_adaptive_frame_field_flag: false,
        direct_8x8_inference_flag: false,
        frame_cropping_flag: false,
        frame_crop_left_offset: 0,
        frame_crop_right_offset: 0,
        frame_crop_top_offset: 0,
        frame_crop_bottom_offset: 0,
        vui_parameters_present_flag: false,
        width: 0,
        height: 0,
    }
}

fn parse_head(scan: &mut Scan, sps: Sps) -> (out: Sps)
    ensures
        final(scan).bits() == old(scan).bits(),
        final(scan).cursor() == head(old(scan).bits(), old(scan).cursor(), sps).1,
        final(scan).cursor() is At ==> out == head(old(scan).bits(), old(scan).cursor(), sps).0,
{
    let profile_idc = scan.u(8);
    let constraint_set0_flag = scan.flag();
    let constraint_set1_flag = scan.flag();
    let constraint_set2_flag = scan.flag();
    let constraint_set3_flag = scan.flag();
    let constraint_set4_flag = scan.flag();
    let constraint_set5_flag = scan.flag();
    let _reserved_zero_2bits = scan.u(2);
    let level_idc = scan.u(8);
    let seq_parameter_set_id = scan.ue();
    if seq_parameter_set_id > 31 {
        scan.fail(Error::MalformedSps("Invalid SPS ID".to_string()));
    }
    if !scan.sound() {
        return sps;
    }
    proof {
        vstd::arithmetic::power2::lemma2_to64();
    }
    Sps {
        profile_idc: profile_idc as u8,
        constraint_set0_flag,
        constraint_set1_flag,
        constraint_set2_flag,
        constraint_set3_flag,
        constraint_set4_flag,
        constraint_set5_flag,
        level_idc: level_idc as u8,
        seq_parameter_set_id: seq_parameter_set_id as u8,
        ..sps
    }
}

/// Reads and drops one scaling list of 16 entries.
fn skip_scaling_list(reader: &mut Scan)
    ensures
        final(reader).bits() == old(reader).bits(),
        final(reader).cursor() == crate::syntax::past_scaling_list(
            old(reader).bits(),
            old(reader).cursor(),
            16,
        ),
{
    crate::pps::skip_scaling_list(reader, 16)
}

/// Reads and drops `num_lists` optional scaling lists of 16 entries each.
fn skip_scaling_lists(scan: &mut Scan, num_lists: u32)
    ensures
        final(scan).bits() == old(scan).bits(),
        final(scan).cursor() == past_scaling_lists(
            old(scan).bits(),
            old(scan).cursor(),
            num_lists as nat,
            num_lists as nat,
        ),
{
    let mut i: u32 = 0;
    while i < num_lists && scan.sound()
        invariant
            i <= num_lists,
            scan.bits() == old(scan).bits(),
            past_scaling_lists(
                old(scan).bits(),
                old(scan).cursor(),
                num_lists as nat,
                num_lists as nat,
            ) == past_scaling_lists(
                scan.bits(),
                scan.cursor(),
                (num_lists - i) as nat,
                (num_lists - i) as nat,
            ),
        decreases num_lists - i,
    {
        let seq_scaling_list_present_flag = scan.flag();
        if seq_scaling_list_present_flag {
            skip_scaling_list(scan);
        }
        i += 1;
    }
}

fn parse_chroma(scan: &mut Scan, sps: Sps) -> (out: Sps)
    ensures
        final(scan).bits() == old(scan).bits(),
        final(scan).cursor() == chroma(old(scan).bits(), old(scan).cursor(), sps).1,
        final(scan).cursor() is At ==> out == chroma(old(scan).bits(), old(scan).cursor(), sps).0,
{
    let profile_idc = sps.profile_idc;
    if !(profile_idc == 100 || profile_idc == 110 || profile_idc == 122 || profile_idc == 244
        || profile_idc == 44 || profile_idc == 83 || profile_idc == 86 || profile_idc == 118
        || profile_idc == 128 || profile_idc == 138 || profile_idc == 139 || profile_idc == 134
        || profile_idc == 135) {
        return sps;
    }
    let chroma_format_idc = scan.ue();
    if chroma_format_idc > 3 {
        scan.fail(Error::MalformedSps("Invalid chroma format".to_string()));
    }
    let mut separate_colour_plane_flag = false;
    if chroma_format_idc == 3 {
        separate_colour_plane_flag = scan.flag();
    }
    let bit_depth_luma_minus8 = scan.ue();
    if bit_depth_luma_minus8 > 255 {
        scan.fail(Error::MalformedSps("Invalid bit_depth_luma".to_string()));
    }
    let bit_depth_chroma_minus8 = scan.ue();
    if bit_depth_chroma_minus8 > 255 {
        scan.fail(Error::MalformedSps("Invalid bit_depth_chroma".to_string()));
    }
    let qpprime_y_zero_transform_bypass_flag = scan.flag();
    let seq_scaling_matrix_present_flag = scan.flag();
    if seq_scaling_matrix_present_flag {
        let num_lists: u32 = if chroma_format_idc != 3 {
            8
        } else {
            12
        };
        skip_scaling_lists(scan, num_lists);
    }
    if !scan.sound() {
        return sps;
    }
    Sps {
        chroma_format_idc: chroma_format_idc as u8,
        separate_colour_plane_flag,
        bit_depth_luma_minus8: bit_depth_luma_minus8 as u8,
        bit_depth_chroma_minus8: bit_depth_chroma_minus8 as u8,
        qpprime_y_zero_transform_bypass_flag,
        seq_scaling_matrix_present_flag,
        ..sps
    }
}

fn parse_order(scan: &mut Scan, sps: Sps) -> (out: Sps)
    ensures
        final(scan).bits() == old(scan).bits(),
        final(scan).cursor() == order(old(scan).bits(), old(scan).cursor(), sps).1,
        final(scan).cursor() is At ==> out == order(old(scan).bits(), old(scan).cursor(), sps).0,
{
    let log2_max_frame_num_minus4 = scan.ue();
    if log2_max_frame_num_minus4 > 12 {
        scan.fail(Error::MalformedSps("Invalid log2_max_frame_num".to_string()));
    }
    let pic_order_cnt_type = scan.ue();
    if pic_order_cnt_type > 2 {
        scan.fail(Error::MalformedSps("Invalid pic_order_cnt_type".to_string()));
    }
    let mut log2_max_pic_order_cnt_lsb_minus4: u32 = 0;
    let mut delta_pic_order_always_zero_flag = false;
    let mut offset_for_non_ref_pic: i32 = 0;
    let mut offset_for_top_to_bottom_field: i32 = 0;
    let mut cycle: u32 = 0;
    if pic_order_cnt_type == 0 {
        log2_max_pic_order_cnt_lsb_minus4 = scan.ue();
    }
    if log2_max_pic_order_cnt_lsb_minus4 > 12 {
        scan.fail(Error::MalformedSps("Invalid log2_max_pic_order_cnt_lsb".to_string()));
    }
    if pic_order_cnt_type == 1 {
        delta_pic_order_always_zero_flag = scan.flag();
        offset_for_non_ref_pic = scan.se();
        offset_for_top_to_bottom_field = scan.se();
        cycle = scan.ue();
    }
    if cycle > 255 {
        scan.fail(Error::MalformedSps("Invalid cycle length".to_string()));
    }
    scan.skip_ses(cycle as u64);
    if !scan.sound() {
        return sps;
    }
    let num_ref_frames_in_pic_order_cnt_cycle = cycle as u8;
    Sps {
        log2_max_frame_num_minus4: log2_max_frame_num_minus4 as u8,
        pic_order_cnt_type: pic_order_cnt_type as u8,
        log2_max_pic_order_cnt_lsb_minus4: log2_max_pic_order_cnt_lsb_minus4 as u8,
        delta_pic_order_always_zero_flag,
        offset_for_non_ref_pic,
        offset_for_top_to_bottom_field,
        num_ref_frames_in_pic_order_cnt_cycle,
        ..sps
    }
}

fn parse_frame(scan: &mut Scan, sps: Sps) -> (out: Sps)
    ensures
        final(scan).bits() == old(scan).bits(),
        final(scan).cursor() == frame(old(scan).bits(), old(scan).cursor(), sps).1,
        final(scan).cursor() is At ==> out == frame(old(scan).bits(), old(scan).cursor(), sps).0,
{
    let max_num_ref_frames = scan.ue();
    let gaps_in_frame_num_value_allowed_flag = scan.flag();
    let pic_width_in_mbs_minus1 = scan.ue();
    let pic_height_in_map_units_minus1 = scan.ue();
    let frame_mbs_only_flag = scan.flag();
    let mut mb_adaptive_frame_field_flag = false;
    if !frame_mbs_only_flag {
        mb_adaptive_frame_field_flag = scan.flag();
    }
    let direct_8x8_inference_flag = scan.flag();
    let frame_cropping_flag = scan.flag();
    let mut frame_crop_left_offset: u32 = 0;
    let mut frame_crop_right_offset: u32 = 0;
    let mut frame_crop_top_offset: u32 = 0;
    let mut frame_crop_bottom_offset: u32 = 0;
    if frame_cropping_flag {
        frame_crop_left_offset = scan.ue();
        frame_crop_right_offset = scan.ue();
        frame_crop_top_offset = scan.ue();
        frame_crop_bottom_offset = scan.ue();
    }
    let vui_parameters_present_flag = scan.flag();
    Sps {
        max_num_ref_frames,
        gaps_in_frame_num_value_allowed_flag,
        pic_width_in_mbs_minus1,
        pic_height_in_map_units_minus1,
        frame_mbs_only_flag,
        mb_adaptive_frame_field_flag,
        direct_8x8_inference_flag,
        frame_cropping_flag,
        frame_crop_left_offset,
        frame_crop_right_offset,
        frame_crop_top_offset,
        frame_crop_bottom_offset,
        vui_parameters_present_flag,
        ..sps
    }
}

/// The cropped dimensions, if they fit.
fn derive_dims(sps: &Sps) -> (dims: Option<(u32, u32)>)
    ensures
        dims is Some == sps.dims_fit(),
        dims matches Some(d) ==> d.0 == sps.cropped_width() && d.1 == sps.cropped_height(),
{
    let chroma_format_idc = sps.chroma_format_idc;
    let frame_mbs_only_flag = sps.frame_mbs_only_flag;
    let columns: u64 = sps.frame_crop_left_offset as u64 + sps.frame_crop_right_offset as u64;
    let rows: u64 = sps.frame_crop_top_offset as u64 + sps.frame_crop_bottom_offset as u64;
    let width_raw: u64 = (sps.pic_width_in_mbs_minus1 as u64 + 1) * 16;
    let height_units: u64 = (sps.pic_height_in_map_units_minus1 as u64 + 1) * 16;
    let crop_width: u64 = match chroma_format_idc {
        1 | 2 => 2 * columns,
        3 => columns,
        _ => 0,
    };
    let crop_units: u64 = match chroma_format_idc {
        1 => 2 * rows,
        2 | 3 => rows,
        _ => 0,
    };
    let (height_raw, crop_height): (u64, u64) = if frame_mbs_only_flag {
        (height_units, crop_units)
    } else {
        (2 * height_units, 2 * crop_units)
    };
    proof {
        let sw = sub_width(chroma_format_idc);
        let sh = sub_height(chroma_format_idc);
        let mult: int = if frame_mbs_only_flag {
            1
        } else {
            2
        };
        assert(sw * columns == crop_width) by (nonlinear_arith)
            requires
                (sw == 2 && crop_width == 2 * columns) || (sw == 1 && crop_width == columns) || (sw
                    == 0 && crop_width == 0),
        ;
        assert(sh * mult * rows == crop_height) by (nonlinear_arith)
            requires
                (sh == 2 && crop_units == 2 * rows) || (sh == 1 && crop_units == rows) || (sh == 0
                    && crop_units == 0),
                (mult == 1 && crop_height == crop_units) || (mult == 2 && crop_height == 2
                    * crop_units),
        ;
        assert(height_units * mult == height_raw) by (nonlinear_arith)
            requires
                (mult == 1 && height_raw == height_units) || (mult == 2 && height_raw == 2
                    * height_units),
        ;
    }
    if crop_width > width_raw || crop_height > height_raw {
        return None;
    }
    let width = width_raw - crop_width;
    let height = height_raw - crop_height;
    if width > 0xFFFF_FFFF || height > 0xFFFF_FFFF {
        return None;
    }
    Some((width as u32, height as u32))
}

fn parse_syntax(rbsp: &[u8]) -> (res: Result<Sps, Error>)
    ensures
        match sps_syntax(rbsp@) {
            Ok(sps) => res == Ok::<Sps, Error>(sps),
            Err(kind) => fails_with(res, kind),
        },
{
    proof {
        reveal(sps_syntax);
    }
    let ghost bits = bits_of(rbsp@);
    let mut scan = Scan::new(rbsp);
    let sps = parse_head(&mut scan, blank_sps());
    proof {
        if scan.cursor() is Fault {
            lemma_fault_stays(bits, scan.cursor());
        }
    }
    let sps = parse_chroma(&mut scan, sps);
    proof {
        if scan.cursor() is Fault {
            lemma_fault_stays(bits, scan.cursor());
        }
    }
    let sps = parse_order(&mut scan, sps);
    proof {
        if scan.cursor() is Fault {
            lemma_fault_stays(bits, scan.cursor());
        }
    }
    let sps = parse_frame(&mut scan, sps);
    match derive_dims(&sps) {
        Some((width, height)) => scan.finish(Sps { width, height, ..sps }),
        None => {
            scan.fail(Error::MalformedSps("Picture dimensions out of range".to_string()));
            scan.finish(sps)
        },
    }
}

impl Sps {
    /// Parses the payload of a sequence parameter set NAL unit, escapes
    /// already taken out.
    pub fn parse(rbsp: &[u8]) -> (res: Result<Sps, Error>)
        ensures
            match sps_of(rbsp@) {
                Ok(sps) => res == Ok::<Sps, Error>(sps) && sps.in_range(),
                Err(kind) => fails_with(res, kind),
            },
    {
        proof {
            lemma_sps_of(rbsp@);
            lemma_sps_in_range(rbsp@);
        }
        match parse_syntax(rbsp) {
            Ok(sps) => Ok(sps),
            Err(Error::UnexpectedEof) => Err(Error::MalformedSps("Truncated SPS".to_string())),
            Err(e) => Err(e),
        }
    }
}

} // verus!
