//! Picture parameter sets.
//!
//! [`pps_of`] says which parameter set a payload holds, or why it holds none;
//! [`Pps::parse`] computes it.

use crate::bitreader::{bits_of, fails_with};
use crate::eg::{bit_length, lemma_bit_length_bounds, lemma_bit_length_u32};
use crate::error::{Error, ErrorKind};
use crate::syntax::{
    finish, more_data, past_fixed, past_scaling_entries, past_scaling_list, past_scaling_lists,
    past_ues, take_bits, take_flag, take_se, take_ue, Cursor, Scan,
};
use vstd::arithmetic::power2::pow2;
use vstd::prelude::*;
use vstd::std_specs::bits::axiom_u32_leading_zeros;

verus! {

/// A decoded picture parameter set.
#[derive(Debug, Clone)]
pub struct Pps {
    pub pic_parameter_set_id: u8,
    pub seq_parameter_set_id: u8,
    pub entropy_coding_mode_flag: bool,
    pub bottom_field_pic_order_in_frame_present_flag: bool,
    pub num_slice_groups_minus1: u32,
    pub slice_group_map_type: u32,
    pub num_ref_idx_l0_default_active_minus1: u8,
    pub num_ref_idx_l1_default_active_minus1: u8,
    pub weighted_pred_flag: bool,
    pub weighted_bipred_idc: u8,
    pub pic_init_qp_minus26: i8,
    pub pic_init_qs_minus26: i8,
    pub chroma_qp_index_offset: i8,
    pub deblocking_filter_control_present_flag: bool,
    pub constrained_intra_pred_flag: bool,
    pub redundant_pic_cnt_present_flag: bool,
    pub transform_8x8_mode_flag: bool,
    pub pic_scaling_matrix_present_flag: bool,
    pub second_chroma_qp_index_offset: i8,
}

/// The least number of bits that tell `n` values apart: the least `w` with
/// `2^w >= n`.
pub open spec fn ceil_log2(n: nat) -> nat {
    bit_length((n - 1) as nat)
}

/// `ceil_log2(n)` bits are enough for `n` values and no fewer are.
pub proof fn lemma_ceil_log2(n: nat)
    requires
        n >= 2,
    ensures
        pow2(ceil_log2(n)) >= n,
        pow2((ceil_log2(n) - 1) as nat) < n,
        ceil_log2(n) >= 1,
{
    lemma_bit_length_bounds((n - 1) as nat);
}

impl Pps {
    /// The parameter set before anything is read.
    pub open spec fn blank() -> Pps {
        Pps {
            pic_parameter_set_id: 0,
            seq_parameter_set_id: 0,
            entropy_coding_mode_flag: false,
            bottom_field_pic_order_in_frame_present_flag: false,
            num_slice_groups_minus1: 0,
            slice_group_map_type: 0,
            num_ref_idx_l0_default_active_minus1: 0,
            num_ref_idx_l1_default_active_minus1: 0,
            weighted_pred_flag: false,
            weighted_bipred_idc: 0,
            pic_init_qp_minus26: 0,
            pic_init_qs_minus26: 0,
            chroma_qp_index_offset: 0,
            deblocking_filter_control_present_flag: false,
            constrained_intra_pred_flag: false,
            redundant_pic_cnt_present_flag: false,
            transform_8x8_mode_flag: false,
            pic_scaling_matrix_present_flag: false,
            second_chroma_qp_index_offset: 0,
        }
    }

    /// The ranges that every parsed parameter set keeps.
    pub open spec fn in_range(self) -> bool {
        &&& self.seq_parameter_set_id <= 31
        &&& self.num_ref_idx_l0_default_active_minus1 <= 31
        &&& self.num_ref_idx_l1_default_active_minus1 <= 31
        &&& self.weighted_bipred_idc <= 3
        &&& -26 <= self.pic_init_qp_minus26 <= 25
        &&& -26 <= self.pic_init_qs_minus26 <= 25
        &&& -12 <= self.chroma_qp_index_offset <= 12
        &&& -12 <= self.second_chroma_qp_index_offset <= 12
    }
}

/// The slice group map of `groups + 1` slice groups: read and dropped.
///
/// Type 0 holds one run length for each group, type 2 two corners for each
/// group but the last, types 3 to 5 a flag and a rate, type 6 a count and
/// then that many group ids plus one, each as wide as telling the groups
/// apart takes. The other types hold nothing.
pub open spec fn slice_group_map(bits: Seq<bool>, c: Cursor, groups: nat, map_type: nat) -> Cursor {
    if map_type == 0 {
        past_ues(bits, c, groups + 1)
    } else if map_type == 2 {
        past_ues(bits, c, 2 * groups)
    } else if 3 <= map_type <= 5 {
        let (_direction, c) = take_flag(bits, c);
        let (_rate, c) = take_ue(bits, c);
        c
    } else if map_type == 6 {
        let (units, c) = take_ue(bits, c);
        past_fixed(bits, c, ceil_log2(groups + 1), units + 1)
    } else {
        c
    }
}

/// Ids, the two coding flags and the slice groups.
pub open spec fn head(bits: Seq<bool>, c: Cursor, pps: Pps) -> (Pps, Cursor) {
    let (id, c) = take_ue(bits, c);
    let c = c.require(id <= 255, ErrorKind::MalformedPps);
    let (sps_id, c) = take_ue(bits, c);
    let c = c.require(sps_id <= 31, ErrorKind::MalformedPps);
    let (entropy, c) = take_flag(bits, c);
    let (bottom_field, c) = take_flag(bits, c);
    let (groups, c) = take_ue(bits, c);
    let (map_type, c) = if groups > 0 {
        take_ue(bits, c)
    } else {
        (0nat, c)
    };
    let c = if groups > 0 {
        slice_group_map(bits, c, groups, map_type)
    } else {
        c
    };
    (
        Pps {
            pic_parameter_set_id: id as u8,
            seq_parameter_set_id: sps_id as u8,
            entropy_coding_mode_flag: entropy,
            bottom_field_pic_order_in_frame_present_flag: bottom_field,
            num_slice_groups_minus1: groups as u32,
            slice_group_map_type: map_type as u32,
            ..pps
        },
        c,
    )
}

/// Reference index defaults, weighted prediction, quantiser offsets and the
/// three flags after them.
pub open spec fn body(bits: Seq<bool>, c: Cursor, pps: Pps) -> (Pps, Cursor) {
    let (l0, c) = take_ue(bits, c);
    let c = c.require(l0 <= 31, ErrorKind::MalformedPps);
    let (l1, c) = take_ue(bits, c);
    let c = c.require(l1 <= 31, ErrorKind::MalformedPps);
    let (weighted, c) = take_flag(bits, c);
    let (bipred, c) = take_bits(bits, c, 2);
    let (qp, c) = take_se(bits, c);
    let c = c.require(-26 <= qp <= 25, ErrorKind::MalformedPps);
    let (qs, c) = take_se(bits, c);
    let c = c.require(-26 <= qs <= 25, ErrorKind::MalformedPps);
    let (chroma, c) = take_se(bits, c);
    let c = c.require(-12 <= chroma <= 12, ErrorKind::MalformedPps);
    let (deblocking, c) = take_flag(bits, c);
    let (constrained, c) = take_flag(bits, c);
    let (redundant, c) = take_flag(bits, c);
    (
        Pps {
            num_ref_idx_l0_default_active_minus1: l0 as u8,
            num_ref_idx_l1_default_active_minus1: l1 as u8,
            weighted_pred_flag: weighted,
            weighted_bipred_idc: bipred as u8,
            pic_init_qp_minus26: qp as i8,
            pic_init_qs_minus26: qs as i8,
            chroma_qp_index_offset: chroma as i8,
            deblocking_filter_control_present_flag: deblocking,
            constrained_intra_pred_flag: constrained,
            redundant_pic_cnt_present_flag: redundant,
            ..pps
        },
        c,
    )
}

/// The optional block at the end. Where it is absent the second chroma
/// offset is the first. Its scaling lists are read and dropped: six of 16
/// entries, and with the 8x8 transform two more of 64.
pub open spec fn tail(bits: Seq<bool>, c: Cursor, pps: Pps) -> (Pps, Cursor) {
    if !more_data(bits, c) {
        (
            Pps {
                transform_8x8_mode_flag: false,
                pic_scaling_matrix_present_flag: false,
                second_chroma_qp_index_offset: pps.chroma_qp_index_offset,
                ..pps
            },
            c,
        )
    } else {
        let (transform, c) = take_flag(bits, c);
        let (matrix, c) = take_flag(bits, c);
        let lists: nat = if transform {
            8
        } else {
            6
        };
        let c = if matrix {
            past_scaling_lists(bits, c, lists, 6)
        } else {
            c
        };
        let (second, c) = take_se(bits, c);
        let c = c.require(-12 <= second <= 12, ErrorKind::MalformedPps);
        (
            Pps {
                transform_8x8_mode_flag: transform,
                pic_scaling_matrix_present_flag: matrix,
                second_chroma_qp_index_offset: second as i8,
                ..pps
            },
            c,
        )
    }
}

/// The parameter set that the payload `rbsp` spells, or the first fault in
/// it. A value out of its range is `MalformedPps`.
pub open spec fn pps_syntax(rbsp: Seq<u8>) -> Result<Pps, ErrorKind> {
    let bits = bits_of(rbsp);
    let (pps, c) = head(bits, Cursor::start(), Pps::blank());
    let (pps, c) = body(bits, c, pps);
    let (pps, c) = tail(bits, c, pps);
    finish(pps, c)
}

/// What parsing `rbsp` as a picture parameter set gives. A payload that ends
/// too early is malformed.
#[verifier::opaque]
pub open spec fn pps_of(rbsp: Seq<u8>) -> Result<Pps, ErrorKind> {
    match pps_syntax(rbsp) {
        Err(ErrorKind::UnexpectedEof) => Err(ErrorKind::MalformedPps),
        other => other,
    }
}

fn blank_pps() -> (pps: Pps)
    ensures
        pps == Pps::blank(),
{
    Pps {
        pic_parameter_set_id: 0,
        seq_parameter_set_id: 0,
        entropy_coding_mode_flag: false,
        bottom_field_pic_order_in_frame_present_flag: false,
        num_slice_groups_minus1: 0,
        slice_group_map_type: 0,
        num_ref_idx_l0_default_active_minus1: 0,
        num_ref_idx_l1_default_active_minus1: 0,
        weighted_pred_flag: false,
        weighted_bipred_idc: 0,
        pic_init_qp_minus26: 0,
        pic_init_qs_minus26: 0,
        chroma_qp_index_offset: 0,
        deblocking_filter_control_present_flag: false,
        constrained_intra_pred_flag: false,
        redundant_pic_cnt_present_flag: false,
        transform_8x8_mode_flag: false,
        pic_scaling_matrix_present_flag: false,
        second_chroma_qp_index_offset: 0,
    }
}

/// Reads and drops one scaling list of `size` entries.
pub fn skip_scaling_list(reader: &mut Scan, size: usize)
    ensures
        final(reader).bits() == old(reader).bits(),
        final(reader).cursor() == past_scaling_list(
            old(reader).bits(),
            old(reader).cursor(),
            size as nat,
        ),
{
    let mut last_scale: i64 = 8;
    let mut next_scale: i64 = 8;
    let mut i: usize = 0;
    while i < size && reader.sound() && next_scale != 0
        invariant
            i <= size,
            reader.bits() == old(reader).bits(),
            0 <= next_scale <= 255,
            0 <= last_scale <= 255,
            past_scaling_entries(old(reader).bits(), old(reader).cursor(), size as nat, 8, 8)
                == past_scaling_entries(
                reader.bits(),
                reader.cursor(),
                (size - i) as nat,
                last_scale as int,
                next_scale as int,
            ),
        decreases size - i,
    {
        let ghost before = reader.cursor();
        let ghost last = last_scale as int;
        let ghost next = next_scale as int;
        let delta_scale = reader.se();
        proof {
            vstd::arithmetic::div_mod::lemma_mod_multiples_vanish(
                0x100_0000,
                last + delta_scale + 256,
                256,
            );
        }
        next_scale = (last_scale + delta_scale as i64 + 256 + 0x1_0000_0000) % 256;
        last_scale = if next_scale == 0 {
            last_scale
        } else {
            next_scale
        };
        i += 1;
        assert(past_scaling_entries(reader.bits(), before, (size - i + 1) as nat, last, next)
            == past_scaling_entries(
            reader.bits(),
            reader.cursor(),
            (size - i) as nat,
            last_scale as int,
            next_scale as int,
        ));
    }
}

/// Reads and drops `num_lists` optional scaling lists: the first six of 16
/// entries, the others of 64.
fn skip_scaling_lists(scan: &mut Scan, num_lists: u32)
    ensures
        final(scan).bits() == old(scan).bits(),
        final(scan).cursor() == past_scaling_lists(
            old(scan).bits(),
            old(scan).cursor(),
            num_lists as nat,
            6,
        ),
{
    let mut i: u32 = 0;
    while i < num_lists && scan.sound()
        invariant
            i <= num_lists,
            scan.bits() == old(scan).bits(),
            past_scaling_lists(old(scan).bits(), old(scan).cursor(), num_lists as nat, 6)
                == past_scaling_lists(
                scan.bits(),
                scan.cursor(),
                (num_lists - i) as nat,
                if i < 6 {
                    (6 - i) as nat
                } else {
                    0
                },
            ),
        decreases num_lists - i,
    {
        let pic_scaling_list_present_flag = scan.flag();
        if pic_scaling_list_present_flag {
            let size: usize = if i < 6 {
                16
            } else {
                64
            };
            skip_scaling_list(scan, size);
        }
        i += 1;
    }
}

fn skip_slice_group_map(scan: &mut Scan, num_slice_groups_minus1: u32, slice_group_map_type: u32)
    ensures
        final(scan).bits() == old(scan).bits(),
        final(scan).cursor() == slice_group_map(
            old(scan).bits(),
            old(scan).cursor(),
            num_slice_groups_minus1 as nat,
            slice_group_map_type as nat,
        ),
{
    match slice_group_map_type {
        0 => {
            scan.skip_ues(num_slice_groups_minus1 as u64 + 1);
        },
        2 => {
            scan.skip_ues(2 * (num_slice_groups_minus1 as u64));
        },
        3 | 4 | 5 => {
            let _slice_group_change_direction_flag = scan.flag();
            let _slice_group_change_rate_minus1 = scan.ue();
        },
        6 => {
            let pic_size_in_map_units_minus1 = scan.ue();
            proof {
                lemma_bit_length_u32(num_slice_groups_minus1);
                axiom_u32_leading_zeros(num_slice_groups_minus1);
            }
            let num_bits: u32 = 32 - num_slice_groups_minus1.leading_zeros();
            scan.skip_numbers(num_bits, pic_size_in_map_units_minus1 as u64 + 1);
        },
        _ => {},
    }
}

fn parse_head(scan: &mut Scan, pps: Pps) -> (out: Pps)
    ensures
        final(scan).bits() == old(scan).bits(),
        final(scan).cursor() == head(old(scan).bits(), old(scan).cursor(), pps).1,
        final(scan).cursor() is At ==> out == head(old(scan).bits(), old(scan).cursor(), pps).0,
{
    let pic_parameter_set_id = scan.ue();
    if pic_parameter_set_id > 255 {
        scan.fail(Error::MalformedPps("Invalid PPS ID".to_string()));
    }
    let seq_parameter_set_id = scan.ue();
    if seq_parameter_set_id > 31 {
        scan.fail(Error::MalformedPps("Invalid SPS ID reference".to_string()));
    }
    let entropy_coding_mode_flag = scan.flag();
    let bottom_field_pic_order_in_frame_present_flag = scan.flag();
    let num_slice_groups_minus1 = scan.ue();
    let mut slice_group_map_type: u32 = 0;
    if num_slice_groups_minus1 > 0 {
        slice_group_map_type = scan.ue();
        skip_slice_group_map(scan, num_slice_groups_minus1, slice_group_map_type);
    }
    if !scan.sound() {
        return pps;
    }
    Pps {
        pic_parameter_set_id: pic_parameter_set_id as u8,
        seq_parameter_set_id: seq_parameter_set_id as u8,
        entropy_coding_mode_flag,
        bottom_field_pic_order_in_frame_present_flag,
        num_slice_groups_minus1,
        slice_group_map_type,
        ..pps
    }
}

fn parse_body(scan: &mut Scan, pps: Pps) -> (out: Pps)
    ensures
        final(scan).bits() == old(scan).bits(),
        final(scan).cursor() == body(old(scan).bits(), old(scan).cursor(), pps).1,
        final(scan).cursor() is At ==> out == body(old(scan).bits(), old(scan).cursor(), pps).0,
{
    let num_ref_idx_l0_default_active_minus1 = scan.ue();
    if num_ref_idx_l0_default_active_minus1 > 31 {
        scan.fail(Error::MalformedPps("Invalid num_ref_idx_l0".to_string()));
    }
    let num_ref_idx_l1_default_active_minus1 = scan.ue();
    if num_ref_idx_l1_default_active_minus1 > 31 {
        scan.fail(Error::MalformedPps("Invalid num_ref_idx_l1".to_string()));
    }
    let weighted_pred_flag = scan.flag();
    let weighted_bipred_idc = scan.u(2);
    let pic_init_qp_minus26 = scan.se();
    if pic_init_qp_minus26 < -26 || pic_init_qp_minus26 > 25 {
        scan.fail(Error::MalformedPps("Invalid pic_init_qp".to_string()));
    }
    let pic_init_qs_minus26 = scan.se();
    if pic_init_qs_minus26 < -26 || pic_init_qs_minus26 > 25 {
        scan.fail(Error::MalformedPps("Invalid pic_init_qs".to_string()));
    }
    let chroma_qp_index_offset = scan.se();
    if chroma_qp_index_offset < -12 || chroma_qp_index_offset > 12 {
        scan.fail(Error::MalformedPps("Invalid chroma_qp_index_offset".to_string()));
    }
    let deblocking_filter_control_present_flag = scan.flag();
    let constrained_intra_pred_flag = scan.flag();
    let redundant_pic_cnt_present_flag = scan.flag();
    if !scan.sound() {
        return pps;
    }
    proof {
        vstd::arithmetic::power2::lemma2_to64();
    }
    Pps {
        num_ref_idx_l0_default_active_minus1: num_ref_idx_l0_default_active_minus1 as u8,
        num_ref_idx_l1_default_active_minus1: num_ref_idx_l1_default_active_minus1 as u8,
        weighted_pred_flag,
        weighted_bipred_idc: weighted_bipred_idc as u8,
        pic_init_qp_minus26: pic_init_qp_minus26 as i8,
        pic_init_qs_minus26: pic_init_qs_minus26 as i8,
        chroma_qp_index_offset: chroma_qp_index_offset as i8,
        deblocking_filter_control_present_flag,
        constrained_intra_pred_flag,
        redundant_pic_cnt_present_flag,
        ..pps
    }
}

fn parse_tail(scan: &mut Scan, pps: Pps) -> (out: Pps)
    ensures
        final(scan).bits() == old(scan).bits(),
        final(scan).cursor() == tail(old(scan).bits(), old(scan).cursor(), pps).1,
        final(scan).cursor() is At ==> out == tail(old(scan).bits(), old(scan).cursor(), pps).0,
{
    if !scan.more_data() {
        return Pps {
            transform_8x8_mode_flag: false,
            pic_scaling_matrix_present_flag: false,
            second_chroma_qp_index_offset: pps.chroma_qp_index_offset,
            ..pps
        };
    }
    let transform_8x8_mode_flag = scan.flag();
    let pic_scaling_matrix_present_flag = scan.flag();
    if pic_scaling_matrix_present_flag {
        let num_lists: u32 = 6 + if transform_8x8_mode_flag {
            2
        } else {
            0
        };
        skip_scaling_lists(scan, num_lists);
    }
    let second_chroma_qp_index_offset = scan.se();
    if second_chroma_qp_index_offset < -12 || second_chroma_qp_index_offset > 12 {
        scan.fail(Error::MalformedPps("Invalid second_chroma_qp_index_offset".to_string()));
    }
    if !scan.sound() {
        return pps;
    }
    Pps {
        transform_8x8_mode_flag,
        pic_scaling_matrix_present_flag,
        second_chroma_qp_index_offset: second_chroma_qp_index_offset as i8,
        ..pps
    }
}

/// A fault met in one part of the syntax is still there after the later parts.
proof fn lemma_fault_stays(bits: Seq<bool>, c: Cursor)
    requires
        c is Fault,
    ensures
        forall|pps: Pps| (#[trigger] head(bits, c, pps)).1 == c,
        forall|pps: Pps| (#[trigger] body(bits, c, pps)).1 == c,
        forall|pps: Pps| (#[trigger] tail(bits, c, pps)).1 == c,
{
    assert(forall|w: nat, n: nat| #[trigger] past_fixed(bits, c, w, n) == c);
    assert(forall|n: nat| #[trigger] past_ues(bits, c, n) == c);
}

fn parse_syntax(rbsp: &[u8]) -> (res: Result<Pps, Error>)
    ensures
        match pps_syntax(rbsp@) {
            Ok(pps) => res == Ok::<Pps, Error>(pps),
            Err(kind) => fails_with(res, kind),
        },
{
    let ghost bits = bits_of(rbsp@);
    let mut scan = Scan::new(rbsp);
    let pps = parse_head(&mut scan, blank_pps());
    proof {
        if scan.cursor() is Fault {
            lemma_fault_stays(bits, scan.cursor());
        }
    }
    let pps = parse_body(&mut scan, pps);
    proof {
        if scan.cursor() is Fault {
            lemma_fault_stays(bits, scan.cursor());
        }
    }
    let pps = parse_tail(&mut scan, pps);
    scan.finish(pps)
}

/// Every parameter set that a payload spells keeps its ranges.
pub proof fn lemma_pps_in_range(rbsp: Seq<u8>)
    ensures
        pps_of(rbsp) matches Ok(pps) ==> pps.in_range(),
{
    reveal(pps_of);
    let bits = bits_of(rbsp);
    let (headed, c1) = head(bits, Cursor::start(), Pps::blank());
    let (bodied, c2) = body(bits, c1, headed);
    let (whole, c3) = tail(bits, c2, bodied);
    if pps_of(rbsp) is Ok {
        if c1 is Fault {
            lemma_fault_stays(bits, c1);
        }
        if c2 is Fault {
            lemma_fault_stays(bits, c2);
        }
        assert(c3 is At && c2 is At && c1 is At);
        let (l0, d) = take_ue(bits, c1);
        let d = d.require(l0 <= 31, ErrorKind::MalformedPps);
        let (l1, d) = take_ue(bits, d);
        let d = d.require(l1 <= 31, ErrorKind::MalformedPps);
        let (weighted, d) = take_flag(bits, d);
        match d {
            Cursor::At(pos) => {
                crate::bitreader::lemma_bits_value_bound(bits, pos, 2);
            },
            Cursor::Fault(_) => {},
        }
        vstd::arithmetic::power2::lemma2_to64();
        assert(whole.seq_parameter_set_id == headed.seq_parameter_set_id);
    }
}

impl Pps {
    /// Parses the payload of a picture parameter set NAL unit, escapes already
    /// taken out.
    pub fn parse(rbsp: &[u8]) -> (res: Result<Pps, Error>)
        ensures
            match pps_of(rbsp@) {
                Ok(pps) => res == Ok::<Pps, Error>(pps) && pps.in_range(),
                Err(kind) => fails_with(res, kind),
            },
    {
        proof {
            reveal(pps_of);
            lemma_pps_in_range(rbsp@);
        }
        match parse_syntax(rbsp) {
            Ok(pps) => Ok(pps),
            Err(Error::UnexpectedEof) => Err(Error::MalformedPps("Truncated PPS".to_string())),
            Err(e) => Err(e),
        }
    }
}

} // verus!
