use h264_parser::nal::ebsp_to_rbsp;
use h264_parser::{Error, Sps};

struct BitWriter {
    bytes: Vec<u8>,
    cur: u8,
    nbits: u8,
}

impl BitWriter {
    fn new() -> Self {
        Self { bytes: Vec::new(), cur: 0, nbits: 0 }
    }

    fn bit(&mut self, bit: bool) {
        self.cur = (self.cur << 1) | (bit as u8);
        self.nbits += 1;
        if self.nbits == 8 {
            self.bytes.push(self.cur);
            self.cur = 0;
            self.nbits = 0;
        }
    }

    fn bits(&mut self, n: u32, value: u32) {
        for i in (0..n).rev() {
            self.bit((value >> i) & 1 != 0);
        }
    }

    fn ue(&mut self, value: u32) {
        let code = value as u64 + 1;
        let digits = 64 - code.leading_zeros();
        for _ in 0..digits - 1 {
            self.bit(false);
        }
        for i in (0..digits).rev() {
            self.bit((code >> i) & 1 != 0);
        }
    }

    fn se(&mut self, value: i32) {
        let code = if value > 0 { (value as u32) * 2 - 1 } else { (-(value as i64) as u32) * 2 };
        self.ue(code);
    }

    /// The bytes so far, the last one padded with zeros: a cut-off payload.
    fn cut(mut self) -> Vec<u8> {
        while self.nbits != 0 {
            self.bit(false);
        }
        self.bytes
    }

    /// The bytes with the stop bit and its padding.
    fn finish(mut self) -> Vec<u8> {
        self.bit(true);
        self.cut()
    }
}

/// Everything up to and including the id.
fn head(profile: u8, level: u8, id: u32) -> BitWriter {
    let mut w = BitWriter::new();
    w.bits(8, profile as u32);
    w.bits(8, 0b1010_0000);
    w.bits(8, level as u32);
    w.ue(id);
    w
}

/// A baseline parameter set of order type 2 with the given size and cropping.
fn simple(width_mbs: u32, height_units: u32, frame_only: bool, crop: Option<[u32; 4]>) -> Vec<u8> {
    let mut w = head(66, 30, 0);
    w.ue(0);
    w.ue(2);
    w.ue(1);
    w.bit(false);
    w.ue(width_mbs);
    w.ue(height_units);
    w.bit(frame_only);
    if !frame_only {
        w.bit(true);
    }
    w.bit(true);
    match crop {
        Some(c) => {
            w.bit(true);
            for v in c {
                w.ue(v);
            }
        }
        None => w.bit(false),
    }
    w.bit(false);
    w.finish()
}

#[test]
fn test_basic_sps_parse() {
    let ebsp = vec![
        0x42, 0x00, 0x1f, 0xac, 0x34, 0xc8, 0x14, 0x00, 0x00, 0x03, 0x00, 0x04, 0x00, 0x00, 0x03,
        0x00, 0xf0, 0x3c, 0x60, 0xc6, 0x58,
    ];

    let rbsp = ebsp_to_rbsp(&ebsp);
    let sps = Sps::parse(&rbsp).unwrap();

    assert_eq!(sps.profile_idc, 66);
    assert_eq!(sps.level_idc, 31);
    assert!(sps.width > 0);
    assert!(sps.height > 0);
}

#[test]
fn basic_sps_fields_exactly() {
    let ebsp = vec![
        0x42, 0x00, 0x1f, 0xac, 0x34, 0xc8, 0x14, 0x00, 0x00, 0x03, 0x00, 0x04, 0x00, 0x00, 0x03,
        0x00, 0xf0, 0x3c, 0x60, 0xc6, 0x58,
    ];
    let sps = Sps::parse(&ebsp_to_rbsp(&ebsp)).unwrap();
    assert_eq!(sps.seq_parameter_set_id, 0);
    assert_eq!(sps.chroma_format_idc, 1);
    assert_eq!(sps.log2_max_frame_num_minus4, 1);
    assert_eq!(sps.pic_order_cnt_type, 0);
    assert_eq!(sps.log2_max_pic_order_cnt_lsb_minus4, 0);
    assert_eq!(sps.max_num_ref_frames, 25);
    assert!(!sps.gaps_in_frame_num_value_allowed_flag);
    assert_eq!(sps.pic_width_in_mbs_minus1, 0);
    assert_eq!(sps.pic_height_in_map_units_minus1, 0);
    assert!(!sps.frame_mbs_only_flag);
    assert!(!sps.mb_adaptive_frame_field_flag);
    assert!(sps.direct_8x8_inference_flag);
    assert!(!sps.frame_cropping_flag);
    assert!(!sps.vui_parameters_present_flag);
    assert_eq!((sps.width, sps.height), (16, 32));
}

#[test]
fn sps_head_fields() {
    let mut w = head(77, 41, 31);
    w.ue(12);
    w.ue(2);
    w.ue(4);
    w.bit(true);
    w.ue(0);
    w.ue(0);
    w.bit(true);
    w.bit(false);
    w.bit(false);
    w.bit(true);
    let sps = Sps::parse(&w.finish()).unwrap();
    assert_eq!(sps.profile_idc, 77);
    assert!(sps.constraint_set0_flag);
    assert!(!sps.constraint_set1_flag);
    assert!(sps.constraint_set2_flag);
    assert!(!sps.constraint_set3_flag);
    assert!(!sps.constraint_set4_flag);
    assert!(!sps.constraint_set5_flag);
    assert_eq!(sps.level_idc, 41);
    assert_eq!(sps.seq_parameter_set_id, 31);
    assert_eq!(sps.log2_max_frame_num_minus4, 12);
    assert_eq!(sps.pic_order_cnt_type, 2);
    assert_eq!(sps.max_num_ref_frames, 4);
    assert!(sps.gaps_in_frame_num_value_allowed_flag);
    assert!(sps.frame_mbs_only_flag);
    assert!(!sps.direct_8x8_inference_flag);
    assert!(sps.vui_parameters_present_flag);
    assert_eq!((sps.width, sps.height), (16, 16));
}

#[test]
fn sps_dimensions_without_cropping() {
    let sps = Sps::parse(&simple(119, 67, true, None)).unwrap();
    assert_eq!((sps.width, sps.height), (1920, 1088));
    let sps = Sps::parse(&simple(79, 22, false, None)).unwrap();
    assert_eq!((sps.width, sps.height), (1280, 736));
}

#[test]
fn sps_dimensions_with_cropping() {
    // 4:2:0, frames: two luma samples for each unit, both ways.
    let sps = Sps::parse(&simple(119, 67, true, Some([0, 0, 0, 4]))).unwrap();
    assert_eq!((sps.width, sps.height), (1920, 1080));
    assert_eq!(sps.frame_crop_bottom_offset, 4);
    let sps = Sps::parse(&simple(119, 67, true, Some([1, 2, 3, 4]))).unwrap();
    assert_eq!((sps.width, sps.height), (1920 - 6, 1088 - 14));
    assert_eq!(
        (
            sps.frame_crop_left_offset,
            sps.frame_crop_right_offset,
            sps.frame_crop_top_offset,
            sps.frame_crop_bottom_offset
        ),
        (1, 2, 3, 4)
    );
    // Fields: the height and the vertical crop unit double.
    let sps = Sps::parse(&simple(119, 33, false, Some([0, 0, 0, 2]))).unwrap();
    assert_eq!((sps.width, sps.height), (1920, 1080));
    assert!(sps.mb_adaptive_frame_field_flag);
}

#[test]
fn sps_dimensions_that_do_not_fit_are_malformed() {
    // Cropping more than there is.
    let rbsp = simple(0, 0, true, Some([5, 4, 0, 0]));
    assert!(matches!(Sps::parse(&rbsp), Err(Error::MalformedSps(_))));
    let rbsp = simple(0, 0, true, Some([0, 0, 4, 5]));
    assert!(matches!(Sps::parse(&rbsp), Err(Error::MalformedSps(_))));
    // Exactly everything cropped away is still a size.
    let sps = Sps::parse(&simple(0, 0, true, Some([4, 4, 8, 0]))).unwrap();
    assert_eq!((sps.width, sps.height), (0, 0));
    // Sixteen times the width in macroblocks must fit 32 bits.
    let sps = Sps::parse(&simple((1 << 28) - 1, 0, true, None)).unwrap_err();
    assert!(matches!(sps, Error::MalformedSps(_)));
    let sps = Sps::parse(&simple((1 << 28) - 2, 0, true, None)).unwrap();
    assert_eq!(sps.width, 0xffff_fff0);
    let rbsp = simple(0, (1 << 27) - 1, false, None);
    assert!(matches!(Sps::parse(&rbsp), Err(Error::MalformedSps(_))));
}

#[test]
fn sps_range_checks() {
    // id above 31
    let w = head(66, 30, 32);
    assert!(matches!(Sps::parse(&w.finish()), Err(Error::MalformedSps(_))));
    // log2_max_frame_num_minus4 above 12, also where its low byte is small
    for bad in [13u32, 256, 300] {
        let mut w = head(66, 30, 0);
        w.ue(bad);
        w.ue(2);
        assert!(matches!(Sps::parse(&w.finish()), Err(Error::MalformedSps(_))));
    }
    // order type above 2
    for bad in [3u32, 256, 257] {
        let mut w = head(66, 30, 0);
        w.ue(0);
        w.ue(bad);
        assert!(matches!(Sps::parse(&w.finish()), Err(Error::MalformedSps(_))));
    }
    // log2_max_pic_order_cnt_lsb_minus4 above 12
    for bad in [13u32, 256] {
        let mut w = head(66, 30, 0);
        w.ue(0);
        w.ue(0);
        w.ue(bad);
        assert!(matches!(Sps::parse(&w.finish()), Err(Error::MalformedSps(_))));
    }
    // chroma format above 3
    for bad in [4u32, 256, 259] {
        let mut w = head(100, 30, 0);
        w.ue(bad);
        assert!(matches!(Sps::parse(&w.finish()), Err(Error::MalformedSps(_))));
    }
}

#[test]
fn sps_cut_off_is_malformed() {
    assert!(matches!(Sps::parse(&[]), Err(Error::MalformedSps(_))));
    assert!(matches!(Sps::parse(&[0x42, 0x00]), Err(Error::MalformedSps(_))));
    assert!(matches!(Sps::parse(&[0x42, 0x00, 0x1f]), Err(Error::MalformedSps(_))));
    let whole = simple(119, 67, true, Some([0, 0, 0, 4]));
    for len in 0..whole.len() - 1 {
        assert!(matches!(Sps::parse(&whole[..len]), Err(Error::MalformedSps(_))), "{}", len);
    }
    assert!(Sps::parse(&whole).is_ok());
}

#[test]
fn sps_invalid_code_is_a_bitstream_error() {
    // 32 zero bits where the id should be.
    let rbsp = vec![0x42, 0x00, 0x1e, 0x00, 0x00, 0x00, 0x00, 0xff];
    assert!(matches!(Sps::parse(&rbsp), Err(Error::BitstreamError(_))));
}

#[test]
fn sps_order_type_0_and_1() {
    let mut w = head(66, 30, 3);
    w.ue(2);
    w.ue(0);
    w.ue(5);
    w.ue(1);
    w.bit(false);
    w.ue(1);
    w.ue(1);
    w.bit(true);
    w.bit(false);
    w.bit(false);
    w.bit(false);
    let sps = Sps::parse(&w.finish()).unwrap();
    assert_eq!(sps.seq_parameter_set_id, 3);
    assert_eq!(sps.log2_max_frame_num_minus4, 2);
    assert_eq!(sps.pic_order_cnt_type, 0);
    assert_eq!(sps.log2_max_pic_order_cnt_lsb_minus4, 5);
    assert_eq!((sps.width, sps.height), (32, 32));

    let mut w = head(66, 30, 0);
    w.ue(0);
    w.ue(1);
    w.bit(true);
    w.se(-3);
    w.se(7);
    w.ue(2);
    w.se(100);
    w.se(-100);
    w.ue(9);
    w.bit(false);
    w.ue(2);
    w.ue(0);
    w.bit(true);
    w.bit(false);
    w.bit(false);
    w.bit(false);
    let sps = Sps::parse(&w.finish()).unwrap();
    assert_eq!(sps.pic_order_cnt_type, 1);
    assert!(sps.delta_pic_order_always_zero_flag);
    assert_eq!(sps.offset_for_non_ref_pic, -3);
    assert_eq!(sps.offset_for_top_to_bottom_field, 7);
    assert_eq!(sps.num_ref_frames_in_pic_order_cnt_cycle, 2);
    assert_eq!(sps.log2_max_pic_order_cnt_lsb_minus4, 0);
    assert_eq!(sps.max_num_ref_frames, 9);
    assert_eq!((sps.width, sps.height), (48, 16));
}

/// Order type 1 with a cycle of the given length, each offset 5.
fn with_cycle(cycle: u32) -> Vec<u8> {
    let mut w = head(66, 30, 0);
    w.ue(0);
    w.ue(1);
    w.bit(false);
    w.se(0);
    w.se(0);
    w.ue(cycle);
    for _ in 0..cycle.min(300) {
        w.se(5);
    }
    w.ue(3);
    w.bit(false);
    w.ue(0);
    w.ue(0);
    w.bit(true);
    w.bit(false);
    w.bit(false);
    w.bit(false);
    w.finish()
}

#[test]
fn sps_reads_as_many_offsets_as_the_cycle_is_long() {
    for cycle in [0u32, 1, 2, 17, 254, 255] {
        let sps = Sps::parse(&with_cycle(cycle)).unwrap();
        assert_eq!(sps.num_ref_frames_in_pic_order_cnt_cycle as u32, cycle);
        assert_eq!(sps.max_num_ref_frames, 3);
        assert_eq!((sps.width, sps.height), (16, 16));
    }
}

#[test]
fn sps_cycle_length_above_255_is_malformed() {
    for cycle in [256u32, 257, 300, 65_536] {
        assert!(matches!(Sps::parse(&with_cycle(cycle)), Err(Error::MalformedSps(_))));
    }
}

#[test]
fn sps_bit_depth_above_255_is_malformed() {
    for (luma, chroma) in [(256u32, 0u32), (0, 256), (259, 3), (3, 259), (1 << 20, 0)] {
        let mut w = head(100, 40, 1);
        w.ue(1);
        w.ue(luma);
        w.ue(chroma);
        w.bit(false);
        w.bit(false);
        w.ue(0);
        w.ue(2);
        w.ue(1);
        w.bit(false);
        w.ue(0);
        w.ue(0);
        w.bit(true);
        w.bit(false);
        w.bit(false);
        w.bit(false);
        assert!(matches!(Sps::parse(&w.finish()), Err(Error::MalformedSps(_))));
    }
    let mut w = head(100, 40, 1);
    w.ue(1);
    w.ue(255);
    w.ue(254);
    w.bit(false);
    w.bit(false);
    w.ue(0);
    w.ue(2);
    w.ue(1);
    w.bit(false);
    w.ue(0);
    w.ue(0);
    w.bit(true);
    w.bit(false);
    w.bit(false);
    w.bit(false);
    let sps = Sps::parse(&w.finish()).unwrap();
    assert_eq!((sps.bit_depth_luma_minus8, sps.bit_depth_chroma_minus8), (255, 254));
}

fn high(format: u32, lists: &dyn Fn(&mut BitWriter), crop: Option<[u32; 4]>) -> Vec<u8> {
    let mut w = head(100, 40, 1);
    w.ue(format);
    if format == 3 {
        w.bit(true);
    }
    w.ue(2);
    w.ue(3);
    w.bit(true);
    lists(&mut w);
    w.ue(0);
    w.ue(2);
    w.ue(1);
    w.bit(false);
    w.ue(3);
    w.ue(2);
    w.bit(true);
    w.bit(true);
    match crop {
        Some(c) => {
            w.bit(true);
            for v in c {
                w.ue(v);
            }
        }
        None => w.bit(false),
    }
    w.bit(false);
    w.finish()
}

#[test]
fn sps_chroma_block() {
    let sps = Sps::parse(&high(2, &|w| w.bit(false), Some([1, 1, 1, 1]))).unwrap();
    assert_eq!(sps.profile_idc, 100);
    assert_eq!(sps.seq_parameter_set_id, 1);
    assert_eq!(sps.chroma_format_idc, 2);
    assert!(!sps.separate_colour_plane_flag);
    assert_eq!(sps.bit_depth_luma_minus8, 2);
    assert_eq!(sps.bit_depth_chroma_minus8, 3);
    assert!(sps.qpprime_y_zero_transform_bypass_flag);
    assert!(!sps.seq_scaling_matrix_present_flag);
    // 4:2:2: two samples across, one down.
    assert_eq!((sps.width, sps.height), (64 - 4, 48 - 2));

    let sps = Sps::parse(&high(3, &|w| w.bit(false), Some([1, 2, 3, 4]))).unwrap();
    assert_eq!(sps.chroma_format_idc, 3);
    assert!(sps.separate_colour_plane_flag);
    assert_eq!((sps.width, sps.height), (64 - 3, 48 - 7));

    // Monochrome: cropping offsets are read and count for nothing.
    let sps = Sps::parse(&high(0, &|w| w.bit(false), Some([1, 2, 3, 4]))).unwrap();
    assert_eq!(sps.chroma_format_idc, 0);
    assert!(sps.frame_cropping_flag);
    assert_eq!((sps.width, sps.height), (64, 48));
}

#[test]
fn sps_scaling_lists_are_read_and_dropped() {
    // Eight lists: one with 16 deltas, one that ends at once, six absent.
    let lists = |w: &mut BitWriter| {
        w.bit(true);
        w.bit(true);
        for _ in 0..16 {
            w.se(1);
        }
        w.bit(false);
        w.bit(true);
        w.se(-8);
        for _ in 0..5 {
            w.bit(false);
        }
    };
    let sps = Sps::parse(&high(1, &lists, None)).unwrap();
    assert!(sps.seq_scaling_matrix_present_flag);
    assert_eq!(sps.max_num_ref_frames, 1);
    assert_eq!((sps.width, sps.height), (64, 48));

    // Twelve lists with chroma format 3.
    let lists = |w: &mut BitWriter| {
        w.bit(true);
        for _ in 0..11 {
            w.bit(false);
        }
        w.bit(true);
        w.se(-8);
    };
    let sps = Sps::parse(&high(3, &lists, None)).unwrap();
    assert_eq!(sps.chroma_format_idc, 3);
    assert_eq!((sps.width, sps.height), (64, 48));

    // The scale wraps modulo 256: 8 + 248 is zero and ends the list.
    let lists = |w: &mut BitWriter| {
        w.bit(true);
        w.bit(true);
        w.se(248);
        for _ in 0..7 {
            w.bit(false);
        }
    };
    let sps = Sps::parse(&high(1, &lists, None)).unwrap();
    assert_eq!((sps.width, sps.height), (64, 48));
}
