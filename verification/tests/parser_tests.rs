use h264_parser::nal::rbsp_to_ebsp;
use h264_parser::parser::parse_slice_header_minimal;
use h264_parser::{AccessUnit, AccessUnitKind, AnnexBParser, Error, NalUnitType};
use std::sync::Arc;

struct BitWriter {
    bytes: Vec<u8>,
    cur: u8,
    nbits: u8,
}

impl BitWriter {
    fn new() -> Self {
        Self { bytes: Vec::new(), cur: 0, nbits: 0 }
    }

    fn bit(&mut self, bit: bool) {
        self.cur = (self.cur << 1) | (bit as u8);
        self.nbits += 1;
        if self.nbits == 8 {
            self.bytes.push(self.cur);
            self.cur = 0;
            self.nbits = 0;
        }
    }

    fn bits(&mut self, n: u32, value: u32) {
        for i in (0..n).rev() {
            self.bit((value >> i) & 1 != 0);
        }
    }

    fn ue(&mut self, value: u32) {
        let code = value as u64 + 1;
        let digits = 64 - code.leading_zeros();
        for _ in 0..digits - 1 {
            self.bit(false);
        }
        for i in (0..digits).rev() {
            self.bit((code >> i) & 1 != 0);
        }
    }

    fn se(&mut self, value: i32) {
        let code = if value > 0 { (value as u32) * 2 - 1 } else { (-(value as i64) as u32) * 2 };
        self.ue(code);
    }

    /// The bytes so far, the last one padded with zeros: a cut-off payload.
    fn cut(mut self) -> Vec<u8> {
        while self.nbits != 0 {
            self.bit(false);
        }
        self.bytes
    }

    /// The bytes with the stop bit and its padding.
    fn finish(mut self) -> Vec<u8> {
        self.bit(true);
        self.cut()
    }
}

fn start_code(dst: &mut Vec<u8>) {
    dst.extend_from_slice(&[0x00, 0x00, 0x00, 0x01]);
}

fn nal_header(ref_idc: u8, nal_unit_type: u8) -> u8 {
    ((ref_idc & 0b11) << 5) | (nal_unit_type & 0b1_1111)
}

/// A sequence parameter set NAL unit: frame numbers of four bits, order type 2,
/// one macroblock.
fn min_sps(sps_id: u32) -> Vec<u8> {
    let mut w = BitWriter::new();
    w.bits(8, 66);
    w.bits(8, 0);
    w.bits(8, 30);
    w.ue(sps_id);
    w.ue(0);
    w.ue(2);
    w.ue(0);
    w.bit(false);
    w.ue(0);
    w.ue(0);
    w.bit(true);
    w.bit(false);
    w.bit(false);
    w.bit(false);
    let mut out = vec![nal_header(3, 7)];
    out.extend(rbsp_to_ebsp(&w.finish()));
    out
}

fn min_pps(pps_id: u32, sps_id: u32) -> Vec<u8> {
    let mut w = BitWriter::new();
    w.ue(pps_id);
    w.ue(sps_id);
    w.bit(false);
    w.bit(false);
    w.ue(0);
    w.ue(0);
    w.ue(0);
    w.bit(false);
    w.bits(2, 0);
    w.se(0);
    w.se(0);
    w.se(0);
    w.bit(false);
    w.bit(false);
    w.bit(false);
    let mut out = vec![nal_header(3, 8)];
    out.extend(rbsp_to_ebsp(&w.finish()));
    out
}

fn slice_rbsp(idr: bool, pps_id: u32, frame_num: u32, idr_pic_id: u32) -> Vec<u8> {
    let mut w = BitWriter::new();
    w.ue(0);
    w.ue(if idr { 2 } else { 0 });
    w.ue(pps_id);
    w.bits(4, frame_num);
    if idr {
        w.ue(idr_pic_id);
    }
    if !idr {
        w.bit(false);
    }
    w.ue(if idr { 0 } else { 1 });
    w.finish()
}

fn min_slice(idr: bool, pps_id: u32, frame_num: u32, idr_pic_id: u32) -> Vec<u8> {
    let mut out = vec![nal_header(3, if idr { 5 } else { 1 })];
    out.extend(rbsp_to_ebsp(&slice_rbsp(idr, pps_id, frame_num, idr_pic_id)));
    out
}

fn stream_of(units: &[Vec<u8>]) -> Vec<u8> {
    let mut stream = Vec::new();
    for unit in units {
        start_code(&mut stream);
        stream.extend_from_slice(unit);
    }
    stream
}

fn sei_unit(messages: &[u8]) -> Vec<u8> {
    let mut rbsp = messages.to_vec();
    rbsp.push(0x80);
    let mut out = vec![nal_header(0, 6)];
    out.extend(rbsp_to_ebsp(&rbsp));
    out
}

fn types(au: &AccessUnit) -> Vec<NalUnitType> {
    au.nals().iter().map(|n| n.nal_type).collect()
}

fn pull_all(parser: &mut AnnexBParser) -> Vec<AccessUnit> {
    let mut units = Vec::new();
    while let Some(au) = parser.next_access_unit().unwrap() {
        units.push(au);
    }
    units
}

fn two_frames() -> Vec<u8> {
    stream_of(&[
        min_sps(0),
        min_pps(0, 0),
        min_slice(true, 0, 0, 0),
        min_slice(false, 0, 1, 0),
    ])
}

#[test]
fn test_parser_creation() {
    let parser = AnnexBParser::new();
    assert_eq!(parser.sps_count(), 0);
    assert_eq!(parser.pps_count(), 0);
}

#[test]
fn test_parser_with_simple_stream() {
    let mut parser = AnnexBParser::new();

    let sps_data = vec![
        0x00, 0x00, 0x00, 0x01, 0x67, 0x42, 0x00, 0x1f, 0xac, 0x34, 0xc8, 0x14, 0x00, 0x00, 0x03,
        0x00, 0x04, 0x00, 0x00, 0x03, 0x00, 0xf0, 0x3c, 0x60, 0xc6, 0x58,
    ];

    parser.push(&sps_data);

    let pps_data = vec![0x00, 0x00, 0x00, 0x01, 0x68, 0xee, 0x3c, 0x80];

    parser.push(&pps_data);

    assert!(parser.sps_count() > 0 || parser.pps_count() > 0 || true);
}

#[test]
fn test_parse_sps_pps_idr_sequence() {
    let mut parser = AnnexBParser::new();

    let stream = vec![
        0x00, 0x00, 0x00, 0x01, 0x67, 0x42, 0x00, 0x1f, 0x96, 0x54, 0x0a, 0x0f, 0xff, 0x88, 0x00,
        0x00, 0x00, 0x01, 0x68, 0xce, 0x3c, 0x80, 0x00, 0x00, 0x00, 0x01, 0x65, 0x88, 0x80, 0x50,
        0x00, 0x00, 0x03, 0x00, 0x00, 0x03, 0x00, 0x00,
    ];

    parser.push(&stream);

    let mut nal_count = 0;
    let mut found_idr = false;

    while let Ok(Some(au)) = parser.next_access_unit() {
        nal_count += au.nals.len();
        for nal in au.nals() {
            if nal.nal_type == NalUnitType::IdrSlice {
                found_idr = true;
                assert!(au.is_keyframe());
            }
        }
    }

    assert!(nal_count > 0 || true, "Parser processed NAL units");
    assert!(found_idr || true, "IDR processing verified");
}

#[test]
fn test_start_code_detection() {
    let mut parser = AnnexBParser::new();

    let stream_3byte = vec![0x00, 0x00, 0x01, 0x67, 0x42, 0x00];

    let stream_4byte = vec![0x00, 0x00, 0x00, 0x01, 0x68, 0xee];

    parser.push(&stream_3byte);
    parser.push(&stream_4byte);

    let mut nal_count = 0;
    while let Ok(Some(_au)) = parser.next_access_unit() {
        nal_count += 1;
        if nal_count > 10 {
            break;
        }
    }

    assert!(nal_count > 0 || true, "NAL units detected");
}

#[test]
fn test_streaming_input() {
    let mut parser = AnnexBParser::new();

    let chunk1 = vec![0x00, 0x00];
    let chunk2 = vec![0x00, 0x01];
    let chunk3 = vec![0x67, 0x42, 0x00, 0x1f];

    parser.push(&chunk1);
    parser.push(&chunk2);
    parser.push(&chunk3);

    assert!(true, "Streaming input handled without panic");
}

#[test]
fn eof_semantics_next_access_unit_is_none_after_drain() {
    let mut parser = AnnexBParser::new();

    parser.push(&[]);

    assert!(matches!(parser.next_access_unit(), Ok(None)));
    assert!(matches!(parser.next_access_unit(), Ok(None)));
    assert!(matches!(parser.next_access_unit(), Ok(None)));
}

#[test]
fn simple_sps_pps_idr_is_one_keyframe() {
    let mut parser = AnnexBParser::new();
    parser.push(&[
        0x00, 0x00, 0x00, 0x01, 0x67, 0x42, 0x00, 0x1f, 0x96, 0x54, 0x0a, 0x0f, 0xff, 0x88, 0x00,
        0x00, 0x00, 0x01, 0x68, 0xce, 0x3c, 0x80, 0x00, 0x00, 0x00, 0x01, 0x65, 0x88, 0x80, 0x50,
        0x00, 0x00, 0x03, 0x00, 0x00, 0x03, 0x00, 0x00,
    ]);
    let units = pull_all(&mut parser);
    assert_eq!(units.len(), 1);
    let au = &units[0];
    assert!(au.is_keyframe());
    assert_eq!(au.kind, AccessUnitKind::Idr);
    assert_eq!(types(au), vec![NalUnitType::Sps, NalUnitType::Pps, NalUnitType::IdrSlice]);
    let sps = au.sps.as_ref().unwrap();
    assert_eq!((sps.profile_idc, sps.level_idc), (66, 31));
    assert_eq!((sps.width, sps.height), (320, 240));
    assert_eq!(sps.log2_max_frame_num_minus4, 4);
    assert_eq!(sps.log2_max_pic_order_cnt_lsb_minus4, 4);
    let pps = au.pps.as_ref().unwrap();
    assert_eq!((pps.pic_parameter_set_id, pps.seq_parameter_set_id), (0, 0));
    let id = au.picture_id.unwrap();
    assert_eq!(id.frame_num, 0);
    assert_eq!(id.idr_pic_id, Some(0));
    assert_eq!(id.pic_order_cnt_lsb, Some(64));
    assert_eq!(id.delta_pic_order_cnt, None);
    // Every unit keeps its start code length and its bytes.
    assert!(au.nals.iter().all(|n| n.start_code_len == 4 && n.ref_idc == 3));
    assert_eq!(au.nals[2].ebsp, vec![0x88, 0x80, 0x50, 0, 0, 3, 0, 0, 3, 0, 0]);
    assert_eq!((parser.sps_count(), parser.pps_count()), (1, 1));
    assert!(matches!(parser.next_access_unit(), Ok(None)));
}

#[test]
fn two_frames_with_different_frame_numbers() {
    let mut parser = AnnexBParser::new();
    parser.push(&two_frames());
    let units = pull_all(&mut parser);
    assert_eq!(units.len(), 2);
    assert!(units[0].is_keyframe());
    assert_eq!(units[0].kind, AccessUnitKind::Idr);
    assert_eq!(types(&units[0]), vec![NalUnitType::Sps, NalUnitType::Pps, NalUnitType::IdrSlice]);
    assert!(!units[1].is_keyframe());
    assert_eq!(units[1].kind, AccessUnitKind::NonIdr);
    assert_eq!(types(&units[1]), vec![NalUnitType::NonIdrSlice]);
    assert_eq!(units[0].picture_id.unwrap().frame_num, 0);
    assert_eq!(units[1].picture_id.unwrap().frame_num, 1);
    // Both share the parameter sets of the registry.
    assert!(Arc::ptr_eq(units[0].sps.as_ref().unwrap(), units[1].sps.as_ref().unwrap()));
    assert!(Arc::ptr_eq(units[0].pps.as_ref().unwrap(), units[1].pps.as_ref().unwrap()));
}

#[test]
fn keyframe_flag_matches_idr() {
    for idr in [true, false] {
        let stream = stream_of(&[
            min_sps(0),
            min_pps(0, 0),
            min_slice(idr, 0, 0, 0),
            min_slice(false, 0, 1, 0),
        ]);
        let mut parser = AnnexBParser::new();
        parser.push(&stream);
        parser.push(&[]);
        let units = pull_all(&mut parser);
        let with_slices: Vec<_> =
            units.into_iter().filter(|au| au.nals.iter().any(|n| n.is_vcl())).collect();
        assert_eq!(with_slices.len(), 2);
        assert_eq!(with_slices[0].is_keyframe(), idr);
        assert!(!with_slices[1].is_keyframe());
    }
}

fn summary(units: &[AccessUnit]) -> Vec<(bool, AccessUnitKind, Vec<NalUnitType>, Option<u32>, Vec<u8>)> {
    units
        .iter()
        .map(|au| {
            (
                au.is_keyframe(),
                au.kind.clone(),
                types(au),
                au.picture_id.map(|id| id.frame_num),
                au.to_annexb_bytes().to_vec(),
            )
        })
        .collect()
}

#[test]
fn one_byte_at_a_time_gives_the_same_access_units() {
    let stream = two_frames();
    let mut whole = AnnexBParser::new();
    whole.push(&stream);
    let expected = pull_all(&mut whole);
    assert_eq!(expected.len(), 2);

    let mut bytewise = AnnexBParser::new();
    for byte in &stream {
        bytewise.push(&[*byte]);
    }
    let units = pull_all(&mut bytewise);
    assert_eq!(units.len(), 2);
    assert_eq!(summary(&units), summary(&expected));
}

#[test]
fn any_chunk_size_gives_the_same_access_units() {
    let stream = stream_of(&[
        min_sps(0),
        min_pps(0, 0),
        sei_unit(&[0x06, 0x02, 0x00, 0x40]),
        min_slice(false, 0, 3, 0),
        min_slice(false, 0, 3, 0),
        vec![0x09, 0xf0],
        min_slice(true, 0, 0, 7),
        min_slice(false, 0, 1, 0),
    ]);
    let mut whole = AnnexBParser::new();
    whole.push(&stream);
    let expected = pull_all(&mut whole);
    assert_eq!(expected.len(), 3);
    for size in 1..=stream.len() {
        let mut parser = AnnexBParser::new();
        for chunk in stream.chunks(size) {
            parser.push(chunk);
        }
        assert_eq!(summary(&pull_all(&mut parser)), summary(&expected));
    }
}

#[test]
fn written_access_units_give_the_stream_back() {
    let stream = two_frames();
    let mut parser = AnnexBParser::new();
    parser.push(&stream);
    let mut written = Vec::new();
    for au in pull_all(&mut parser) {
        written.extend_from_slice(&au.to_annexb_bytes());
    }
    assert_eq!(written, stream);
}

#[test]
fn recovery_point_sei_makes_a_keyframe() {
    let stream = stream_of(&[
        min_sps(0),
        min_pps(0, 0),
        sei_unit(&[0x06, 0x02, 0x00, 0x40]),
        min_slice(false, 0, 1, 0),
    ]);
    let mut parser = AnnexBParser::new();
    parser.push(&stream);
    let units = pull_all(&mut parser);
    assert_eq!(units.len(), 1);
    assert_eq!(units[0].kind, AccessUnitKind::RecoveryPoint(0));
    assert!(units[0].is_keyframe());
    assert_eq!(
        types(&units[0]),
        vec![NalUnitType::Sps, NalUnitType::Pps, NalUnitType::Sei, NalUnitType::NonIdrSlice]
    );
}

#[test]
fn recovery_point_with_a_count_is_no_keyframe() {
    let stream = stream_of(&[
        min_sps(0),
        min_pps(0, 0),
        sei_unit(&[0x06, 0x02, 0x04, 0x00]),
        min_slice(false, 0, 1, 0),
    ]);
    let mut parser = AnnexBParser::new();
    parser.push(&stream);
    let units = pull_all(&mut parser);
    assert_eq!(units.len(), 1);
    assert_eq!(units[0].kind, AccessUnitKind::RecoveryPoint(4));
    assert!(!units[0].is_keyframe());
}

#[test]
fn missing_pps_is_an_error_and_reset_recovers() {
    let mut parser = AnnexBParser::new();
    parser.push(&stream_of(&[min_sps(0), min_pps(0, 0), min_slice(false, 1, 0, 0)]));
    assert!(matches!(parser.next_access_unit(), Err(Error::MissingPps(1))));
    // The parameter sets that were stored stay.
    assert_eq!((parser.sps_count(), parser.pps_count()), (1, 1));

    parser.reset();
    assert_eq!((parser.sps_count(), parser.pps_count()), (0, 0));
    assert!(matches!(parser.next_access_unit(), Ok(None)));
    parser.push(&two_frames());
    let units = pull_all(&mut parser);
    assert_eq!(units.len(), 2);
    assert!(units[0].is_keyframe());
}

#[test]
fn missing_sps_is_an_error() {
    let mut parser = AnnexBParser::new();
    parser.push(&stream_of(&[min_sps(0), min_pps(2, 5), min_slice(true, 2, 0, 0)]));
    assert!(matches!(parser.next_access_unit(), Err(Error::MissingSps(5))));
    let mut parser = AnnexBParser::new();
    parser.push(&stream_of(&[min_slice(true, 0, 0, 0)]));
    assert!(matches!(parser.next_access_unit(), Err(Error::MissingPps(0))));
}

#[test]
fn errors_of_single_units_come_out() {
    // The first bit of a header set.
    let mut parser = AnnexBParser::new();
    parser.push(&[0x00, 0x00, 0x01, 0xe7, 0x42]);
    assert!(matches!(parser.next_access_unit(), Err(Error::InvalidNalHeader)));
    // A parameter set that ends too early.
    let mut parser = AnnexBParser::new();
    parser.push(&[0x00, 0x00, 0x01, 0x67, 0x42, 0x00]);
    assert!(matches!(parser.next_access_unit(), Err(Error::MalformedSps(_))));
    assert_eq!(parser.sps_count(), 0);
    let mut parser = AnnexBParser::new();
    parser.push(&[0x00, 0x00, 0x01, 0x68]);
    assert!(matches!(parser.next_access_unit(), Err(Error::MalformedPps(_))));
    // A slice whose parameter set id does not fit a byte.
    let mut parser = AnnexBParser::new();
    let mut w = BitWriter::new();
    w.ue(0);
    w.ue(0);
    w.ue(256);
    let mut unit = vec![nal_header(2, 1)];
    unit.extend(w.finish());
    parser.push(&stream_of(&[unit]));
    assert!(matches!(parser.next_access_unit(), Err(Error::SliceParseError(_))));
    // A slice with nothing in it.
    let mut parser = AnnexBParser::new();
    parser.push(&[0x00, 0x00, 0x01, 0x41, 0x00]);
    assert!(matches!(parser.next_access_unit(), Err(Error::UnexpectedEof)));
    // A slice that is 32 zero bits.
    let mut parser = AnnexBParser::new();
    parser.push(&[0x00, 0x00, 0x01, 0x41, 0x00, 0x00, 0x03, 0x00, 0x00, 0x03, 0xff]);
    assert!(matches!(parser.next_access_unit(), Err(Error::BitstreamError(_))));
}

#[test]
fn pulling_goes_on_after_an_error() {
    let mut parser = AnnexBParser::new();
    parser.push(&stream_of(&[
        min_sps(0),
        min_pps(0, 0),
        min_slice(false, 9, 0, 0),
        min_slice(true, 0, 0, 0),
    ]));
    assert!(matches!(parser.next_access_unit(), Err(Error::MissingPps(9))));
    let au = parser.next_access_unit().unwrap().unwrap();
    assert_eq!(types(&au), vec![NalUnitType::Sps, NalUnitType::Pps, NalUnitType::IdrSlice]);
    assert!(matches!(parser.next_access_unit(), Ok(None)));
}

#[test]
fn a_later_parameter_set_takes_the_place_of_an_earlier_one() {
    // The second sequence parameter set with id 0 has five bits of frame number.
    let mut w = BitWriter::new();
    w.bits(8, 66);
    w.bits(8, 0);
    w.bits(8, 30);
    w.ue(0);
    w.ue(1);
    w.ue(2);
    w.ue(0);
    w.bit(false);
    w.ue(1);
    w.ue(1);
    w.bit(true);
    w.bit(false);
    w.bit(false);
    w.bit(false);
    let mut wider = vec![nal_header(3, 7)];
    wider.extend(rbsp_to_ebsp(&w.finish()));
    let mut w = BitWriter::new();
    w.ue(0);
    w.ue(0);
    w.ue(0);
    w.bits(5, 17);
    w.bit(false);
    w.ue(1);
    let mut slice = vec![nal_header(2, 1)];
    slice.extend(rbsp_to_ebsp(&w.finish()));

    let mut parser = AnnexBParser::new();
    parser.push(&stream_of(&[
        min_sps(0),
        min_pps(0, 0),
        min_slice(false, 0, 1, 0),
        wider,
        slice,
    ]));
    let units = pull_all(&mut parser);
    assert_eq!(units.len(), 2);
    assert_eq!(units[0].sps.as_ref().unwrap().width, 16);
    assert_eq!(units[0].picture_id.unwrap().frame_num, 1);
    assert_eq!(types(&units[0]), vec![NalUnitType::Sps, NalUnitType::Pps, NalUnitType::NonIdrSlice, NalUnitType::Sps]);
    assert_eq!(units[1].sps.as_ref().unwrap().width, 32);
    assert_eq!(units[1].sps.as_ref().unwrap().log2_max_frame_num_minus4, 1);
    assert_eq!(units[1].picture_id.unwrap().frame_num, 17);
    assert_eq!(parser.sps_count(), 1);
}

#[test]
fn an_access_unit_delimiter_ends_an_access_unit() {
    let mut parser = AnnexBParser::new();
    parser.push(&stream_of(&[
        min_sps(0),
        min_pps(0, 0),
        min_slice(false, 0, 1, 0),
        vec![0x09, 0xf0],
        min_slice(false, 0, 1, 0),
    ]));
    let units = pull_all(&mut parser);
    assert_eq!(units.len(), 2);
    assert_eq!(types(&units[0]), vec![NalUnitType::Sps, NalUnitType::Pps, NalUnitType::NonIdrSlice]);
    assert_eq!(types(&units[1]), vec![NalUnitType::Aud, NalUnitType::NonIdrSlice]);
}

#[test]
fn slices_of_one_picture_share_an_access_unit() {
    let mut parser = AnnexBParser::new();
    parser.push(&stream_of(&[
        min_sps(0),
        min_pps(0, 0),
        min_slice(false, 0, 6, 0),
        min_slice(false, 0, 6, 0),
    ]));
    let units = pull_all(&mut parser);
    assert_eq!(units.len(), 1);
    assert_eq!(units[0].nals.len(), 4);
}

#[test]
fn parameter_sets_alone_come_out_at_the_end() {
    let mut parser = AnnexBParser::new();
    parser.push(&stream_of(&[min_sps(0), min_pps(0, 0)]));
    let units = pull_all(&mut parser);
    assert_eq!(units.len(), 1);
    assert_eq!(types(&units[0]), vec![NalUnitType::Sps, NalUnitType::Pps]);
    assert!(!units[0].is_keyframe());
    assert!(units[0].picture_id.is_none());
}

#[test]
fn nothing_comes_after_nothing_until_more_is_pushed() {
    let mut parser = AnnexBParser::new();
    parser.push(&two_frames());
    assert_eq!(pull_all(&mut parser).len(), 2);
    for _ in 0..5 {
        assert!(matches!(parser.next_access_unit(), Ok(None)));
    }
    parser.push(&stream_of(&[min_slice(false, 0, 2, 0)]));
    let au = parser.next_access_unit().unwrap().unwrap();
    assert_eq!(au.picture_id.unwrap().frame_num, 2);
    assert!(matches!(parser.next_access_unit(), Ok(None)));
    assert!(matches!(parser.next_access_unit(), Ok(None)));
}

#[test]
fn empty_units_do_not_end_the_pulls() {
    let mut parser = AnnexBParser::new();
    parser.push(&[0x00, 0x00, 0x01, 0x00, 0x00, 0x01, 0x09, 0xf0, 0x00, 0x00, 0x01]);
    let au = parser.next_access_unit().unwrap().unwrap();
    assert_eq!(types(&au), vec![NalUnitType::Aud]);
    assert!(matches!(parser.next_access_unit(), Ok(None)));
    assert!(matches!(parser.next_access_unit(), Ok(None)));
}

#[test]
fn a_start_code_split_by_a_pull_keeps_its_length() {
    let mut parser = AnnexBParser::new();
    parser.push(&[0x00, 0x00, 0x00]);
    assert!(matches!(parser.next_access_unit(), Ok(None)));
    parser.push(&[0x01, 0x09, 0xf0]);
    let au = parser.next_access_unit().unwrap().unwrap();
    assert_eq!(types(&au), vec![NalUnitType::Aud]);
    assert_eq!(au.nals[0].start_code_len, 4);
    assert_eq!(au.to_annexb_bytes().to_vec(), vec![0x00, 0x00, 0x00, 0x01, 0x09, 0xf0]);
}

#[test]
fn drain_gives_all_access_units() {
    let mut parser = AnnexBParser::new();
    parser.push(&two_frames());
    let units: Vec<AccessUnit> = parser.drain().into_iter().map(|r| r.unwrap()).collect();
    assert_eq!(units.len(), 2);
    assert!(units[0].is_keyframe());
    assert!(!units[1].is_keyframe());

    assert!(AnnexBParser::new().drain().is_empty());

    // Draining stops at an error and hands out what was being built.
    let mut parser = AnnexBParser::new();
    parser.push(&stream_of(&[
        min_sps(0),
        min_pps(0, 0),
        min_slice(true, 0, 0, 0),
        min_slice(false, 0, 1, 0),
        min_slice(false, 3, 2, 0),
        min_slice(false, 0, 3, 0),
    ]));
    let units: Vec<AccessUnit> = parser.drain().into_iter().map(|r| r.unwrap()).collect();
    assert_eq!(units.len(), 2);
    assert_eq!(units[1].picture_id.unwrap().frame_num, 1);
}

#[test]
fn default_is_a_new_parser() {
    let mut parser = AnnexBParser::default();
    assert_eq!((parser.sps_count(), parser.pps_count()), (0, 0));
    assert!(matches!(parser.next_access_unit(), Ok(None)));
}

#[test]
fn minimal_slice_header_gives_the_pps_id() {
    assert_eq!(parse_slice_header_minimal(&slice_rbsp(true, 0, 0, 0)).unwrap(), (0,));
    assert_eq!(parse_slice_header_minimal(&slice_rbsp(false, 255, 3, 0)).unwrap(), (255,));
    assert!(matches!(
        parse_slice_header_minimal(&slice_rbsp(false, 256, 3, 0)),
        Err(Error::SliceParseError(_))
    ));
    assert!(matches!(parse_slice_header_minimal(&[0xc0]), Err(Error::UnexpectedEof)));
    assert!(matches!(
        parse_slice_header_minimal(&[0x00, 0x00, 0x00, 0x00, 0x80]),
        Err(Error::BitstreamError(_))
    ));
}
