//! Supplemental enhancement information: the list of messages in an SEI
//! payload, and the recovery point message among them.

use crate::bitreader::fails_with;
use crate::error::{Error, ErrorKind};
use vstd::prelude::*;
use vstd::slice::{slice_subrange, slice_to_vec};

verus! {

/// What a message carries. Recovery points and unregistered user data are
/// decoded; every other message is kept as its type and bytes.
#[derive(Debug, Clone)]
pub enum SeiPayload {
    BufferingPeriod,
    PicTiming,
    PanScanRect,
    FillerPayload,
    UserDataRegistered,
    UserDataUnregistered(Vec<u8>),
    RecoveryPoint {
        recovery_frame_cnt: u32,
        exact_match_flag: bool,
        broken_link_flag: bool,
        changing_slice_group_idc: u8,
    },
    DecRefPicMarkingRepetition,
    SparePic,
    SceneInfo,
    SubSeqInfo,
    SubSeqLayerCharacteristics,
    SubSeqCharacteristics,
    FullFrameFreeze,
    FullFrameFreezeRelease,
    FullFrameSnapshot,
    ProgressiveRefinementSegmentStart,
    ProgressiveRefinementSegmentEnd,
    MotionConstrainedSliceGroupSet,
    FilmGrainCharacteristics,
    DeblockingFilterDisplayPreference,
    StereoVideoInfo,
    PostFilterHint,
    ToneMappingInfo,
    ScalabilityInfo,
    SubPicScalableLayer,
    NonRequiredLayerRep,
    PriorityLayerInfo,
    LayersNotPresent,
    LayerDependencyChange,
    ScalableNesting,
    BaseLayerTemporalHrd,
    QualityLayerIntegrityCheck,
    RedundantPicProperty,
    Tl0DepRepIndex,
    TlSwitchingPoint,
    ParallelDecodingInfo,
    MvcScalableNesting,
    ViewScalabilityInfo,
    MultiviewSceneInfo,
    MultiviewAcquisitionInfo,
    NonRequiredViewComponent,
    ViewDependencyChange,
    OperationPointsNotPresent,
    BaseViewTemporalHrd,
    FramePackingArrangement,
    MultiviewViewPosition,
    DisplayOrientation,
    MvcdScalableNesting,
    MvcdViewScalabilityInfo,
    DepthRepresentationInfo,
    ThreeDimensionalReferenceDisplaysInfo,
    DepthTiming,
    DepthSamplingInfo,
    ConstrainedDepthParameterSetIdentifier,
    Unknown(u32, Vec<u8>),
}

/// One SEI message.
#[derive(Debug, Clone)]
pub struct SeiMessage {
    pub payload_type: u32,
    pub payload_size: u32,
    pub payload: SeiPayload,
}

/// Number of `FF` bytes from `pos` up to the first other byte or the end.
pub open spec fn ff_run(s: Seq<u8>, pos: int) -> nat
    decreases s.len() - pos,
{
    if 0 <= pos < s.len() && s[pos] == 0xFF {
        1 + ff_run(s, pos + 1)
    } else {
        0
    }
}

/// The number coded at `pos`: 255 for each leading `FF` byte, plus the byte
/// after them where there is one.
pub open spec fn coded_value(s: Seq<u8>, pos: int) -> nat {
    let after = pos + ff_run(s, pos);
    255 * ff_run(s, pos) + if 0 <= after < s.len() {
        s[after] as nat
    } else {
        0
    }
}

/// Where the number coded at `pos` ends.
pub open spec fn coded_end(s: Seq<u8>, pos: int) -> int {
    let after = pos + ff_run(s, pos);
    if after < s.len() {
        after + 1
    } else {
        after
    }
}

/// A message as it lies in the payload: its two coded numbers, its bytes,
/// and where the next message starts.
pub struct RawMessage {
    pub payload_type: nat,
    pub payload_size: nat,
    pub data: Seq<u8>,
    pub next: int,
}

/// The message at `pos`: type, size, then as many bytes as the size says or
/// as are left.
pub open spec fn message_at(s: Seq<u8>, pos: int) -> RawMessage {
    let size_at = coded_end(s, pos);
    let data_at = coded_end(s, size_at);
    let size = coded_value(s, size_at);
    let end = if data_at + size < s.len() {
        data_at + size
    } else {
        s.len() as int
    };
    RawMessage {
        payload_type: coded_value(s, pos),
        payload_size: size,
        data: s.subrange(data_at, end),
        next: end,
    }
}

/// The end of a run of `FF` bytes is not before its start nor after the end
/// of the payload.
pub proof fn lemma_coded_end(s: Seq<u8>, pos: int)
    requires
        0 <= pos <= s.len(),
    ensures
        pos <= coded_end(s, pos) <= s.len(),
        pos < s.len() ==> pos < coded_end(s, pos),
    decreases s.len() - pos,
{
    if pos < s.len() && s[pos] == 0xFF {
        lemma_coded_end(s, pos + 1);
    }
}

/// A message ends after it starts.
pub proof fn lemma_message_advances(s: Seq<u8>, pos: int)
    requires
        0 <= pos < s.len(),
    ensures
        pos < coded_end(s, pos) <= coded_end(s, coded_end(s, pos)) <= message_at(s, pos).next
            <= s.len(),
{
    lemma_coded_end(s, pos);
    lemma_coded_end(s, coded_end(s, pos));
}

/// The messages from `pos` on, up to the end of the payload or the byte
/// `80` that starts its trailing bits.
pub open spec fn messages_from(s: Seq<u8>, pos: int) -> Seq<RawMessage>
    decreases s.len() - pos,
{
    if 0 <= pos < s.len() && s[pos] != 0x80 {
        proof {
            lemma_message_advances(s, pos);
        }
        seq![message_at(s, pos)] + messages_from(s, message_at(s, pos).next)
    } else {
        Seq::empty()
    }
}

/// True when the type and size of every message fit 32 bits.
pub open spec fn all_fit(messages: Seq<RawMessage>) -> bool {
    forall|i: int|
        0 <= i < messages.len() ==> (#[trigger] messages[i]).payload_type <= u32::MAX
            && messages[i].payload_size <= u32::MAX
}

/// The count at the start of a recovery point: seven bits from each byte,
/// first byte most significant, up to and including the first byte with its
/// top bit clear. Bits pushed out of 32 are lost. Gives the count and where
/// it ends.
pub open spec fn recovery_count(data: Seq<u8>, pos: int, acc: u32) -> (u32, int)
    decreases data.len() - pos,
{
    if 0 <= pos < data.len() {
        let next = (acc << 7u32) | ((data[pos] & 0x7Fu8) as u32);
        if data[pos] & 0x80u8 == 0u8 {
            (next, pos + 1)
        } else {
            recovery_count(data, pos + 1, next)
        }
    } else {
        (acc, pos)
    }
}

/// The recovery point that `data` holds: the count, then a byte of flags,
/// taken as zero where the data end before it.
pub open spec fn recovery_point_of(data: Seq<u8>) -> SeiPayload {
    let (count, end) = recovery_count(data, 0, 0);
    let flags: u8 = if 0 <= end < data.len() {
        data[end]
    } else {
        0
    };
    SeiPayload::RecoveryPoint {
        recovery_frame_cnt: count,
        exact_match_flag: flags & 0x80u8 != 0u8,
        broken_link_flag: flags & 0x40u8 != 0u8,
        changing_slice_group_idc: (flags & 0x30u8) >> 4u8,
    }
}

/// True when `payload` is what the message `raw` carries: a recovery point
/// for type 6 with data, the bytes as unregistered user data for type 5 with
/// a size of 16 or more, and the type and bytes as they are otherwise.
pub open spec fn carries(payload: SeiPayload, raw: RawMessage) -> bool {
    if raw.payload_type == 6 && raw.data.len() > 0 {
        payload == recovery_point_of(raw.data)
    } else if raw.payload_type == 5 && raw.payload_size >= 16 {
        payload matches SeiPayload::UserDataUnregistered(bytes) && bytes@ == raw.data
    } else {
        payload matches SeiPayload::Unknown(t, bytes) && t == raw.payload_type && bytes@
            == raw.data
    }
}

/// True when `message` is the decoded form of `raw`.
pub open spec fn decodes(message: SeiMessage, raw: RawMessage) -> bool {
    message.payload_type == raw.payload_type && message.payload_size == raw.payload_size
        && carries(message.payload, raw)
}

/// True when `messages` are the decoded forms of `raws`, one for one.
pub open spec fn decode_all(messages: Seq<SeiMessage>, raws: Seq<RawMessage>) -> bool {
    messages.len() == raws.len() && forall|i: int|
        0 <= i < raws.len() ==> decodes(#[trigger] messages[i], raws[i])
}

/// The recovery frame counts of the recovery points among `raws`, in order.
pub open spec fn counts_in(raws: Seq<RawMessage>) -> Seq<u32>
    decreases raws.len(),
{
    if raws.len() == 0 {
        Seq::empty()
    } else {
        let rest = counts_in(raws.drop_last());
        let last = raws.last();
        if last.payload_type == 6 && last.data.len() > 0 {
            rest.push(recovery_count(last.data, 0, 0).0)
        } else {
            rest
        }
    }
}

/// The recovery frame counts that an SEI payload announces, in order. A
/// payload with a message whose type or size does not fit announces none.
pub open spec fn recovery_counts_of(rbsp: Seq<u8>) -> Seq<u32> {
    if all_fit(messages_from(rbsp, 0)) {
        counts_in(messages_from(rbsp, 0))
    } else {
        Seq::empty()
    }
}

/// Reads the number coded at `pos`. Gives nothing when it does not fit 32 bits.
fn read_coded(rbsp: &[u8], pos: usize) -> (res: Option<(u32, usize)>)
    requires
        pos <= rbsp@.len(),
    ensures
        coded_value(rbsp@, pos as int) <= u32::MAX ==> res == Some(
            (coded_value(rbsp@, pos as int) as u32, coded_end(rbsp@, pos as int) as usize),
        ),
        coded_value(rbsp@, pos as int) > u32::MAX ==> res is None,
{
    proof {
        lemma_coded_end(rbsp@, pos as int);
    }
    let mut value: u32 = 0;
    let mut at: usize = pos;
    while at < rbsp.len() && rbsp[at] == 0xFF
        invariant
            pos <= at <= rbsp@.len(),
            value == 255 * (at - pos),
            ff_run(rbsp@, pos as int) == (at - pos) + ff_run(rbsp@, at as int),
        decreases rbsp@.len() - at,
    {
        if value > u32::MAX - 255 {
            return None;
        }
        value += 255;
        at += 1;
    }
    if at < rbsp.len() {
        if value > u32::MAX - rbsp[at] as u32 {
            return None;
        }
        value += rbsp[at] as u32;
        at += 1;
    }
    Some((value, at))
}

/// Decodes the bytes of a recovery point message. Without bytes there is no
/// recovery point, only an unknown message of type 6.
pub fn parse_recovery_point(data: &[u8]) -> (res: Result<SeiPayload, Error>)
    ensures
        res matches Ok(payload) && if data@.len() > 0 {
            payload == recovery_point_of(data@)
        } else {
            payload matches SeiPayload::Unknown(t, bytes) && t == 6 && bytes@ == data@
        },
{
    if data.len() == 0 {
        return Ok(SeiPayload::Unknown(6, slice_to_vec(data)));
    }
    let mut recovery_frame_cnt: u32 = 0;
    let mut pos: usize = 0;
    while pos < data.len()
        invariant_except_break
            pos <= data@.len(),
            recovery_count(data@, 0, 0) == recovery_count(data@, pos as int, recovery_frame_cnt),
        ensures
            pos <= data@.len(),
            recovery_count(data@, 0, 0) == (recovery_frame_cnt, pos as int),
        decreases data@.len() - pos,
    {
        let byte = data[pos];
        recovery_frame_cnt = (recovery_frame_cnt << 7) | ((byte & 0x7F) as u32);
        pos += 1;
        if (byte & 0x80) == 0 {
            break ;
        }
    }
    let mut flags: u8 = 0;
    if pos < data.len() {
        flags = data[pos];
    }
    let exact_match_flag = (flags & 0x80) != 0;
    let broken_link_flag = (flags & 0x40) != 0;
    let changing_slice_group_idc = (flags & 0x30) >> 4;
    Ok(
        SeiPayload::RecoveryPoint {
            recovery_frame_cnt,
            exact_match_flag,
            broken_link_flag,
            changing_slice_group_idc,
        },
    )
}

impl SeiMessage {
    /// Splits an SEI payload, escapes already taken out, into its messages.
    /// Fails only when the type or size of a message does not fit 32 bits.
    pub fn parse(rbsp: &[u8]) -> (res: Result<Vec<SeiMessage>, Error>)
        ensures
            all_fit(messages_from(rbsp@, 0)) ==> (res matches Ok(messages) && decode_all(
                messages@,
                messages_from(rbsp@, 0),
            )),
            !all_fit(messages_from(rbsp@, 0)) ==> fails_with(res, ErrorKind::BitstreamError),
    {
        let mut messages: Vec<SeiMessage> = Vec::new();
        let mut pos: usize = 0;
        let ghost all = messages_from(rbsp@, 0);
        let ghost mut done: Seq<RawMessage> = Seq::empty();
        assert(done + messages_from(rbsp@, 0) =~= all);
        while pos < rbsp.len() && rbsp[pos] != 0x80
            invariant
                pos <= rbsp@.len(),
                all == messages_from(rbsp@, 0),
                all == done + messages_from(rbsp@, pos as int),
                all_fit(done),
                decode_all(messages@, done),
            decreases rbsp@.len() - pos,
        {
            let ghost raw = message_at(rbsp@, pos as int);
            let ghost rest = messages_from(rbsp@, raw.next);
            proof {
                lemma_message_advances(rbsp@, pos as int);
                assert(all =~= done.push(raw) + rest);
                assert(all[done.len() as int] == raw);
            }
            let (payload_type, size_at) = match read_coded(rbsp, pos) {
                Some(r) => r,
                None => {
                    return Err(Error::BitstreamError("SEI payload type too large".to_string()));
                },
            };
            let (payload_size, data_at) = match read_coded(rbsp, size_at) {
                Some(r) => r,
                None => {
                    return Err(Error::BitstreamError("SEI payload size too large".to_string()));
                },
            };
            let payload_end = if payload_size as usize >= rbsp.len() - data_at {
                rbsp.len()
            } else {
                data_at + payload_size as usize
            };
            let payload_data = slice_subrange(rbsp, data_at, payload_end);
            let payload = if payload_type == 6 {
                match parse_recovery_point(payload_data) {
                    Ok(p) => p,
                    Err(e) => {
                        return Err(e);
                    },
                }
            } else if payload_type == 5 && payload_size >= 16 {
                SeiPayload::UserDataUnregistered(slice_to_vec(payload_data))
            } else {
                SeiPayload::Unknown(payload_type, slice_to_vec(payload_data))
            };
            let message = SeiMessage { payload_type, payload_size, payload };
            messages.push(message);
            proof {
                assert(decodes(message, raw));
                let before = done;
                done = done.push(raw);
                assert forall|i: int| 0 <= i < done.len() implies decodes(
                    #[trigger] messages@[i],
                    done[i],
                ) by {
                    if i < before.len() {
                        assert(done[i] == before[i]);
                    }
                }
                assert(all_fit(done)) by {
                    assert forall|i: int| 0 <= i < done.len() implies (
                    #[trigger] done[i]).payload_type <= u32::MAX && done[i].payload_size
                        <= u32::MAX by {
                        if i < before.len() {
                            assert(done[i] == before[i]);
                        }
                    }
                }
            }
            pos = payload_end;
        }
        proof {
            assert(messages_from(rbsp@, pos as int) =~= Seq::<RawMessage>::empty());
            assert(all =~= done);
        }
        Ok(messages)
    }
}

} // verus!
