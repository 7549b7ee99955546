//! Access units: the NAL units of one picture, and the builder that decides
//! where one picture ends and the next begins.

use crate::nal::{annexb_of, unescape, Nal, NalUnitType, NalView};
use crate::pps::Pps;
use crate::sei::{counts_in, decode_all, messages_from, recovery_counts_of, SeiMessage, SeiPayload};
use crate::slice::{picture_id_of, PictureId, SliceHeader};
use crate::sps::Sps;
use std::borrow::Cow;
use std::sync::Arc;
use vstd::prelude::*;

verus! {

/// How a picture can be entered: as an IDR picture, through a recovery point
/// that is complete after the given number of frames, or not at all.
#[derive(Debug, Clone, PartialEq, Eq, Structural)]
pub enum AccessUnitKind {
    Idr,
    RecoveryPoint(u32),
    NonIdr,
}

/// The NAL units of one picture in the order they came, with what was
/// learned about the picture.
#[derive(Debug, Clone)]
pub struct AccessUnit {
    pub nals: Vec<Nal>,
    pub is_keyframe: bool,
    pub kind: AccessUnitKind,
    pub sps: Option<Arc<Sps>>,
    pub pps: Option<Arc<Pps>>,
    pub picture_id: Option<PictureId>,
}

/// An access unit as contracts see it.
pub struct AccessUnitView {
    pub nals: Seq<NalView>,
    pub is_keyframe: bool,
    pub kind: AccessUnitKind,
    pub sps: Option<Sps>,
    pub pps: Option<Pps>,
    pub picture_id: Option<PictureId>,
}

/// The views of some NAL units.
pub open spec fn nal_views(nals: Seq<Nal>) -> Seq<NalView> {
    Seq::new(nals.len(), |i: int| nals[i]@)
}

/// The parameter set behind a shared handle, if there is a handle.
pub open spec fn shared<T>(handle: Option<Arc<T>>) -> Option<T> {
    match handle {
        Some(a) => Some(*a),
        None => None,
    }
}

/// The view of an access unit, if there is one.
pub open spec fn unit_view(unit: Option<AccessUnit>) -> Option<AccessUnitView> {
    match unit {
        Some(au) => Some(au@),
        None => None,
    }
}

impl View for AccessUnit {
    type V = AccessUnitView;

    open spec fn view(&self) -> AccessUnitView {
        AccessUnitView {
            nals: nal_views(self.nals@),
            is_keyframe: self.is_keyframe,
            kind: self.kind,
            sps: shared(self.sps),
            pps: shared(self.pps),
            picture_id: self.picture_id,
        }
    }
}

/// The recovery frame counts that the SEI units among `nals` announce, in
/// the order of the units and of the messages in each.
pub open spec fn recovery_counts(nals: Seq<NalView>) -> Seq<u32>
    decreases nals.len(),
{
    if nals.len() == 0 {
        Seq::empty()
    } else {
        recovery_counts(nals.drop_last()) + (if nals.last().nal_type == NalUnitType::Sei {
            recovery_counts_of(unescape(nals.last().ebsp))
        } else {
            Seq::empty()
        })
    }
}

/// The Annex-B form of some NAL units, one after the other.
pub open spec fn annexb_all(nals: Seq<NalView>) -> Seq<u8>
    decreases nals.len(),
{
    if nals.len() == 0 {
        Seq::empty()
    } else {
        annexb_all(nals.drop_last()) + annexb_of(nals.last())
    }
}

/// True when a recovery point that is complete at once is announced, and the
/// last one announced is not.
pub open spec fn mixed_counts(counts: Seq<u32>) -> bool {
    counts.contains(0) && counts.last() != 0
}

/// True when an IDR slice is among `nals`.
pub open spec fn has_idr(nals: Seq<NalView>) -> bool
    decreases nals.len(),
{
    nals.len() > 0 && (nals.last().nal_type == NalUnitType::IdrSlice || has_idr(nals.drop_last()))
}

impl AccessUnitView {
    /// The access unit without NAL units.
    pub open spec fn empty() -> AccessUnitView {
        AccessUnitView {
            nals: Seq::empty(),
            is_keyframe: false,
            kind: AccessUnitKind::NonIdr,
            sps: None,
            pps: None,
            picture_id: None,
        }
    }

    /// This access unit with one more NAL unit. An IDR slice makes it an IDR
    /// picture and a keyframe.
    pub open spec fn with_nal(self, nal: NalView) -> AccessUnitView {
        if nal.nal_type == NalUnitType::IdrSlice {
            AccessUnitView {
                nals: self.nals.push(nal),
                kind: AccessUnitKind::Idr,
                is_keyframe: true,
                ..self
            }
        } else {
            AccessUnitView { nals: self.nals.push(nal), ..self }
        }
    }

    /// This access unit after its SEI units were searched for recovery
    /// points. An IDR picture stays what it is. Otherwise the last recovery
    /// point announced gives the kind, and a recovery point that is complete
    /// at once makes the picture a keyframe.
    pub open spec fn finalized(self) -> AccessUnitView {
        let counts = recovery_counts(self.nals);
        if self.kind == AccessUnitKind::Idr || counts.len() == 0 {
            self
        } else {
            AccessUnitView {
                kind: AccessUnitKind::RecoveryPoint(counts.last()),
                is_keyframe: self.is_keyframe || counts.contains(0),
                ..self
            }
        }
    }

    /// A keyframe is an IDR picture or a recovery point that is complete at
    /// once, and nothing else is.
    pub open spec fn keyframe_rule(self) -> bool {
        self.is_keyframe <==> (self.kind == AccessUnitKind::Idr || self.kind
            == AccessUnitKind::RecoveryPoint(0))
    }

    /// True for an access unit as the builder holds it before it is
    /// finalized: an IDR keyframe if it has an IDR slice, and neither if not.
    pub open spec fn unsearched(self) -> bool {
        if has_idr(self.nals) {
            self.kind == AccessUnitKind::Idr && self.is_keyframe
        } else {
            self.kind == AccessUnitKind::NonIdr && !self.is_keyframe
        }
    }

    /// What holds of every access unit that a builder hands out: it is an
    /// IDR picture exactly if it has an IDR slice, an IDR picture is a
    /// keyframe, and the keyframe rule holds but for the one exception.
    pub open spec fn classified(self) -> bool {
        &&& has_idr(self.nals) <==> self.kind == AccessUnitKind::Idr
        &&& self.kind == AccessUnitKind::Idr ==> self.is_keyframe
        &&& self.keyframe_rule() <==> !breaks_rule(self)
    }
}

/// True when the recovery points of an access unit break the keyframe
/// rule: the picture is no IDR picture, a recovery point that is complete at
/// once is announced, and the last one announced is not.
pub open spec fn breaks_rule(au: AccessUnitView) -> bool {
    au.kind != AccessUnitKind::Idr && mixed_counts(recovery_counts(au.nals))
}

/// Finalizing an access unit that was not searched before gives one that
/// keeps the keyframe rule, except where a recovery point that is complete
/// at once is followed by a last one that is not, in a picture that is no
/// IDR picture.
pub proof fn lemma_keyframe_rule(au: AccessUnitView)
    requires
        au.unsearched(),
    ensures
        au.finalized().keyframe_rule() <==> !breaks_rule(au.finalized()),
        breaks_rule(au.finalized()) <==> breaks_rule(au),
        au.finalized().classified(),
{
    let counts = recovery_counts(au.nals);
    if counts.len() > 0 && counts.last() == 0 {
        assert(counts[counts.len() - 1] == 0);
    }
}

/// The picture id of an incoming slice, where its header and parameter set
/// are known.
pub open spec fn incoming_id(
    nal_type: NalUnitType,
    header: Option<SliceHeader>,
    sps: Option<Sps>,
) -> Option<PictureId> {
    match (header, sps) {
        (Some(h), Some(s)) => Some(picture_id_of(h, nal_type, s)),
        _ => None,
    }
}

/// True when a NAL unit of type `nal_type` starts a new access unit: an
/// access unit delimiter always does, a unit without slice data never, and a
/// slice when its picture id is known and differs from the current one.
pub open spec fn is_boundary(
    current: Option<PictureId>,
    nal_type: NalUnitType,
    incoming: Option<PictureId>,
) -> bool {
    if nal_type == NalUnitType::Aud {
        true
    } else if !nal_type.is_vcl() {
        false
    } else {
        match (current, incoming) {
            (Some(c), Some(n)) => c != n,
            _ => false,
        }
    }
}

/// The picture id of the access unit being built, if any.
pub open spec fn current_id(current: Option<AccessUnitView>) -> Option<PictureId> {
    match current {
        Some(au) => au.picture_id,
        None => None,
    }
}

/// What the builder does with a NAL unit: the access unit it holds
/// afterwards, and the one it hands out, if any.
///
/// At a boundary the access unit held is finalized and handed out, and the
/// NAL unit starts a new one; else it joins the one held, or starts the
/// first. Parameter sets that come with the NAL unit replace those of the
/// access unit, and a slice header gives it its picture id.
#[verifier::opaque]
pub open spec fn accept(
    current: Option<AccessUnitView>,
    nal: NalView,
    header: Option<SliceHeader>,
    sps: Option<Sps>,
    pps: Option<Pps>,
) -> (AccessUnitView, Option<AccessUnitView>) {
    let boundary = current is Some && is_boundary(
        current_id(current),
        nal.nal_type,
        incoming_id(nal.nal_type, header, sps),
    );
    let base = if boundary || current is None {
        AccessUnitView::empty()
    } else {
        current->Some_0
    };
    let sps_now = if sps is Some {
        sps
    } else {
        base.sps
    };
    let unit = AccessUnitView {
        sps: sps_now,
        pps: if pps is Some {
            pps
        } else {
            base.pps
        },
        picture_id: match (header, sps_now) {
            (Some(h), Some(s)) => Some(picture_id_of(h, nal.nal_type, s)),
            _ => base.picture_id,
        },
        ..base
    }.with_nal(nal);
    (
        unit,
        if boundary {
            Some(current->Some_0.finalized())
        } else {
            None
        },
    )
}

/// An access unit delimiter brings the access unit held to an end and
/// starts the next one.
pub proof fn lemma_delimiter_is_boundary(
    current: AccessUnitView,
    nal: NalView,
    header: Option<SliceHeader>,
    sps: Option<Sps>,
    pps: Option<Pps>,
)
    requires
        nal.nal_type == NalUnitType::Aud,
    ensures
        accept(Some(current), nal, header, sps, pps).1 == Some(current.finalized()),
        accept(Some(current), nal, header, sps, pps).0.nals == seq![nal],
{
    reveal(accept);
    assert(Seq::<NalView>::empty().push(nal) =~= seq![nal]);
}

/// A NAL unit that is neither a slice nor a delimiter joins the access unit
/// held, or starts the first one, and brings none to an end.
pub proof fn lemma_other_units_join(
    current: Option<AccessUnitView>,
    nal: NalView,
    header: Option<SliceHeader>,
    sps: Option<Sps>,
    pps: Option<Pps>,
)
    requires
        nal.nal_type != NalUnitType::Aud,
        !nal.nal_type.is_vcl(),
    ensures
        accept(current, nal, header, sps, pps).1 is None,
        accept(current, nal, header, sps, pps).0.nals == match current {
            Some(au) => au.nals.push(nal),
            None => seq![nal],
        },
{
    reveal(accept);
    assert(Seq::<NalView>::empty().push(nal) =~= seq![nal]);
}

/// A slice whose picture id is known joins the access unit held exactly if
/// that has no picture id yet or the same one; else it brings the access
/// unit held to an end and starts the next one. Either way the access unit
/// that the slice is in has the picture id of the slice.
pub proof fn lemma_slices_share_a_picture(
    current: AccessUnitView,
    nal: NalView,
    header: SliceHeader,
    sps: Sps,
    pps: Option<Pps>,
)
    requires
        nal.nal_type.is_vcl(),
    ensures
        ({
            let id = picture_id_of(header, nal.nal_type, sps);
            let (unit, emitted) = accept(Some(current), nal, Some(header), Some(sps), pps);
            &&& unit.picture_id == Some(id)
            &&& emitted is None <==> (current.picture_id is None || current.picture_id == Some(id))
            &&& emitted is None ==> unit.nals == current.nals.push(nal)
            &&& emitted is Some ==> emitted == Some(current.finalized()) && unit.nals == seq![nal]
        }),
{
    reveal(accept);
    assert(Seq::<NalView>::empty().push(nal) =~= seq![nal]);
}

proof fn lemma_views_push(nals: Seq<Nal>, nal: Nal)
    ensures
        nal_views(nals.push(nal)) == nal_views(nals).push(nal@),
{
    assert(nal_views(nals.push(nal)) =~= nal_views(nals).push(nal@));
}

/// One more NAL unit keeps an unsearched access unit unsearched.
proof fn lemma_with_nal_unsearched(au: AccessUnitView, nal: NalView)
    requires
        au.unsearched(),
    ensures
        au.with_nal(nal).unsearched(),
{
    assert(au.nals.push(nal).drop_last() =~= au.nals);
}

proof fn lemma_views_prefix(nals: Seq<Nal>, i: int)
    requires
        0 <= i < nals.len(),
    ensures
        nal_views(nals).subrange(0, i + 1).drop_last() == nal_views(nals).subrange(0, i),
        nal_views(nals).subrange(0, i + 1).last() == nals[i]@,
        nal_views(nals).subrange(0, nals.len() as int) == nal_views(nals),
{
    assert(nal_views(nals).subrange(0, i + 1).drop_last() =~= nal_views(nals).subrange(0, i));
    assert(nal_views(nals).subrange(0, nals.len() as int) =~= nal_views(nals));
}

impl AccessUnit {
    pub fn new() -> (au: Self)
        ensures
            au@ == AccessUnitView::empty(),
            au.nals@ == Seq::<Nal>::empty(),
    {
        let au = Self {
            nals: Vec::new(),
            is_keyframe: false,
            kind: AccessUnitKind::NonIdr,
            sps: None,
            pps: None,
            picture_id: None,
        };
        assert(au@.nals =~= Seq::<NalView>::empty());
        au
    }

    pub fn is_keyframe(&self) -> (b: bool)
        ensures
            b == self.is_keyframe,
    {
        self.is_keyframe
    }

    /// The NAL units in the order they came.
    pub fn nals(&self) -> (nals: &[Nal])
        ensures
            nals@ == self.nals@,
    {
        self.nals.as_slice()
    }

    /// The access unit as an Annex-B byte stream.
    pub fn to_annexb_bytes(&self) -> (bytes: Cow<'_, [u8]>)
        ensures
            bytes@ == annexb_all(self@.nals),
    {
        let mut bytes: Vec<u8> = Vec::new();
        let mut i: usize = 0;
        assert(nal_views(self.nals@).subrange(0, 0) =~= Seq::<NalView>::empty());
        while i < self.nals.len()
            invariant
                i <= self.nals@.len(),
                bytes@ == annexb_all(nal_views(self.nals@).subrange(0, i as int)),
            decreases self.nals@.len() - i,
        {
            proof {
                lemma_views_prefix(self.nals@, i as int);
            }
            self.nals[i].write_annexb(&mut bytes);
            i += 1;
        }
        proof {
            if self.nals@.len() > 0 {
                lemma_views_prefix(self.nals@, self.nals@.len() - 1);
            } else {
                assert(nal_views(self.nals@) =~= Seq::<NalView>::empty());
            }
        }
        Cow::Owned(bytes)
    }

    /// Appends a NAL unit. An IDR slice makes this an IDR picture and a keyframe.
    pub fn add_nal(&mut self, nal: Nal)
        ensures
            final(self)@ == old(self)@.with_nal(nal@),
            final(self).nals@ == old(self).nals@.push(nal),
    {
        proof {
            lemma_views_push(self.nals@, nal);
        }
        match nal.nal_type {
            NalUnitType::IdrSlice => {
                self.kind = AccessUnitKind::Idr;
                self.is_keyframe = true;
            },
            _ => {},
        }
        self.nals.push(nal);
    }

    pub fn set_sps(&mut self, sps: Arc<Sps>)
        ensures
            *final(self) == (AccessUnit { sps: Some(sps), ..*old(self) }),
    {
        self.sps = Some(sps);
    }

    pub fn set_pps(&mut self, pps: Arc<Pps>)
        ensures
            *final(self) == (AccessUnit { pps: Some(pps), ..*old(self) }),
    {
        self.pps = Some(pps);
    }

    /// Searches the SEI units for recovery points and sets the kind and the
    /// keyframe flag by what they announce. An SEI unit that cannot be
    /// decoded announces nothing.
    pub fn check_recovery_point(&mut self)
        ensures
            final(self)@ == old(self)@.finalized(),
            final(self).nals == old(self).nals,
            old(self)@.unsearched() ==> final(self)@.classified(),
    {
        proof {
            if self@.unsearched() {
                lemma_keyframe_rule(self@);
            }
        }
        match self.kind {
            AccessUnitKind::Idr => {
                return ;
            },
            _ => {},
        }
        let ghost views = nal_views(self.nals@);
        let ghost mut seen: Seq<u32> = Seq::empty();
        let mut i: usize = 0;
        assert(views.subrange(0, 0) =~= Seq::<NalView>::empty());
        while i < self.nals.len()
            invariant
                i <= self.nals@.len(),
                self.nals == old(self).nals,
                self.sps == old(self).sps,
                self.pps == old(self).pps,
                self.picture_id == old(self).picture_id,
                views == nal_views(self.nals@),
                seen == recovery_counts(views.subrange(0, i as int)),
                seen.len() == 0 ==> self.kind == old(self).kind,
                seen.len() == 0 ==> self.is_keyframe == old(self).is_keyframe,
                seen.len() > 0 ==> self.kind == AccessUnitKind::RecoveryPoint(seen.last())
                    && self.is_keyframe == (old(self).is_keyframe || seen.contains(0)),
            decreases self.nals@.len() - i,
        {
            proof {
                lemma_views_prefix(self.nals@, i as int);
            }
            let is_sei = match self.nals[i].nal_type {
                NalUnitType::Sei => true,
                _ => false,
            };
            if is_sei {
                let rbsp = self.nals[i].to_rbsp();
                let ghost raws = messages_from(rbsp@, 0);
                match SeiMessage::parse(rbsp.as_slice()) {
                    Ok(messages) => {
                        let ghost before = seen;
                        let mut j: usize = 0;
                        assert(raws.subrange(0, 0) =~= Seq::<crate::sei::RawMessage>::empty());
                        assert(before + Seq::<u32>::empty() =~= before);
                        while j < messages.len()
                            invariant
                                j <= messages@.len(),
                                i < self.nals@.len(),
                                self.nals == old(self).nals,
                                self.sps == old(self).sps,
                                self.pps == old(self).pps,
                                self.picture_id == old(self).picture_id,
                                decode_all(messages@, raws),
                                seen == before + counts_in(raws.subrange(0, j as int)),
                                seen.len() == 0 ==> self.kind == old(self).kind
                                    && self.is_keyframe == old(self).is_keyframe,
                                seen.len() > 0 ==> self.kind == AccessUnitKind::RecoveryPoint(
                                    seen.last(),
                                ) && self.is_keyframe == (old(self).is_keyframe || seen.contains(
                                    0,
                                )),
                            decreases messages@.len() - j,
                        {
                            proof {
                                assert(raws.subrange(0, j + 1).drop_last() =~= raws.subrange(
                                    0,
                                    j as int,
                                ));
                                assert(raws.subrange(0, j + 1).last() == raws[j as int]);
                                assert(crate::sei::decodes(messages@[j as int], raws[j as int]));
                            }
                            let ghost earlier = seen;
                            match &messages[j].payload {
                                SeiPayload::RecoveryPoint { recovery_frame_cnt, .. } => {
                                    if *recovery_frame_cnt == 0 {
                                        self.kind = AccessUnitKind::RecoveryPoint(0);
                                        self.is_keyframe = true;
                                    } else {
                                        self.kind = AccessUnitKind::RecoveryPoint(
                                            *recovery_frame_cnt,
                                        );
                                    }
                                    proof {
                                        seen = seen.push(*recovery_frame_cnt);
                                        assert(seen =~= before + counts_in(
                                            raws.subrange(0, j + 1),
                                        ));
                                        assert(seen.last() == *recovery_frame_cnt);
                                        assert(seen.drop_last() =~= earlier);
                                        assert(seen.contains(0) <==> (earlier.contains(0)
                                            || *recovery_frame_cnt == 0)) by {
                                            if earlier.contains(0) {
                                                let k = choose|k: int|
                                                    0 <= k < earlier.len() && earlier[k] == 0;
                                                assert(seen[k] == 0);
                                            }
                                            if *recovery_frame_cnt == 0 {
                                                assert(seen[seen.len() - 1] == 0);
                                            }
                                            if seen.contains(0) {
                                                let k = choose|k: int|
                                                    0 <= k < seen.len() && seen[k] == 0;
                                                if k < earlier.len() {
                                                    assert(earlier[k] == 0);
                                                }
                                            }
                                        }
                                    }
                                },
                                _ => {
                                    proof {
                                        assert(seen =~= before + counts_in(
                                            raws.subrange(0, j + 1),
                                        ));
                                    }
                                },
                            }
                            j += 1;
                        }
                        proof {
                            assert(raws.subrange(0, messages@.len() as int) =~= raws);
                        }
                    },
                    Err(_) => {
                        proof {
                            assert(seen + Seq::<u32>::empty() =~= seen);
                        }
                    },
                }
            } else {
                proof {
                    assert(seen + Seq::<u32>::empty() =~= seen);
                }
            }
            i += 1;
        }
        proof {
            assert(views.subrange(0, self.nals@.len() as int) =~= views);
        }
    }

    pub fn set_picture_id_from_slice(
        &mut self,
        slice_header: &SliceHeader,
        nal_type: NalUnitType,
        sps: &Sps,
    )
        ensures
            *final(self) == (AccessUnit {
                picture_id: Some(picture_id_of(*slice_header, nal_type, *sps)),
                ..*old(self)
            }),
    {
        self.picture_id = Some(PictureId::from_slice_header(slice_header, nal_type, sps));
    }
}

/// Groups NAL units into access units.
pub struct AccessUnitBuilder {
    current_au: Option<AccessUnit>,
    current_picture_id: Option<PictureId>,
}

impl AccessUnitBuilder {
    #[verifier::type_invariant]
    spec fn well_formed(self) -> bool {
        match self.current_au {
            Some(au) => au@.unsearched() && self.current_picture_id == au.picture_id,
            None => self.current_picture_id is None,
        }
    }

    /// The access unit being built, if any.
    pub closed spec fn current(&self) -> Option<AccessUnitView> {
        unit_view(self.current_au)
    }

    pub fn new() -> (builder: Self)
        ensures
            builder.current() is None,
    {
        Self { current_au: None, current_picture_id: None }
    }

    /// True when `nal` starts a new access unit.
    pub fn is_au_boundary(
        &self,
        nal: &Nal,
        slice_header: Option<&SliceHeader>,
        sps: Option<&Sps>,
    ) -> (boundary: bool)
        ensures
            boundary == is_boundary(
                current_id(self.current()),
                nal.nal_type,
                match (slice_header, sps) {
                    (Some(h), Some(s)) => Some(picture_id_of(*h, nal.nal_type, *s)),
                    _ => None,
                },
            ),
    {
        proof {
            use_type_invariant(self);
        }
        match nal.nal_type {
            NalUnitType::Aud => {
                return true;
            },
            _ => {},
        }
        if !nal.is_vcl() {
            return false;
        }
        match (slice_header, sps, &self.current_picture_id) {
            (Some(header), Some(sps), Some(current_id)) => {
                let new_picture_id = PictureId::from_slice_header(header, nal.nal_type, sps);
                !new_picture_id.same_picture(current_id)
            },
            _ => false,
        }
    }

    /// Takes in a NAL unit, with the slice header and the parameter sets
    /// that belong to it where it is a slice. Hands out the access unit that
    /// the NAL unit has brought to an end, if any.
    pub fn add_nal(
        &mut self,
        nal: Nal,
        slice_header: Option<SliceHeader>,
        sps: Option<Arc<Sps>>,
        pps: Option<Arc<Pps>>,
    ) -> (completed: Option<AccessUnit>)
        ensures
            final(self).current() == Some(
                accept(old(self).current(), nal@, slice_header, shared(sps), shared(pps)).0,
            ),
            unit_view(completed) == accept(
                old(self).current(),
                nal@,
                slice_header,
                shared(sps),
                shared(pps),
            ).1,
            completed matches Some(au) ==> au@.classified(),
    {
        proof {
            use_type_invariant(&*self);
            reveal(accept);
        }
        let is_boundary = match (&slice_header, &sps) {
            (Some(header), Some(sps_ref)) => {
                self.is_au_boundary(&nal, Some(header), Some(&**sps_ref))
            },
            _ => self.is_au_boundary(&nal, None, None),
        };
        let mut taken = AccessUnitBuilder::new();
        core::mem::swap(self, &mut taken);
        let AccessUnitBuilder { current_au, current_picture_id } = taken;
        let mut completed_au: Option<AccessUnit> = None;
        let mut au = match current_au {
            Some(mut held) => {
                if is_boundary {
                    held.check_recovery_point();
                    completed_au = Some(held);
                    AccessUnit::new()
                } else {
                    held
                }
            },
            None => AccessUnit::new(),
        };
        if let Some(sps) = sps {
            au.set_sps(sps);
        }
        if let Some(pps) = pps {
            au.set_pps(pps);
        }
        match (slice_header, &au.sps) {
            (Some(header), Some(sps_ref)) => {
                let picture_id = PictureId::from_slice_header(&header, nal.nal_type, &**sps_ref);
                au.picture_id = Some(picture_id);
            },
            _ => {},
        }
        proof {
            lemma_with_nal_unsearched(au@, nal@);
        }
        au.add_nal(nal);
        let picture_id = au.picture_id;
        *self = AccessUnitBuilder { current_au: Some(au), current_picture_id: picture_id };
        completed_au
    }

    /// Finalizes the access unit being built and hands it out. For the end
    /// of the stream.
    pub fn flush(self) -> (completed: Option<AccessUnit>)
        ensures
            unit_view(completed) == match self.current() {
                Some(au) => Some(au.finalized()),
                None => None,
            },
            completed matches Some(au) ==> au@.classified(),
    {
        proof {
            use_type_invariant(&self);
        }
        let AccessUnitBuilder { current_au, current_picture_id } = self;
        match current_au {
            Some(mut au) => {
                au.check_recovery_point();
                Some(au)
            },
            None => None,
        }
    }

    /// Finalizes the access unit being built and hands it out; the builder
    /// is empty afterwards.
    pub fn flush_pending(&mut self) -> (completed: Option<AccessUnit>)
        ensures
            final(self).current() is None,
            unit_view(completed) == match old(self).current() {
                Some(au) => Some(au.finalized()),
                None => None,
            },
            completed matches Some(au) ==> au@.classified(),
    {
        proof {
            use_type_invariant(&*self);
        }
        let mut taken = AccessUnitBuilder::new();
        core::mem::swap(self, &mut taken);
        let AccessUnitBuilder { current_au, current_picture_id } = taken;
        match current_au {
            Some(mut au) => {
                au.check_recovery_point();
                Some(au)
            },
            None => None,
        }
    }
}

} // verus!
