//! The parser: bytes in, access units out.
//!
//! Bytes are pushed in pieces of any size and access units are pulled one at
//! a time. A pull treats the bytes pushed so far as the whole stream: the
//! last NAL unit ends where the bytes end, and when no NAL unit is left the
//! access unit being built is finalized and handed out. So a stream is
//! pushed to its end, or to the end of an access unit, before it is pulled.

use crate::au::{accept, unit_view, AccessUnit, AccessUnitBuilder, AccessUnitView};
use crate::bitreader::fails_with;
use crate::bytescan::{
    clear_before, lemma_pull_keeps_clear, lemma_scan_advances, lemma_scan_settles, next_nal,
    StartCodeScanner,
};
use crate::error::{Error, ErrorKind};
use crate::nal::{nal_of, unescape, Nal, NalUnitType, NalView};
use crate::pps::{pps_of, Pps};
use crate::slice::{slice_header_of, slice_pps_id_of, SliceHeader};
use crate::sps::{sps_of, Sps};
use crate::syntax::Scan;
use std::collections::HashMap;
use std::sync::Arc;
use vstd::prelude::*;
use vstd::slice::slice_to_vec;

verus! {

/// All that a parser holds, as contracts see it.
pub struct ParserState {
    /// The bytes pushed so far.
    pub buffer: Seq<u8>,
    /// Where the scan for the next NAL unit starts.
    pub position: int,
    /// The access unit being built, if any.
    pub current: Option<AccessUnitView>,
    /// The sequence parameter sets seen, by id.
    pub sps: Map<u8, Sps>,
    /// The picture parameter sets seen, by id.
    pub pps: Map<u8, Pps>,
}

/// What a pull or a step of it gives besides the new state: an error, an
/// access unit, or nothing.
pub type Outcome = Result<Option<AccessUnitView>, ErrorKind>;

impl ParserState {
    /// The state of a new parser.
    pub open spec fn fresh() -> ParserState {
        ParserState {
            buffer: Seq::empty(),
            position: 0,
            current: None,
            sps: Map::empty(),
            pps: Map::empty(),
        }
    }

    /// True when the scan stands inside the buffer and not behind the first
    /// zero of a four-byte start code, as it does in every parser.
    pub open spec fn valid(self) -> bool {
        0 <= self.position <= self.buffer.len() && clear_before(self.buffer, self.position)
    }

    /// This state with more bytes at the end of the buffer.
    pub open spec fn pushed(self, data: Seq<u8>) -> ParserState {
        ParserState { buffer: self.buffer + data, ..self }
    }

    /// This state after each of `chunks` was pushed, in order.
    pub open spec fn pushed_all(self, chunks: Seq<Seq<u8>>) -> ParserState
        decreases chunks.len(),
    {
        if chunks.len() == 0 {
            self
        } else {
            self.pushed_all(chunks.drop_last()).pushed(chunks.last())
        }
    }
}

/// The chunks one after the other.
pub open spec fn joined(chunks: Seq<Seq<u8>>) -> Seq<u8>
    decreases chunks.len(),
{
    if chunks.len() == 0 {
        Seq::empty()
    } else {
        joined(chunks.drop_last()) + chunks.last()
    }
}

/// Pushing a stream in chunks leaves the parser in the state that pushing
/// it in one piece does, so that the pulls afterwards give the same access
/// units.
pub proof fn lemma_chunking(s: ParserState, chunks: Seq<Seq<u8>>)
    ensures
        s.pushed_all(chunks) == s.pushed(joined(chunks)),
        pull(s.pushed_all(chunks)) == pull(s.pushed(joined(chunks))),
        drained(s.pushed_all(chunks)) == drained(s.pushed(joined(chunks))),
    decreases chunks.len(),
{
    if chunks.len() == 0 {
        assert(s.buffer + joined(chunks) =~= s.buffer);
    } else {
        lemma_chunking(s, chunks.drop_last());
        assert((s.buffer + joined(chunks.drop_last())) + chunks.last() =~= s.buffer + joined(
            chunks,
        ));
    }
}

/// The state and outcome after the builder was given a NAL unit.
pub open spec fn settle(
    s: ParserState,
    nal: NalView,
    header: Option<SliceHeader>,
    sps: Option<Sps>,
    pps: Option<Pps>,
) -> (ParserState, Outcome) {
    let (unit, emitted) = accept(s.current, nal, header, sps, pps);
    (ParserState { current: Some(unit), ..s }, Ok(emitted))
}

/// What a slice does to the parser: its picture parameter set and through it
/// its sequence parameter set are looked up, its header is parsed under
/// them, and the builder gets the slice with all three. A parameter set that
/// was not seen is an error that names its id.
#[verifier::opaque]
pub open spec fn take_slice(s: ParserState, nal: NalView) -> (ParserState, Outcome) {
    let rbsp = unescape(nal.ebsp);
    match slice_pps_id_of(rbsp) {
        Err(kind) => (s, Err(kind)),
        Ok(pps_id) => if !s.pps.contains_key(pps_id) {
            (s, Err(ErrorKind::MissingPps(pps_id)))
        } else {
            let pps = s.pps[pps_id];
            let sps_id = pps.seq_parameter_set_id;
            if !s.sps.contains_key(sps_id) {
                (s, Err(ErrorKind::MissingSps(sps_id)))
            } else {
                let sps = s.sps[sps_id];
                match slice_header_of(rbsp, nal.nal_type, sps, pps) {
                    Err(kind) => (s, Err(kind)),
                    Ok(header) => settle(s, nal, Some(header), Some(sps), Some(pps)),
                }
            }
        },
    }
}

/// What the bytes of one NAL unit do to the parser.
///
/// A parameter set is decoded and stored under its id, in place of an
/// earlier one with that id; a slice is handled as `take_slice` says; every
/// NAL unit that decodes goes to the builder. An error leaves the parameter
/// sets and the access unit being built as they were.
#[verifier::opaque]
pub open spec fn take_in(s: ParserState, start_code_len: u8, data: Seq<u8>) -> (
    ParserState,
    Outcome,
) {
    match nal_of(start_code_len, data) {
        Err(kind) => (s, Err(kind)),
        Ok(nal) => if nal.nal_type == NalUnitType::Sps {
            match sps_of(unescape(nal.ebsp)) {
                Err(kind) => (s, Err(kind)),
                Ok(sps) => settle(
                    ParserState { sps: s.sps.insert(sps.seq_parameter_set_id, sps), ..s },
                    nal,
                    None,
                    None,
                    None,
                ),
            }
        } else if nal.nal_type == NalUnitType::Pps {
            match pps_of(unescape(nal.ebsp)) {
                Err(kind) => (s, Err(kind)),
                Ok(pps) => settle(
                    ParserState { pps: s.pps.insert(pps.pic_parameter_set_id, pps), ..s },
                    nal,
                    None,
                    None,
                    None,
                ),
            }
        } else if nal.nal_type.is_vcl() {
            take_slice(s, nal)
        } else {
            settle(s, nal, None, None, None)
        },
    }
}

/// What a pull gives: the state afterwards and the outcome.
///
/// NAL units are taken in one after the other until one brings an access
/// unit to an end, which is handed out, or fails, which is the error. When
/// no NAL unit is left the access unit being built is finalized and handed
/// out; when there is none either, the pull gives nothing.
pub open spec fn pull(s: ParserState) -> (ParserState, Outcome)
    decreases s.buffer.len() - s.position,
{
    let found = next_nal(s.buffer, s.position);
    let scanned = ParserState { position: found.position, ..s };
    match found.span {
        None => (
            ParserState { current: None, ..scanned },
            Ok(
                match s.current {
                    Some(au) => Some(au.finalized()),
                    None => None,
                },
            ),
        ),
        Some(span) => if 0 <= s.position {
            proof {
                lemma_scan_advances(s.buffer, s.position);
                lemma_take_in_keeps_scan(
                    scanned,
                    span.start_code_len as u8,
                    s.buffer.subrange(span.data_start, span.data_end),
                );
            }
            let (next, outcome) = take_in(
                scanned,
                span.start_code_len as u8,
                s.buffer.subrange(span.data_start, span.data_end),
            );
            match outcome {
                Ok(None) => pull(next),
                _ => (next, outcome),
            }
        } else {
            (scanned, Ok(None))
        },
    }
}

/// Taking in a NAL unit leaves the buffer and the scan as they are.
pub proof fn lemma_take_in_keeps_scan(s: ParserState, start_code_len: u8, data: Seq<u8>)
    ensures
        take_in(s, start_code_len, data).0.buffer == s.buffer,
        take_in(s, start_code_len, data).0.position == s.position,
{
    reveal(take_in);
    reveal(take_slice);
}

/// A pull leaves the buffer as it is and never moves the scan back.
pub proof fn lemma_pull_keeps_buffer(s: ParserState)
    requires
        s.valid(),
    ensures
        pull(s).0.buffer == s.buffer,
        pull(s).0.position >= s.position,
        pull(s).0.valid(),
    decreases s.buffer.len() - s.position,
{
    let found = next_nal(s.buffer, s.position);
    let scanned = ParserState { position: found.position, ..s };
    lemma_scan_advances(s.buffer, s.position);
    lemma_pull_keeps_clear(s.buffer, s.position);
    match found.span {
        None => {},
        Some(span) => {
            let data = s.buffer.subrange(span.data_start, span.data_end);
            let (next, outcome) = take_in(scanned, span.start_code_len as u8, data);
            lemma_take_in_keeps_scan(scanned, span.start_code_len as u8, data);
            if outcome == Ok::<Option<AccessUnitView>, ErrorKind>(None) {
                lemma_pull_keeps_buffer(next);
            }
        },
    }
}

/// After a pull that gave nothing, every further pull gives nothing and
/// changes nothing, as long as nothing is pushed.
pub proof fn lemma_drained_stays_drained(s: ParserState)
    requires
        s.valid(),
        pull(s).1 == Ok::<Option<AccessUnitView>, ErrorKind>(None),
    ensures
        pull(pull(s).0) == (pull(s).0, Ok::<Option<AccessUnitView>, ErrorKind>(None)),
    decreases s.buffer.len() - s.position,
{
    let buf = s.buffer;
    let found = next_nal(buf, s.position);
    let scanned = ParserState { position: found.position, ..s };
    lemma_scan_advances(buf, s.position);
    lemma_pull_keeps_clear(buf, s.position);
    match found.span {
        None => {
            lemma_scan_settles(buf, s.position);
        },
        Some(span) => {
            let data = buf.subrange(span.data_start, span.data_end);
            let (next, outcome) = take_in(scanned, span.start_code_len as u8, data);
            lemma_take_in_keeps_scan(scanned, span.start_code_len as u8, data);
            lemma_drained_stays_drained(next);
        },
    }
}

/// The access units that draining gives: those that pulls hand out up to
/// the first pull that hands out none, and then the one still being built,
/// finalized.
pub open spec fn drained(s: ParserState) -> Seq<AccessUnitView>
    decreases s.buffer.len() - s.position, if s.current is Some { 1nat } else { 0nat },
{
    let (next, outcome) = pull(s);
    match outcome {
        Ok(Some(au)) => if s.valid() {
            proof {
                lemma_pull_measure(s);
            }
            seq![au] + drained(next)
        } else {
            seq![au]
        },
        _ => match next.current {
            Some(au) => seq![au.finalized()],
            None => Seq::empty(),
        },
    }
}

/// A pull that hands out an access unit moves the scan forward, or leaves
/// it where it is and empties the builder.
pub proof fn lemma_pull_measure(s: ParserState)
    requires
        s.valid(),
        pull(s).1 matches Ok(Some(_)),
    ensures
        pull(s).0.buffer == s.buffer,
        s.position <= pull(s).0.position <= s.buffer.len(),
        pull(s).0.position == s.position ==> s.current is Some && pull(s).0.current is None,
    decreases s.buffer.len() - s.position,
{
    let found = next_nal(s.buffer, s.position);
    let scanned = ParserState { position: found.position, ..s };
    lemma_scan_advances(s.buffer, s.position);
    lemma_pull_keeps_clear(s.buffer, s.position);
    match found.span {
        None => {
            assert(pull(s).0 == ParserState { current: None, ..scanned });
        },
        Some(span) => {
            let data = s.buffer.subrange(span.data_start, span.data_end);
            let (next, outcome) = take_in(scanned, span.start_code_len as u8, data);
            lemma_take_in_keeps_scan(scanned, span.start_code_len as u8, data);
            if outcome == Ok::<Option<AccessUnitView>, ErrorKind>(None) {
                assert(pull(s) == pull(next));
                lemma_pull_measure(next);
            } else {
                assert(pull(s) == (next, outcome));
            }
        },
    }
}

/// The parameter sets behind the handles of a registry.
pub open spec fn registry<T>(handles: Map<u8, Arc<T>>) -> Map<u8, T> {
    handles.map_values(|handle: Arc<T>| *handle)
}

/// `Arc::clone` of the standard library: the new handle shares the value of
/// the one it was made from.
#[verifier::external_body]
fn share<T>(handle: &Arc<T>) -> (copy: Arc<T>)
    ensures
        copy == *handle,
{
    Arc::clone(handle)
}

/// Reads from a slice payload the id of the picture parameter set that the
/// slice refers to.
pub fn parse_slice_header_minimal(rbsp: &[u8]) -> (res: Result<(u8,), Error>)
    ensures
        match slice_pps_id_of(rbsp@) {
            Ok(id) => res == Ok::<(u8,), Error>((id,)),
            Err(kind) => fails_with(res, kind),
        },
{
    proof {
        reveal(slice_pps_id_of);
    }
    let mut scan = Scan::new(rbsp);
    let _first_mb_in_slice = scan.ue();
    let _slice_type = scan.ue();
    let pic_parameter_set_id = scan.ue();
    if pic_parameter_set_id > 255 {
        scan.fail(Error::SliceParseError("Invalid PPS ID".to_string()));
        return scan.finish((0u8,));
    }
    scan.finish((pic_parameter_set_id as u8,))
}

/// A streaming parser for Annex-B byte streams.
pub struct AnnexBParser {
    scanner: StartCodeScanner,
    au_builder: AccessUnitBuilder,
    sps_map: HashMap<u8, Arc<Sps>>,
    pps_map: HashMap<u8, Arc<Pps>>,
}

impl View for AnnexBParser {
    type V = ParserState;

    closed spec fn view(&self) -> ParserState {
        ParserState {
            buffer: self.scanner.buffer(),
            position: self.scanner.position(),
            current: self.au_builder.current(),
            sps: registry(self.sps_map@),
            pps: registry(self.pps_map@),
        }
    }
}

impl AnnexBParser {
    pub fn new() -> (parser: Self)
        ensures
            parser@ == ParserState::fresh(),
            parser@.valid(),
    {
        let parser = Self {
            scanner: StartCodeScanner::new(),
            au_builder: AccessUnitBuilder::new(),
            sps_map: HashMap::new(),
            pps_map: HashMap::new(),
        };
        assert(registry(parser.sps_map@) =~= Map::<u8, Sps>::empty());
        assert(registry(parser.pps_map@) =~= Map::<u8, Pps>::empty());
        parser
    }

    /// Number of sequence parameter sets held.
    pub fn sps_count(&self) -> (n: usize)
        ensures
            n == self@.sps.len(),
    {
        broadcast use vstd::std_specs::hash::group_hash_axioms;

        assert(registry(self.sps_map@).dom() =~= self.sps_map@.dom());
        self.sps_map.len()
    }

    /// Number of picture parameter sets held.
    pub fn pps_count(&self) -> (n: usize)
        ensures
            n == self@.pps.len(),
    {
        broadcast use vstd::std_specs::hash::group_hash_axioms;

        assert(registry(self.pps_map@).dom() =~= self.pps_map@.dom());
        self.pps_map.len()
    }

    /// Appends bytes to the stream.
    pub fn push(&mut self, data: &[u8])
        ensures
            final(self)@ == old(self)@.pushed(data@),
            final(self)@.valid(),
    {
        self.scanner.push(data);
    }

    /// Takes in the next NAL unit's bytes: the step of a pull.
    fn take_in(&mut self, start_code_len: u8, nal_data: &[u8]) -> (res: Result<
        Option<AccessUnit>,
        Error,
    >)
        ensures
            final(self)@ == take_in(old(self)@, start_code_len, nal_data@).0,
            match take_in(old(self)@, start_code_len, nal_data@).1 {
                Ok(emitted) => res matches Ok(unit) && unit_view(unit) == emitted,
                Err(kind) => fails_with(res, kind),
            },
            res matches Ok(Some(au)) ==> au@.classified(),
    {
        broadcast use vstd::std_specs::hash::group_hash_axioms;

        proof {
            reveal(take_in);
            reveal(take_slice);
        }
        let nal = Nal::parse(start_code_len, nal_data)?;
        let mut slice_header: Option<SliceHeader> = None;
        let mut sps: Option<Arc<Sps>> = None;
        let mut pps: Option<Arc<Pps>> = None;
        match nal.nal_type {
            NalUnitType::Sps => {
                let rbsp = nal.to_rbsp();
                let parsed = Sps::parse(rbsp.as_slice())?;
                let sps_id = parsed.seq_parameter_set_id;
                let ghost before = self.sps_map@;
                self.sps_map.insert(sps_id, Arc::new(parsed));
                assert(registry(self.sps_map@) =~= registry(before).insert(sps_id, parsed));
            },
            NalUnitType::Pps => {
                let rbsp = nal.to_rbsp();
                let parsed = Pps::parse(rbsp.as_slice())?;
                let pps_id = parsed.pic_parameter_set_id;
                let ghost before = self.pps_map@;
                self.pps_map.insert(pps_id, Arc::new(parsed));
                assert(registry(self.pps_map@) =~= registry(before).insert(pps_id, parsed));
            },
            _ => {},
        }
        if nal.is_slice() {
            let rbsp = nal.to_rbsp();
            let temp_header = parse_slice_header_minimal(rbsp.as_slice())?;
            let pps_id = temp_header.0;
            match self.pps_map.get(&pps_id) {
                Some(pps_ref) => {
                    let sps_id = pps_ref.seq_parameter_set_id;
                    match self.sps_map.get(&sps_id) {
                        Some(sps_ref) => {
                            slice_header = Some(
                                SliceHeader::parse(
                                    rbsp.as_slice(),
                                    nal.nal_type,
                                    &**sps_ref,
                                    &**pps_ref,
                                )?,
                            );
                            sps = Some(share(sps_ref));
                            pps = Some(share(pps_ref));
                        },
                        None => {
                            return Err(Error::MissingSps(sps_id));
                        },
                    }
                },
                None => {
                    return Err(Error::MissingPps(pps_id));
                },
            }
        }
        Ok(self.au_builder.add_nal(nal, slice_header, sps, pps))
    }

    /// Hands out the next access unit, if the bytes pushed so far hold one.
    pub fn next_access_unit(&mut self) -> (res: Result<Option<AccessUnit>, Error>)
        ensures
            old(self)@.valid() && final(self)@.valid(),
            final(self)@ == pull(old(self)@).0,
            match pull(old(self)@).1 {
                Ok(emitted) => res matches Ok(unit) && unit_view(unit) == emitted,
                Err(kind) => fails_with(res, kind),
            },
            res matches Ok(Some(au)) ==> au@.classified(),
    {
        proof {
            use_type_invariant(&self.scanner);
            self.scanner.lemma_well_formed();
        }
        loop
            invariant
                self@.valid(),
                old(self)@.valid(),
                pull(old(self)@) == pull(self@),
            decreases self@.buffer.len() - self@.position,
        {
            let ghost before = self@;
            proof {
                let found = next_nal(before.buffer, before.position);
                if found.span is Some && before.position >= 0 {
                    lemma_take_in_keeps_scan(
                        ParserState { position: found.position, ..before },
                        found.span->Some_0.start_code_len as u8,
                        before.buffer.subrange(
                            found.span->Some_0.data_start,
                            found.span->Some_0.data_end,
                        ),
                    );
                }
            }
            let found = match self.scanner.next_nal_unit() {
                Ok(found) => found,
                Err(e) => {
                    return Err(e);
                },
            };
            match found {
                Some(nal_span) => {
                    let nal_data = slice_to_vec(self.scanner.get_nal_data(&nal_span));
                    match self.take_in(nal_span.start_code_len, nal_data.as_slice()) {
                        Ok(Some(au)) => {
                            return Ok(Some(au));
                        },
                        Ok(None) => {},
                        Err(e) => {
                            return Err(e);
                        },
                    }
                },
                None => {
                    return Ok(self.au_builder.flush_pending());
                },
            }
        }
    }

    /// Pulls until a pull hands out nothing or fails, then finalizes what
    /// the builder still holds. Gives the access units in order.
    pub fn drain(self) -> (units: Vec<Result<AccessUnit, Error>>)
        ensures
            units@.len() == drained(self@).len(),
            forall|i: int|
                0 <= i < units@.len() ==> (#[trigger] units@[i] matches Ok(au) && au@ == drained(
                    self@,
                )[i] && au@.classified()),
    {
        let mut parser = self;
        let mut results: Vec<Result<AccessUnit, Error>> = Vec::new();
        let ghost start = parser@;
        proof {
            use_type_invariant(&parser.scanner);
            parser.scanner.lemma_well_formed();
        }
        let ghost mut done: Seq<AccessUnitView> = Seq::empty();
        assert(done + drained(parser@) =~= drained(start));
        loop
            invariant_except_break
                parser@.valid(),
                drained(start) == done + drained(parser@),
                results@.len() == done.len(),
                forall|i: int|
                    0 <= i < results@.len() ==> (#[trigger] results@[i] matches Ok(au) && au@
                        == done[i] && au@.classified()),
            ensures
                results@.len() == done.len(),
                forall|i: int|
                    0 <= i < results@.len() ==> (#[trigger] results@[i] matches Ok(au) && au@
                        == done[i] && au@.classified()),
                drained(start) == done + match parser@.current {
                    Some(au) => seq![au.finalized()],
                    None => Seq::empty(),
                },
            decreases
                    parser@.buffer.len() - parser@.position,
                    if parser@.current is Some {
                        1nat
                    } else {
                        0nat
                    },
        {
            let ghost before = parser@;
            let ghost earlier = done;
            let ghost held = results@;
            match parser.next_access_unit() {
                Ok(Some(au)) => {
                    proof {
                        lemma_pull_measure(before);
                        done = done.push(au@);
                        let rest = drained(parser@);
                        assert(done + rest =~= earlier + (seq![au@] + rest));
                    }
                    results.push(Ok(au));
                    assert forall|i: int| 0 <= i < results@.len() implies (
                    #[trigger] results@[i] matches Ok(unit) && unit@ == done[i]
                        && unit@.classified()) by {
                        if i < held.len() {
                            assert(results@[i] == held[i]);
                        }
                    }
                },
                _ => {
                    break ;
                },
            }
        }
        let ghost last = parser@.current;
        let ghost held = results@;
        if let Some(au) = parser.au_builder.flush() {
            results.push(Ok(au));
            proof {
                assert(last is Some);
                done = done.push(au@);
                assert forall|i: int| 0 <= i < results@.len() implies (
                #[trigger] results@[i] matches Ok(unit) && unit@ == done[i]
                        && unit@.classified()) by {
                    if i < held.len() {
                        assert(results@[i] == held[i]);
                    }
                }
            }
        }
        assert(drained(start) =~= done);
        results
    }

    /// Forgets the bytes, the access unit being built and the parameter sets.
    pub fn reset(&mut self)
        ensures
            final(self)@ == ParserState::fresh(),
            final(self)@.valid(),
    {
        self.scanner.reset();
        self.au_builder = AccessUnitBuilder::new();
        self.sps_map.clear();
        self.pps_map.clear();
        assert(registry(self.sps_map@) =~= Map::<u8, Sps>::empty());
        assert(registry(self.pps_map@) =~= Map::<u8, Pps>::empty());
    }
}

impl Default for AnnexBParser {
    fn default() -> (parser: Self)
        ensures
            parser@ == ParserState::fresh(),
    {
        Self::new()
    }
}

} // verus!
