//! Finds start codes in a growing byte buffer and hands out the spans of the
//! NAL units between them.
//!
//! The scanner treats the end of the buffer as the end of the last unit: a
//! unit with no start code after it is handed out with all the bytes that are
//! there. Callers that feed a stream in pieces push all pieces of a unit before
//! they pull.
//!
//! Start codes may arrive in pieces, with scans in between. A scan that finds
//! nothing leaves the cursor where a start code can still begin, so a start
//! code is found as it would have been had all its bytes been there at once
//! ([`lemma_fruitless_scan_loses_nothing`]), and the cursor never stands
//! behind the first zero of a four-byte start code ([`clear_before`]).

use vstd::prelude::*;
use vstd::slice::{slice_subrange, slice_to_vec};

verus! {

/// Length of the start code that begins at index `i`: 4 for `00 00 00 01`, 3
/// for `00 00 01`, 0 where none begins.
pub open spec fn start_code_len_at(buf: Seq<u8>, i: int) -> nat {
    if 0 <= i && i + 3 < buf.len() && buf[i] == 0 && buf[i + 1] == 0 && buf[i + 2] == 0 && buf[i
        + 3] == 1 {
        4
    } else if 0 <= i && i + 2 < buf.len() && buf[i] == 0 && buf[i + 1] == 0 && buf[i + 2] == 1 {
        3
    } else {
        0
    }
}

/// The first index at or after `from` where a start code begins.
pub open spec fn first_start_code(buf: Seq<u8>, from: int) -> Option<int>
    decreases buf.len() - from,
{
    if from < 0 || from + 2 >= buf.len() {
        None
    } else if start_code_len_at(buf, from) > 0 {
        Some(from)
    } else {
        first_start_code(buf, from + 1)
    }
}

/// Where a scan from `from` stops when it finds no start code: three bytes
/// before the end, or at `from` where that is later. A start code that is
/// complete once more bytes arrive cannot begin before this index, and one
/// of four bytes can begin at it.
pub open spec fn scan_end(buf: Seq<u8>, from: int) -> int {
    if from + 3 < buf.len() {
        buf.len() - 3
    } else {
        from
    }
}

/// True when no four-byte start code begins at the byte before `position`,
/// nor can begin there whatever bytes are appended: that byte or one of the
/// two after it is not zero, or the third after it is there and is not one.
/// This holds of the cursor of every scanner.
pub open spec fn clear_before(buf: Seq<u8>, position: int) -> bool {
    let i = position - 1;
    ||| i < 0
    ||| i >= buf.len()
    ||| buf[i] != 0
    ||| (i + 1 < buf.len() && buf[i + 1] != 0)
    ||| (i + 2 < buf.len() && buf[i + 2] != 0)
    ||| (i + 3 < buf.len() && buf[i + 3] != 1)
}

/// The byte range of one NAL unit in the scanner's buffer.
#[derive(Debug, Clone)]
pub struct NalSpan {
    pub start_pos: usize,
    pub start_code_len: u8,
    pub data_start: usize,
    pub data_end: usize,
}

/// A byte range as contracts see it.
pub struct Span {
    pub start_pos: int,
    pub start_code_len: int,
    pub data_start: int,
    pub data_end: int,
}

impl View for NalSpan {
    type V = Span;

    open spec fn view(&self) -> Span {
        Span {
            start_pos: self.start_pos as int,
            start_code_len: self.start_code_len as int,
            data_start: self.data_start as int,
            data_end: self.data_end as int,
        }
    }
}

/// What a pull from the buffer gives, and where the scan stands afterwards.
pub struct Pull {
    pub span: Option<Span>,
    pub position: int,
}

/// The unit that a pull finds when the scan stands at `position`.
///
/// The unit begins after the first start code at or after `position` and
/// ends before the next start code, or at the end of the buffer where there
/// is none. A unit without bytes is no unit: between two adjacent start
/// codes the scan goes on from the second, and after a start code at the
/// very end of the buffer it goes back to that start code, so that the unit
/// is found once its bytes have arrived.
pub open spec fn next_nal(buf: Seq<u8>, position: int) -> Pull
    decreases buf.len() - position,
{
    match first_start_code(buf, position) {
        None => Pull { span: None, position: scan_end(buf, position) },
        Some(p) => {
            let l = start_code_len_at(buf, p);
            let data_start = p + l;
            match first_start_code(buf, data_start) {
                Some(q) => if q > data_start {
                    Pull {
                        span: Some(
                            Span {
                                start_pos: p,
                                start_code_len: l as int,
                                data_start,
                                data_end: q,
                            },
                        ),
                        position: q,
                    }
                } else if 0 <= position {
                    proof {
                        lemma_first_start_code(buf, position);
                    }
                    next_nal(buf, data_start)
                } else {
                    Pull { span: None, position }
                },
                None => if data_start < buf.len() {
                    Pull {
                        span: Some(
                            Span {
                                start_pos: p,
                                start_code_len: l as int,
                                data_start,
                                data_end: buf.len() as int,
                            },
                        ),
                        position: scan_end(buf, data_start),
                    }
                } else {
                    Pull { span: None, position: p }
                },
            }
        },
    }
}

/// `first_start_code` gives the least index at or after `from` where a start
/// code begins, and nothing exactly when there is no such index.
pub proof fn lemma_first_start_code(buf: Seq<u8>, from: int)
    requires
        0 <= from,
    ensures
        match first_start_code(buf, from) {
            Some(p) => from <= p && p + start_code_len_at(buf, p) <= buf.len()
                && start_code_len_at(buf, p) >= 3 && forall|i: int|
                from <= i < p ==> start_code_len_at(buf, i) == 0,
            None => forall|i: int| from <= i ==> start_code_len_at(buf, i) == 0,
        },
    decreases buf.len() - from,
{
    if from + 2 < buf.len() && start_code_len_at(buf, from) == 0 {
        lemma_first_start_code(buf, from + 1);
    }
}

/// A scan from a cursor that is clear leaves the cursor clear, and the
/// three-byte start code that it reports does not follow a zero byte: a
/// four-byte start code is never reported as a zero byte and a three-byte
/// start code.
pub proof fn lemma_scan_keeps_clear(buf: Seq<u8>, from: int)
    requires
        0 <= from,
        clear_before(buf, from),
    ensures
        match first_start_code(buf, from) {
            Some(p) => clear_before(buf, p) && clear_before(buf, p + start_code_len_at(buf, p))
                && (start_code_len_at(buf, p) == 3 ==> p == 0 || buf[p - 1] != 0),
            None => clear_before(buf, scan_end(buf, from)),
        },
{
    lemma_first_start_code(buf, from);
    match first_start_code(buf, from) {
        Some(p) => {
            if p > from {
                assert(start_code_len_at(buf, p - 1) == 0);
            }
        },
        None => {
            if from + 3 < buf.len() {
                assert(start_code_len_at(buf, buf.len() - 4) == 0);
            }
        },
    }
}

/// A pull from a cursor that is clear leaves the cursor clear, and where the
/// unit that it finds has a three-byte start code, that does not follow a
/// zero byte.
pub proof fn lemma_pull_keeps_clear(buf: Seq<u8>, position: int)
    requires
        0 <= position,
        clear_before(buf, position),
    ensures
        clear_before(buf, next_nal(buf, position).position),
        next_nal(buf, position).span matches Some(span) ==> (span.start_code_len == 3
            ==> span.start_pos == 0 || buf[span.start_pos - 1] != 0),
    decreases buf.len() - position,
{
    lemma_first_start_code(buf, position);
    lemma_scan_keeps_clear(buf, position);
    match first_start_code(buf, position) {
        Some(p) => {
            let data_start = p + start_code_len_at(buf, p);
            lemma_first_start_code(buf, data_start);
            lemma_scan_keeps_clear(buf, data_start);
            if first_start_code(buf, data_start) == Some(data_start) {
                lemma_pull_keeps_clear(buf, data_start);
            }
        },
        None => {},
    }
}

/// More bytes at the end leave a cursor clear that was clear.
pub proof fn lemma_push_keeps_clear(buf: Seq<u8>, more: Seq<u8>, position: int)
    requires
        0 <= position <= buf.len(),
        clear_before(buf, position),
    ensures
        clear_before(buf + more, position),
{
    let i = position - 1;
    if i >= 0 {
        assert((buf + more)[i] == buf[i]);
        if i + 1 < buf.len() {
            assert((buf + more)[i + 1] == buf[i + 1]);
        }
        if i + 2 < buf.len() {
            assert((buf + more)[i + 2] == buf[i + 2]);
        }
        if i + 3 < buf.len() {
            assert((buf + more)[i + 3] == buf[i + 3]);
        }
    }
}

proof fn lemma_skip_no_codes(buf: Seq<u8>, from: int, to: int)
    requires
        0 <= from <= to,
        forall|i: int| from <= i < to ==> start_code_len_at(buf, i) == 0,
    ensures
        first_start_code(buf, from) == first_start_code(buf, to),
    decreases to - from,
{
    if from < to {
        lemma_skip_no_codes(buf, from + 1, to);
        if from + 2 >= buf.len() {
            lemma_first_start_code(buf, to);
            if first_start_code(buf, to) is Some {
                let p = first_start_code(buf, to)->Some_0;
                assert(start_code_len_at(buf, p) >= 3);
            }
        }
    }
}

/// A scan that finds nothing loses nothing: after it, whatever bytes are
/// pushed, the next scan finds the start code that a scan from the old
/// cursor would find in all the bytes. So a start code is found in the same
/// place and with the same length however its bytes are split over pushes
/// and whatever scans come between them.
pub proof fn lemma_fruitless_scan_loses_nothing(buf: Seq<u8>, more: Seq<u8>, from: int)
    requires
        0 <= from,
        first_start_code(buf, from) is None,
    ensures
        first_start_code(buf + more, scan_end(buf, from)) == first_start_code(buf + more, from),
{
    let all = buf + more;
    let end = scan_end(buf, from);
    lemma_first_start_code(buf, from);
    if from + 3 < buf.len() {
        assert forall|i: int| from <= i < end implies start_code_len_at(all, i) == 0 by {
            assert(start_code_len_at(buf, i) == 0);
            assert(all[i] == buf[i] && all[i + 1] == buf[i + 1] && all[i + 2] == buf[i + 2]
                && all[i + 3] == buf[i + 3]);
        }
        lemma_skip_no_codes(all, from, end);
    }
}

/// A four-byte start code at `q` is never taken for a zero byte followed by a
/// three-byte start code: a scan that starts at or before `q` reports either
/// the four-byte code at `q` itself or a start code that ends before `q`.
pub proof fn lemma_four_byte_preferred(buf: Seq<u8>, from: int, q: int)
    requires
        0 <= from <= q,
        q + 3 < buf.len(),
        buf[q] == 0 && buf[q + 1] == 0 && buf[q + 2] == 0 && buf[q + 3] == 1,
    ensures
        start_code_len_at(buf, q) == 4,
        first_start_code(buf, from) matches Some(p) && (p == q || p + start_code_len_at(buf, p)
            <= q),
    decreases q - from,
{
    if from < q && start_code_len_at(buf, from) == 0 {
        lemma_four_byte_preferred(buf, from + 1, q);
    }
}

/// A pull that finds a NAL unit moves the scan forward; no pull moves it
/// back or out of the buffer.
pub proof fn lemma_scan_advances(buf: Seq<u8>, position: int)
    requires
        0 <= position,
    ensures
        next_nal(buf, position).span matches Some(span) ==> position < next_nal(
            buf,
            position,
        ).position <= buf.len() && position <= span.start_pos < span.data_start < span.data_end
            <= buf.len() && 3 <= span.start_code_len <= 4,
        next_nal(buf, position).position >= position,
        position <= buf.len() ==> next_nal(buf, position).position <= buf.len(),
    decreases buf.len() - position,
{
    lemma_first_start_code(buf, position);
    match first_start_code(buf, position) {
        Some(p) => {
            let data_start = p + start_code_len_at(buf, p);
            lemma_first_start_code(buf, data_start);
            if first_start_code(buf, data_start) == Some(data_start) {
                lemma_scan_advances(buf, data_start);
            }
        },
        None => {},
    }
}

/// When a pull finds no NAL unit, the next pull finds none either and
/// leaves the scan where it is.
pub proof fn lemma_scan_settles(buf: Seq<u8>, position: int)
    requires
        0 <= position,
        next_nal(buf, position).span is None,
    ensures
        next_nal(buf, next_nal(buf, position).position) == next_nal(buf, position),
    decreases buf.len() - position,
{
    lemma_first_start_code(buf, position);
    match first_start_code(buf, position) {
        Some(p) => {
            let data_start = p + start_code_len_at(buf, p);
            lemma_first_start_code(buf, data_start);
            match first_start_code(buf, data_start) {
                Some(q) => {
                    lemma_scan_settles(buf, data_start);
                },
                None => {
                    lemma_first_start_code(buf, p);
                    assert(first_start_code(buf, p) == Some(p));
                },
            }
        },
        None => {
            let end = next_nal(buf, position).position;
            lemma_first_start_code(buf, end);
            if first_start_code(buf, end) is Some {
                let q = first_start_code(buf, end)->Some_0;
                assert(start_code_len_at(buf, q) == 0);
            }
        },
    }
}

/// A pull respects a four-byte start code at `q`: when the scan stands at or
/// before `q`, the unit that the pull finds neither begins nor ends at the
/// three-byte start code that lies inside the four-byte one, and where it
/// begins at `q` its start code has four bytes.
pub proof fn lemma_pull_prefers_four_bytes(buf: Seq<u8>, position: int, q: int)
    requires
        0 <= position <= q,
        q + 3 < buf.len(),
        buf[q] == 0 && buf[q + 1] == 0 && buf[q + 2] == 0 && buf[q + 3] == 1,
    ensures
        next_nal(buf, position).span matches Some(span) ==> span.start_pos != q + 1
            && span.data_end != q + 1 && (span.start_pos == q ==> span.start_code_len == 4),
    decreases buf.len() - position,
{
    lemma_four_byte_preferred(buf, position, q);
    lemma_first_start_code(buf, position);
    let p = first_start_code(buf, position)->Some_0;
    let data_start = p + start_code_len_at(buf, p);
    lemma_first_start_code(buf, data_start);
    if data_start <= q {
        lemma_four_byte_preferred(buf, data_start, q);
        if first_start_code(buf, data_start) == Some(data_start) {
            lemma_pull_prefers_four_bytes(buf, data_start, q);
        }
    } else {
        lemma_scan_advances(buf, data_start);
    }
}

impl NalSpan {
    /// Number of payload bytes.
    pub fn len(&self) -> (n: usize)
        requires
            self.data_start <= self.data_end,
        ensures
            n == self.data_end - self.data_start,
    {
        self.data_end - self.data_start
    }
}

/// A byte buffer that grows by `push`, with a scan cursor into it.
pub struct StartCodeScanner {
    buffer: Vec<u8>,
    position: usize,
}

impl StartCodeScanner {
    /// The cursor never leaves the buffer and never stands behind the first
    /// zero of a four-byte start code.
    #[verifier::type_invariant]
    pub closed spec fn well_formed(self) -> bool {
        self.position <= self.buffer@.len() && clear_before(self.buffer@, self.position as int)
    }

    /// What being well formed means for the cursor.
    pub proof fn lemma_well_formed(self)
        requires
            self.well_formed(),
        ensures
            0 <= self.position() <= self.buffer().len(),
            clear_before(self.buffer(), self.position()),
    {
    }

    /// The bytes pushed so far, less those consumed.
    pub closed spec fn buffer(&self) -> Seq<u8> {
        self.buffer@
    }

    /// Index from which the next scan starts.
    pub closed spec fn position(&self) -> int {
        self.position as int
    }

    pub fn new() -> (s: Self)
        ensures
            s.buffer() == Seq::<u8>::empty(),
            s.position() == 0,
            s.well_formed(),
    {
        Self { buffer: Vec::new(), position: 0 }
    }

    /// Appends bytes to the buffer.
    pub fn push(&mut self, data: &[u8])
        ensures
            final(self).buffer() == old(self).buffer() + data@,
            final(self).position() == old(self).position(),
            0 <= final(self).position() <= final(self).buffer().len(),
            clear_before(final(self).buffer(), final(self).position()),
    {
        let mut taken = StartCodeScanner::new();
        core::mem::swap(self, &mut taken);
        proof {
            use_type_invariant(&taken);
            lemma_push_keeps_clear(taken.buffer@, data@, taken.position as int);
        }
        let StartCodeScanner { mut buffer, position } = taken;
        buffer.extend_from_slice(data);
        assert(buffer@ =~= old(self).buffer@ + data@);
        *self = StartCodeScanner { buffer, position };
    }

    /// Looks for the first start code at or after the cursor. When one is
    /// found, returns where it begins and its length, and moves the cursor
    /// past it. When none is found, the cursor stops where a start code can
    /// still begin once more bytes are pushed.
    pub fn find_next_start_code(&mut self) -> (res: Option<(usize, u8)>)
        ensures
            final(self).buffer() == old(self).buffer(),
            0 <= final(self).position() <= final(self).buffer().len(),
            clear_before(final(self).buffer(), final(self).position()),
            match first_start_code(old(self).buffer(), old(self).position()) {
                Some(p) => res == Some((p as usize, start_code_len_at(old(self).buffer(), p) as u8))
                    && final(self).position() == p + start_code_len_at(old(self).buffer(), p),
                None => res is None && final(self).position() == scan_end(
                    old(self).buffer(),
                    old(self).position(),
                ),
            },
            res matches Some(found) ==> (found.1 == 3 ==> found.0 == 0 || old(self).buffer()[
                found.0 - 1] != 0),
    {
        proof {
            use_type_invariant(&*self);
            lemma_scan_keeps_clear(self.buffer@, self.position as int);
        }
        let ghost buf = self.buffer@;
        let ghost from = self.position as int;
        while self.buffer.len() - self.position > 3
            invariant
                self.buffer@ == buf,
                buf == old(self).buffer@,
                from == old(self).position,
                from <= self.position <= buf.len(),
                clear_before(buf, from),
                self.position > from ==> from + 3 < buf.len() && self.position + 3 <= buf.len(),
                first_start_code(buf, from) == first_start_code(buf, self.position as int),
            decreases buf.len() - self.position,
        {
            let at = self.position;
            if self.buffer[at] == 0x00 && self.buffer[at + 1] == 0x00 {
                if self.buffer[at + 2] == 0x00 && self.buffer[at + 3] == 0x01 {
                    self.position += 4;
                    return Some((at, 4));
                } else if self.buffer[at + 2] == 0x01 {
                    proof {
                        lemma_scan_keeps_clear(buf, from);
                    }
                    self.position += 3;
                    return Some((at, 3));
                }
            }
            assert(start_code_len_at(buf, at as int) == 0);
            self.position += 1;
        }
        // With three bytes left a three-byte start code can be there; the
        // first three bytes of a longer one stay for the next scan.
        let at = self.position;
        if self.buffer.len() - at == 3 && self.buffer[at] == 0x00 && self.buffer[at + 1] == 0x00
            && self.buffer[at + 2] == 0x01 {
            self.position += 3;
            return Some((at, 3));
        }
        proof {
            if buf.len() - at == 3 {
                assert(start_code_len_at(buf, at as int) == 0);
                assert(first_start_code(buf, at + 1) is None);
            }
        }
        None
    }

    /// Hands out the span of the next NAL unit, if a start code and at least
    /// one byte after it are there. Never fails.
    pub fn next_nal_unit(&mut self) -> (res: Result<Option<NalSpan>, crate::error::Error>)
        ensures
            final(self).buffer() == old(self).buffer(),
            0 <= old(self).position() <= final(self).position() <= final(self).buffer().len(),
            res is Ok,
            match next_nal(old(self).buffer(), old(self).position()).span {
                Some(view) => res->Ok_0 matches Some(span) && span@ == view,
                None => res->Ok_0 is None,
            },
            final(self).position() == next_nal(old(self).buffer(), old(self).position()).position,
            res->Ok_0 matches Some(span) ==> old(self).position() <= span.start_pos
                < span.data_start < span.data_end <= old(self).buffer().len() && span.data_start
                == span.start_pos + span.start_code_len,
            res->Ok_0 is Some ==> old(self).position() < final(self).position(),
            clear_before(final(self).buffer(), final(self).position()),
            res->Ok_0 matches Some(span) ==> (span.start_code_len == 3 ==> span.start_pos == 0
                || old(self).buffer()[span.start_pos - 1] != 0),
    {
        proof {
            use_type_invariant(&*self);
        }
        let ghost buf = self.buffer@;
        loop
            invariant
                self.buffer@ == buf,
                buf == old(self).buffer@,
                old(self).position <= self.position <= buf.len(),
                next_nal(buf, old(self).position as int) == next_nal(buf, self.position as int),
            decreases buf.len() - self.position,
        {
            proof {
                use_type_invariant(&*self);
                lemma_first_start_code(buf, self.position as int);
                lemma_scan_keeps_clear(buf, self.position as int);
            }
            let (start_pos, start_code_len) = match self.find_next_start_code() {
                Some(found) => found,
                None => {
                    return Ok(None);
                },
            };
            let data_start = start_pos + start_code_len as usize;
            proof {
                lemma_first_start_code(buf, data_start as int);
                lemma_scan_keeps_clear(buf, data_start as int);
            }
            match self.find_next_start_code() {
                Some((next_pos, _)) => {
                    self.position = next_pos;
                    if next_pos > data_start {
                        let data_end = next_pos;
                        let span = NalSpan { start_pos, start_code_len, data_start, data_end };
                        return Ok(Some(span));
                    }
                },
                None => {
                    let data_end = self.buffer.len();
                    if data_start >= data_end {
                        self.position = start_pos;
                        return Ok(None);
                    }
                    return Ok(Some(NalSpan { start_pos, start_code_len, data_start, data_end }));
                },
            }
        }
    }

    /// The payload bytes of a span.
    pub fn get_nal_data(&self, span: &NalSpan) -> (data: &[u8])
        requires
            span.data_start <= span.data_end <= self.buffer().len(),
        ensures
            data@ == self.buffer().subrange(span.data_start as int, span.data_end as int),
    {
        slice_subrange(self.buffer.as_slice(), span.data_start, span.data_end)
    }

    /// Drops the first `up_to` bytes of the buffer and moves the cursor back
    /// by as much, but not below zero.
    pub fn consume_processed(&mut self, up_to: usize)
        requires
            up_to <= old(self).buffer().len(),
        ensures
            0 <= final(self).position() <= final(self).buffer().len(),
            clear_before(final(self).buffer(), final(self).position()),
            final(self).buffer() == old(self).buffer().skip(up_to as int),
            final(self).position() == if old(self).position() >= up_to {
                old(self).position() - up_to
            } else {
                0
            },
    {
        proof {
            use_type_invariant(&*self);
        }
        if up_to > 0 {
            let kept = slice_subrange(self.buffer.as_slice(), up_to, self.buffer.len());
            let rest = slice_to_vec(kept);
            let position = if self.position >= up_to {
                self.position - up_to
            } else {
                0
            };
            assert(rest@ =~= self.buffer@.skip(up_to as int));
            assert(clear_before(rest@, position as int)) by {
                let i = position - 1;
                if i >= 0 {
                    assert(rest@[i] == self.buffer@[i + up_to]);
                    if i + 1 < rest@.len() {
                        assert(rest@[i + 1] == self.buffer@[i + 1 + up_to]);
                    }
                    if i + 2 < rest@.len() {
                        assert(rest@[i + 2] == self.buffer@[i + 2 + up_to]);
                    }
                    if i + 3 < rest@.len() {
                        assert(rest@[i + 3] == self.buffer@[i + 3 + up_to]);
                    }
                }
            }
            *self = StartCodeScanner { buffer: rest, position };
        } else {
            assert(self.buffer@.skip(0) =~= self.buffer@);
        }
    }

    /// Empties the buffer and puts the cursor at zero.
    pub fn reset(&mut self)
        ensures
            final(self).buffer() == Seq::<u8>::empty(),
            final(self).position() == 0,
    {
        *self = StartCodeScanner::new();
    }
}

} // verus!
