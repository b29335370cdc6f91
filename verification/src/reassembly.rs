//! TCP stream reassembly: putting segments in sequence order and framing what is contiguous.
use crate::collections::sorted_keys;
use crate::framing::{flush_complete_messages, flushed};
use std::collections::BTreeMap;
use vstd::prelude::*;

verus! {

broadcast use vstd::std_specs::btree::group_btree_axioms;

/// A point in capture time, counted in nanoseconds.
#[derive(Debug, Clone, Copy, PartialEq, Eq, Structural)]
pub struct CaptureTime {
    pub nanos: u128,
}

impl CaptureTime {
    /// `secs` seconds and `nanos` nanoseconds.
    pub fn new(secs: u64, nanos: u32) -> (time: CaptureTime)
        ensures
            time.nanos == secs * 1_000_000_000 + nanos,
    {
        assert(secs * 1_000_000_000 + nanos <= 18446744073709551615 * 1_000_000_000 + 4294967295)
            by (nonlinear_arith)
            requires
                0 <= secs <= 18446744073709551615,
                0 <= nanos <= 4294967295,
        ;
        CaptureTime { nanos: secs as u128 * 1_000_000_000u128 + nanos as u128 }
    }

    /// The start of capture time.
    pub fn zero() -> (time: CaptureTime)
        ensures
            time.nanos == 0,
    {
        CaptureTime { nanos: 0 }
    }

    pub fn from_secs(secs: u64) -> (time: CaptureTime)
        ensures
            time.nanos == secs * 1_000_000_000,
    {
        CaptureTime::new(secs, 0)
    }

    /// Whether at least `span` has passed from `earlier` to this time.
    pub fn elapsed_since(self, earlier: CaptureTime, span: CaptureTime) -> (yes: bool)
        ensures
            yes == self.at_least_after(earlier, span),
    {
        let gap: u128 = if self.nanos > earlier.nanos {
            self.nanos - earlier.nanos
        } else {
            0
        };
        gap >= span.nanos
    }

    /// The gap from `earlier` to this time, none if time ran backwards, reaches `span`.
    pub open spec fn at_least_after(self, earlier: CaptureTime, span: CaptureTime) -> bool {
        (if self.nanos > earlier.nanos {
            self.nanos - earlier.nanos
        } else {
            0
        }) >= span.nanos
    }
}

/// Why a flow lost buffered bytes or a packet was not taken.
#[derive(Debug, Clone, Copy, PartialEq, Eq, Structural)]
pub enum ReassemblyError {
    Overflow,
    TotalOverflow,
    FlowLimit,
}

impl ReassemblyError {
    /// The text reported to the user.
    pub open spec fn text(self) -> &'static str {
        match self {
            ReassemblyError::Overflow => "flow exceeded max buffer",
            ReassemblyError::TotalOverflow => "capture exceeded max total buffer",
            ReassemblyError::FlowLimit => "capture exceeded max flow count",
        }
    }

    pub fn message(self) -> (text: &'static str)
        ensures
            text@ == self.text()@,
    {
        match self {
            ReassemblyError::Overflow => "flow exceeded max buffer",
            ReassemblyError::TotalOverflow => "capture exceeded max total buffer",
            ReassemblyError::FlowLimit => "capture exceeded max flow count",
        }
    }
}

/// One direction of a TCP connection.
#[derive(Debug)]
pub struct FlowState {
    /// The sequence number that continues `buffer`, once a segment was seen.
    pub next_seq: Option<u32>,
    /// Contiguous bytes that are not yet framed.
    pub buffer: Vec<u8>,
    /// Segments ahead of `next_seq`, by sequence number.
    pub pending: BTreeMap<u32, Vec<u8>>,
    pub last_seen: CaptureTime,
}

/// The mathematical content of a `FlowState`.
#[verifier::ext_equal]
pub struct FlowView {
    pub next_seq: Option<u32>,
    pub buffer: Seq<u8>,
    pub pending: Map<u32, Seq<u8>>,
    pub last_seen: CaptureTime,
}

pub open spec fn pending_view(pending: Map<u32, Vec<u8>>) -> Map<u32, Seq<u8>> {
    pending.map_values(|segment: Vec<u8>| segment@)
}

impl View for FlowState {
    type V = FlowView;

    open spec fn view(&self) -> FlowView {
        FlowView {
            next_seq: self.next_seq,
            buffer: self.buffer@,
            pending: pending_view(self.pending@),
            last_seen: self.last_seen,
        }
    }
}

/// The number of bytes in all the segments of `pending`.
pub open spec fn pending_bytes(pending: Map<u32, Seq<u8>>) -> nat
    decreases pending.dom().len(),
    when pending.dom().finite()
{
    if pending.dom().len() == 0 {
        0
    } else {
        let seq = pending.dom().choose();
        pending[seq].len() + pending_bytes(pending.remove(seq))
    }
}

pub proof fn lemma_pending_bytes_remove(pending: Map<u32, Seq<u8>>, key: u32)
    requires
        pending.dom().finite(),
        pending.contains_key(key),
    ensures
        pending_bytes(pending) == pending[key].len() + pending_bytes(pending.remove(key)),
    decreases pending.dom().len(),
{
    let first = pending.dom().choose();
    assert(pending.dom().contains(key));
    assert(pending.dom().len() > 0) by {
        if pending.dom().len() == 0 {
            pending.dom().lemma_len0_is_empty();
        }
    }
    assert(pending.dom().contains(first));
    if first != key {
        lemma_pending_bytes_remove(pending.remove(first), key);
        lemma_pending_bytes_remove(pending.remove(key), first);
        assert(pending.remove(first).remove(key) =~= pending.remove(key).remove(first));
    }
}

pub proof fn lemma_pending_bytes_insert(pending: Map<u32, Seq<u8>>, key: u32, segment: Seq<u8>)
    requires
        pending.dom().finite(),
        !pending.contains_key(key),
    ensures
        pending_bytes(pending.insert(key, segment)) == segment.len() + pending_bytes(pending),
{
    lemma_pending_bytes_remove(pending.insert(key, segment), key);
    assert(pending.insert(key, segment).remove(key) =~= pending);
}

impl FlowView {
    /// All the bytes that the flow holds.
    pub open spec fn bytes(self) -> nat {
        self.buffer.len() + pending_bytes(self.pending)
    }

    pub open spec fn emptied(self) -> FlowView {
        FlowView { next_seq: None, buffer: seq![], pending: Map::empty(), last_seen: self.last_seen }
    }
}

impl FlowState {
    pub fn new(last_seen: CaptureTime) -> (flow: FlowState)
        ensures
            flow@ == (FlowView {
                next_seq: None,
                buffer: seq![],
                pending: Map::empty(),
                last_seen,
            }),
    {
        let flow = FlowState { next_seq: None, buffer: Vec::new(), pending: BTreeMap::new(), last_seen };
        assert(flow@.pending =~= Map::empty());
        flow
    }
}

/// `sequence` lies ahead of `reference` in 32-bit serial number order.
pub open spec fn is_after(sequence: u32, reference: u32) -> bool {
    0 < (sequence - reference) % 0x1_0000_0000 < 0x8000_0000
}

/// The distance from `from` forward to `to` in 32-bit serial number arithmetic.
pub open spec fn distance(from: u32, to: u32) -> int {
    (to - from) % 0x1_0000_0000
}

pub open spec fn advance(sequence: u32, count: nat) -> u32 {
    ((sequence + count) % 0x1_0000_0000) as u32
}

pub fn sequence_after(sequence: u32, reference: u32) -> (yes: bool)
    ensures
        yes == is_after(sequence, reference),
{
    let gap: u32 = sequence.wrapping_sub(reference);
    assert(gap == (sequence - reference) % 0x1_0000_0000);
    gap > 0 && gap < 0x8000_0000
}

/// `sequence` moved forward by a byte count, modulo 2^32.
fn advance_by(sequence: u32, count: usize) -> (moved: u32)
    ensures
        moved == advance(sequence, count as nat),
{
    let step: u32 = (count as u64 % 0x1_0000_0000u64) as u32;
    let sum: u64 = sequence as u64 + step as u64;
    assert((sequence + count) % 0x1_0000_0000 == (sequence + (count as int
        % 0x1_0000_0000))
        % 0x1_0000_0000);
    (sum % 0x1_0000_0000u64) as u32
}

/// Appending a segment at or behind the expected position: overlap with bytes already
/// held is trimmed, and a segment that adds nothing leaves the flow as it is.
pub open spec fn appended(flow: FlowView, seq: u32, payload: Seq<u8>) -> FlowView {
    let expected = match flow.next_seq {
        Some(next) => next,
        None => seq,
    };
    let overlap = distance(seq, expected);
    if seq == expected {
        FlowView {
            buffer: flow.buffer + payload,
            next_seq: Some(advance(seq, payload.len())),
            ..flow
        }
    } else if !is_after(advance(seq, payload.len()), expected) || overlap >= payload.len() {
        flow
    } else {
        FlowView {
            buffer: flow.buffer + payload.skip(overlap),
            next_seq: Some(advance(expected, (payload.len() - overlap) as nat)),
            ..flow
        }
    }
}

/// Appends a segment that is not ahead of the expected position.
pub fn append_segment(flow: &mut FlowState, seq: u32, payload: &[u8])
    ensures
        final(flow)@ == appended(old(flow)@, seq, payload@),
        final(flow).pending == old(flow).pending,
{
    let expected: u32 = match flow.next_seq {
        Some(next) => next,
        None => seq,
    };
    let ghost before = flow@;
    if seq == expected {
        flow.buffer.extend_from_slice(payload);
        flow.next_seq = Some(advance_by(seq, payload.len()));
        assert(flow@ =~= appended(before, seq, payload@));
        return ;
    }
    let end: u32 = advance_by(seq, payload.len());
    if !sequence_after(end, expected) {
        return ;
    }
    let overlap: usize = expected.wrapping_sub(seq) as usize;
    assert(overlap == distance(seq, expected));
    if overlap >= payload.len() {
        return ;
    }
    let fresh = vstd::slice::slice_subrange(payload, overlap, payload.len());
    flow.buffer.extend_from_slice(fresh);
    flow.next_seq = Some(advance_by(expected, payload.len() - overlap));
    assert(fresh@ =~= payload@.skip(overlap as int));
    assert(flow@ =~= appended(before, seq, payload@));
}

/// Keeping a segment that lies ahead: of two with one sequence number, the longer stays.
pub open spec fn stored(flow: FlowView, seq: u32, payload: Seq<u8>) -> FlowView {
    if flow.pending.contains_key(seq) && payload.len() <= flow.pending[seq].len() {
        flow
    } else {
        FlowView { pending: flow.pending.insert(seq, payload), ..flow }
    }
}

fn to_vec(bytes: &[u8]) -> (copy: Vec<u8>)
    ensures
        copy@ == bytes@,
{
    let mut copy: Vec<u8> = Vec::new();
    copy.extend_from_slice(bytes);
    assert(copy@ =~= bytes@);
    copy
}

/// Keeps a segment that lies ahead of the expected position.
pub fn store_future_segment(flow: &mut FlowState, seq: u32, payload: &[u8])
    ensures
        final(flow)@ == stored(old(flow)@, seq, payload@),
{
    let ghost before = flow@;
    let keep_old: bool = match flow.pending.get(&seq) {
        Some(held) => payload.len() <= held.len(),
        None => false,
    };
    if !keep_old {
        let segment = to_vec(payload);
        flow.pending.insert(seq, segment);
        assert(flow@.pending =~= before.pending.insert(seq, payload@));
    }
}

/// The pending segment to take next: of those not ahead of `expected`, the one nearest to it.
pub open spec fn next_candidate(pending: Map<u32, Seq<u8>>, expected: u32, seq: u32) -> bool {
    &&& pending.contains_key(seq)
    &&& !is_after(seq, expected)
    &&& forall|other: u32| #[trigger]
        pending.contains_key(other) && !is_after(other, expected) ==> distance(seq, expected)
            <= distance(other, expected)
}

pub open spec fn has_candidate(pending: Map<u32, Seq<u8>>, expected: u32) -> bool {
    exists|seq: u32| #[trigger] next_candidate(pending, expected, seq)
}

/// Taking pending segments, nearest first, until every one left lies ahead.
pub open spec fn drained(flow: FlowView) -> FlowView
    decreases flow.pending.dom().len(),
    when flow.pending.dom().finite()
{
    match flow.next_seq {
        None => flow,
        Some(expected) => if has_candidate(flow.pending, expected) {
            let seq = choose|seq: u32| #[trigger] next_candidate(flow.pending, expected, seq);
            drained(
                appended(
                    FlowView { pending: flow.pending.remove(seq), ..flow },
                    seq,
                    flow.pending[seq],
                ),
            )
        } else {
            flow
        },
    }
}

pub proof fn lemma_candidate_unique(pending: Map<u32, Seq<u8>>, expected: u32, a: u32, b: u32)
    requires
        next_candidate(pending, expected, a),
        next_candidate(pending, expected, b),
    ensures
        a == b,
{
    assert(distance(a, expected) == distance(b, expected));
}

/// The pending segment nearest behind `expected`, if any is not ahead of it.
fn nearest_pending(pending: &BTreeMap<u32, Vec<u8>>, expected: u32) -> (found: Option<u32>)
    ensures
        match found {
            Some(seq) => next_candidate(pending_view(pending@), expected, seq),
            None => !has_candidate(pending_view(pending@), expected),
        },
{
    let ghost all = pending_view(pending@);
    let keys: Vec<u32> = sorted_keys(pending);
    let mut best: Option<u32> = None;
    let mut i: usize = 0;
    while i < keys.len()
        invariant
            0 <= i <= keys@.len(),
            all == pending_view(pending@),
            keys@.to_set() == pending@.dom(),
            match best {
                Some(seq) => {
                    &&& all.contains_key(seq)
                    &&& !is_after(seq, expected)
                    &&& forall|j: int|
                        0 <= j < i && !is_after(#[trigger] keys@[j], expected) ==> distance(
                            seq,
                            expected,
                        ) <= distance(keys@[j], expected)
                },
                None => forall|j: int| 0 <= j < i ==> is_after(#[trigger] keys@[j], expected),
            },
        decreases keys@.len() - i,
    {
        let candidate: u32 = keys[i];
        assert(keys@.to_set().contains(candidate));
        if !sequence_after(candidate, expected) {
            let gap: u32 = expected.wrapping_sub(candidate);
            let closer: bool = match best {
                Some(seq) => gap < expected.wrapping_sub(seq),
                None => true,
            };
            if closer {
                best = Some(candidate);
            }
        }
        i += 1;
    }
    proof {
        assert forall|other: u32| #[trigger] all.contains_key(other) implies exists|j: int|
            0 <= j < keys@.len() && #[trigger] keys@[j] == other by {
            assert(keys@.to_set().contains(other));
        }
        if best is None && has_candidate(all, expected) {
            let seq = choose|seq: u32| #[trigger] next_candidate(all, expected, seq);
            assert(all.contains_key(seq));
        }
    }
    best
}

/// Takes pending segments into the buffer until every one left lies ahead.
pub fn drain_pending_segments(flow: &mut FlowState)
    ensures
        final(flow)@ == drained(old(flow)@),
{
    let ghost goal = drained(flow@);
    loop
        invariant
            goal == drained(old(flow)@),
            drained(flow@) == goal,
        decreases flow.pending@.dom().len(),
    {
        let ghost before = flow@;
        assert(before.pending.dom() =~= flow.pending@.dom());
        let expected: u32 = match flow.next_seq {
            Some(expected) => expected,
            None => {
                return ;
            },
        };
        let seq: u32 = match nearest_pending(&flow.pending, expected) {
            Some(seq) => seq,
            None => {
                return ;
            },
        };
        proof {
            let picked = choose|s: u32| #[trigger] next_candidate(before.pending, expected, s);
            lemma_candidate_unique(before.pending, expected, seq, picked);
        }
        let taken = flow.pending.remove(&seq);
        if let Some(segment) = taken {
            assert(flow@ =~= FlowView { pending: before.pending.remove(seq), ..before });
            append_segment(flow, seq, segment.as_slice());
        }
    }
}

/// The bytes that a flow holds, framed or not.
pub fn buffered_bytes(flow: &FlowState) -> (count: usize)
    requires
        flow@.bytes() <= usize::MAX,
    ensures
        count == flow@.bytes(),
{
    let ghost all = flow@.pending;
    let ghost total = pending_bytes(all);
    let ghost mut left = all;
    let mut count: usize = flow.buffer.len();
    assert(all.dom() =~= flow.pending@.dom());
    let keys: Vec<u32> = sorted_keys(&flow.pending);
    let mut i: usize = 0;
    while i < keys.len()
        invariant
            0 <= i <= keys@.len(),
            all == pending_view(flow.pending@),
            total == pending_bytes(all),
            flow.buffer@.len() + total <= usize::MAX,
            keys@.to_set() == flow.pending@.dom(),
            keys@.no_duplicates(),
            left.dom().finite(),
            left.submap_of(all),
            forall|j: int| i <= j < keys@.len() ==> left.contains_key(#[trigger] keys@[j]),
            forall|j: int| 0 <= j < i ==> !left.contains_key(#[trigger] keys@[j]),
            count + pending_bytes(left) == flow.buffer@.len() + total,
        decreases keys@.len() - i,
    {
        let key: u32 = keys[i];
        proof {
            lemma_pending_bytes_remove(left, key);
        }
        if let Some(segment) = flow.pending.get(&key) {
            assert(left.contains_key(key) && all.contains_key(key));
            assert(left[key] == all[key] && all[key] == flow.pending@[key]@);
            count = count + segment.len();
        }
        proof {
            left = left.remove(key);
        }
        i += 1;
    }
    proof {
        assert(left.dom() =~= Set::empty()) by {
            assert forall|k: u32| !left.dom().contains(k) by {
                if left.dom().contains(k) {
                    assert(keys@.to_set().contains(k));
                }
            }
        }
    }
    count
}

/// Taking one segment: it is put in place, whatever became contiguous is drained, and then
/// either the flow is emptied because it holds too much or its complete messages are framed.
pub struct Reassembled {
    pub flow: FlowView,
    pub out: Seq<u8>,
    pub last: Seq<u8>,
    pub overflow: bool,
}

/// A segment ahead of the expected position waits; any other is appended.
pub open spec fn placed(flow: FlowView, seq: u32, payload: Seq<u8>) -> FlowView {
    let expected = match flow.next_seq {
        Some(next) => next,
        None => seq,
    };
    if is_after(seq, expected) {
        stored(flow, seq, payload)
    } else {
        appended(flow, seq, payload)
    }
}

pub open spec fn reassembled(
    flow: FlowView,
    seq: u32,
    payload: Seq<u8>,
    delimiter: u8,
    max_flow_bytes: usize,
    last: Seq<u8>,
) -> Reassembled {
    let full = drained(placed(flow, seq, payload));
    if full.bytes() > max_flow_bytes {
        Reassembled { flow: full.emptied(), out: seq![], last, overflow: true }
    } else {
        let framed = flushed(full.buffer, 0, delimiter, last);
        Reassembled {
            flow: FlowView { buffer: framed.rest, ..full },
            out: framed.out,
            last: framed.last,
            overflow: false,
        }
    }
}

proof fn lemma_appended_bytes(flow: FlowView, seq: u32, payload: Seq<u8>)
    ensures
        appended(flow, seq, payload).bytes() <= flow.bytes() + payload.len(),
        appended(flow, seq, payload).pending == flow.pending,
        appended(flow, seq, payload).last_seen == flow.last_seen,
{
}

/// Putting a segment in place adds at most its own bytes.
pub proof fn lemma_placed_bytes(flow: FlowView, seq: u32, payload: Seq<u8>)
    requires
        flow.pending.dom().finite(),
    ensures
        placed(flow, seq, payload).bytes() <= flow.bytes() + payload.len(),
        placed(flow, seq, payload).pending.dom().finite(),
        placed(flow, seq, payload).last_seen == flow.last_seen,
{
    if flow.pending.contains_key(seq) {
        lemma_pending_bytes_remove(flow.pending, seq);
        lemma_pending_bytes_insert(flow.pending.remove(seq), seq, payload);
        assert(flow.pending.remove(seq).insert(seq, payload) =~= flow.pending.insert(seq, payload));
    } else {
        lemma_pending_bytes_insert(flow.pending, seq, payload);
    }
}

/// Draining never adds bytes, and leaves no segment that could be taken.
pub proof fn lemma_drained(flow: FlowView)
    requires
        flow.pending.dom().finite(),
    ensures
        drained(flow).bytes() <= flow.bytes(),
        drained(flow).pending.submap_of(flow.pending),
        drained(flow).pending.dom().finite(),
        drained(flow).last_seen == flow.last_seen,
        drained(flow).next_seq matches Some(next) ==> !has_candidate(drained(flow).pending, next),
    decreases flow.pending.dom().len(),
{
    if let Some(expected) = flow.next_seq {
        if has_candidate(flow.pending, expected) {
            let seq = choose|seq: u32| #[trigger] next_candidate(flow.pending, expected, seq);
            lemma_pending_bytes_remove(flow.pending, seq);
            let without = FlowView { pending: flow.pending.remove(seq), ..flow };
            lemma_appended_bytes(without, seq, flow.pending[seq]);
            lemma_drained(appended(without, seq, flow.pending[seq]));
        }
    }
}

/// Takes one segment of a flow and writes the messages that it completes to `out`.
pub fn reassemble_and_emit_with_scratch(
    flow: &mut FlowState,
    seq: u32,
    payload: &[u8],
    delimiter: u8,
    max_flow_bytes: usize,
    scratch: &mut Vec<u8>,
    out: &mut Vec<u8>,
) -> (result: Result<(), ReassemblyError>)
    requires
        old(flow)@.bytes() + payload@.len() <= usize::MAX,
    ensures
        ({
            let r = reassembled(
                old(flow)@,
                seq,
                payload@,
                delimiter,
                max_flow_bytes,
                old(scratch)@,
            );
            &&& final(flow)@ == r.flow
            &&& final(out)@ == old(out)@ + r.out
            &&& final(scratch)@ == r.last
            &&& result == (if r.overflow {
                Err::<(), ReassemblyError>(ReassemblyError::Overflow)
            } else {
                Ok(())
            })
        }),
{
    let ghost before = flow@;
    assert(before.pending.dom() =~= flow.pending@.dom());
    proof {
        lemma_placed_bytes(before, seq, payload@);
        lemma_drained(placed(before, seq, payload@));
    }
    let expected: u32 = match flow.next_seq {
        Some(next) => next,
        None => seq,
    };
    if sequence_after(seq, expected) {
        store_future_segment(flow, seq, payload);
    } else {
        append_segment(flow, seq, payload);
    }
    drain_pending_segments(flow);
    let ghost full = flow@;
    if buffered_bytes(flow) > max_flow_bytes {
        flow.buffer.clear();
        flow.pending.clear();
        flow.next_seq = None;
        assert(flow@ =~= full.emptied());
        assert(out@ + Seq::<u8>::empty() =~= out@);
        return Err(ReassemblyError::Overflow);
    }
    flush_complete_messages(&mut flow.buffer, delimiter, scratch, out);
    assert(flow@ =~= FlowView {
        buffer: flushed(full.buffer, 0, delimiter, old(scratch)@).rest,
        ..full
    });
    Ok(())
}

/// `reassemble_and_emit_with_scratch` with a scratch buffer of its own.
pub fn reassemble_and_emit(
    flow: &mut FlowState,
    seq: u32,
    payload: &[u8],
    delimiter: u8,
    max_flow_bytes: usize,
    out: &mut Vec<u8>,
) -> (result: Result<(), ReassemblyError>)
    requires
        old(flow)@.bytes() + payload@.len() <= usize::MAX,
    ensures
        ({
            let r = reassembled(old(flow)@, seq, payload@, delimiter, max_flow_bytes, seq![]);
            &&& final(flow)@ == r.flow
            &&& final(out)@ == old(out)@ + r.out
            &&& result == (if r.overflow {
                Err::<(), ReassemblyError>(ReassemblyError::Overflow)
            } else {
                Ok(())
            })
        }),
{
    let mut scratch: Vec<u8> = Vec::new();
    reassemble_and_emit_with_scratch(
        flow,
        seq,
        payload,
        delimiter,
        max_flow_bytes,
        &mut scratch,
        out,
    )
}

} // verus!
