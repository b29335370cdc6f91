//! What holds of the bytes of a flow, however its segments are cut and ordered.
use crate::framing::{
    begins_at, flushed, lemma_flushed_shift, lemma_message_end_extend, lemma_next_begin,
    message_end, next_begin, Flushed, MessageEnd,
};
use crate::reassembly::{
    advance, appended, distance, drained, has_candidate, is_after, lemma_candidate_unique,
    next_candidate, placed, stored, FlowView,
};
use vstd::prelude::*;

verus! {

/// The flow once a segment is put in place, and with it what had waited for it.
pub open spec fn taken_in(flow: FlowView, seq: u32, payload: Seq<u8>) -> FlowView {
    drained(placed(flow, seq, payload))
}

/// Bytes are expected at a position, and all segments that wait lie ahead of it.
pub open spec fn settled(flow: FlowView, expected: u32) -> bool {
    &&& flow.next_seq == Some(expected)
    &&& flow.pending.dom().finite()
    &&& forall|seq: u32| #[trigger] flow.pending.contains_key(seq) ==> is_after(seq, expected)
}

proof fn lemma_advance_twice(seq: u32, m: nat, n: nat)
    ensures
        advance(advance(seq, m), n) == advance(seq, m + n),
{
    let sum = (seq + m) as int;
    let wrap = 0x1_0000_0000int;
    vstd::arithmetic::div_mod::lemma_add_mod_noop(sum, n as int, wrap);
    vstd::arithmetic::div_mod::lemma_add_mod_noop(sum % wrap, n as int, wrap);
    vstd::arithmetic::div_mod::lemma_mod_twice(sum, wrap);
    assert(0 <= sum % wrap < wrap);
}

proof fn lemma_nothing_waits(flow: FlowView, expected: u32)
    requires
        settled(flow, expected),
    ensures
        drained(flow) == flow,
{
    if has_candidate(flow.pending, expected) {
        let seq = choose|seq: u32| #[trigger] next_candidate(flow.pending, expected, seq);
        assert(is_after(seq, expected));
    }
}

proof fn lemma_advance_is_after(seq: u32, n: nat)
    requires
        0 < n < 0x8000_0000,
    ensures
        is_after(advance(seq, n), seq),
{
}

/// The one segment that waits is taken in when it is its turn.
proof fn lemma_waiting_is_taken(flow: FlowView, expected: u32, payload: Seq<u8>)
    requires
        flow.next_seq == Some(expected),
        flow.pending == Map::<u32, Seq<u8>>::empty().insert(expected, payload),
    ensures
        drained(flow) == appended(
            FlowView { pending: flow.pending.remove(expected), ..flow },
            expected,
            payload,
        ),
{
    let rest = FlowView { pending: flow.pending.remove(expected), ..flow };
    assert(rest.pending =~= Map::empty());
    assert(flow.pending.dom() =~= Set::empty().insert(expected));
    assert(next_candidate(flow.pending, expected, expected));
    let seq = choose|seq: u32| #[trigger] next_candidate(flow.pending, expected, seq);
    lemma_candidate_unique(flow.pending, expected, expected, seq);
    let taken = appended(rest, expected, payload);
    lemma_nothing_waits(taken, advance(expected, payload.len()));
}

/// A segment that brings no byte beyond those taken in changes nothing: bytes that are sent
/// again are not taken in again.
pub proof fn law_retransmission_changes_nothing(
    flow: FlowView,
    expected: u32,
    seq: u32,
    payload: Seq<u8>,
)
    requires
        settled(flow, expected),
        distance(seq, expected) < 0x8000_0000,
        payload.len() <= distance(seq, expected),
    ensures
        taken_in(flow, seq, payload) == flow,
{
    assert(!is_after(seq, expected)) by {
        if seq != expected {
            assert((seq - expected) % 0x1_0000_0000 == 0x1_0000_0000 - distance(seq, expected));
        }
    }
    if seq == expected {
        assert(payload.len() == 0);
        assert(flow.buffer + payload =~= flow.buffer);
    }
    assert(appended(flow, seq, payload) == flow);
    lemma_nothing_waits(flow, expected);
}

/// Bytes that arrive in order are taken in alike in one segment or in two.
pub proof fn law_cuts_do_not_matter(flow: FlowView, expected: u32, a: Seq<u8>, b: Seq<u8>)
    requires
        settled(flow, expected),
        flow.pending =~= Map::empty(),
    ensures
        taken_in(taken_in(flow, expected, a), advance(expected, a.len()), b) == taken_in(
            flow,
            expected,
            a + b,
        ),
{
    let middle = advance(expected, a.len());
    let last = advance(middle, b.len());
    lemma_advance_twice(expected, a.len(), b.len());
    assert((a + b).len() == a.len() + b.len());
    let first = appended(flow, expected, a);
    assert(placed(flow, expected, a) == first);
    lemma_nothing_waits(first, middle);
    let second = appended(first, middle, b);
    assert(placed(first, middle, b) == second);
    lemma_nothing_waits(second, last);
    let whole = appended(flow, expected, a + b);
    assert(placed(flow, expected, a + b) == whole);
    lemma_nothing_waits(whole, last);
    assert(second.buffer =~= whole.buffer);
    assert(second == whole);
}

/// A segment that comes ahead of the one before it waits: once that arrives, both are taken
/// in as if they had come in order.
pub proof fn law_order_of_arrival_does_not_matter(
    flow: FlowView,
    expected: u32,
    a: Seq<u8>,
    b: Seq<u8>,
)
    requires
        settled(flow, expected),
        flow.pending =~= Map::empty(),
        0 < a.len() < 0x8000_0000,
    ensures
        taken_in(taken_in(flow, advance(expected, a.len()), b), expected, a) == taken_in(
            flow,
            expected,
            a + b,
        ),
{
    let middle = advance(expected, a.len());
    let last = advance(middle, b.len());
    lemma_advance_is_after(expected, a.len());
    let waiting = stored(flow, middle, b);
    assert(placed(flow, middle, b) == waiting);
    assert(waiting.pending =~= Map::empty().insert(middle, b));
    lemma_nothing_waits(waiting, expected);
    let first = appended(waiting, expected, a);
    assert(placed(waiting, expected, a) == first);
    let second = appended(FlowView { pending: first.pending.remove(middle), ..first }, middle, b);
    lemma_waiting_is_taken(first, middle, b);
    let direct = appended(flow, expected, a);
    assert(placed(flow, expected, a) == direct);
    lemma_nothing_waits(direct, middle);
    assert(placed(direct, middle, b) == appended(direct, middle, b));
    lemma_nothing_waits(appended(direct, middle, b), last);
    assert(first.pending.remove(middle) =~= flow.pending);
    assert(second == appended(direct, middle, b));
    law_cuts_do_not_matter(flow, expected, a, b);
}

/// A whole message comes out as it was sent, on a line of its own, and whatever follows it is
/// framed as if it stood alone.
pub proof fn law_messages_come_out_whole(msg: Seq<u8>, rest: Seq<u8>, d: u8, last: Seq<u8>)
    requires
        msg.len() + rest.len() <= usize::MAX,
        begins_at(msg, 0),
        message_end(msg, d) == MessageEnd::Complete((msg.len() - 1) as usize),
    ensures
        flushed(msg + rest, 0, d, last) == ({
            let line = msg.push(0x0a);
            let later = flushed(rest, 0, d, line);
            Flushed { out: line + later.out, rest: later.rest, last: later.last }
        }),
{
    let all = msg + rest;
    let n = msg.len() as int;
    assert(begins_at(all, 0));
    lemma_next_begin(all, 0);
    assert(next_begin(all, 0) == 0);
    assert(all.skip(0) =~= all);
    lemma_message_end_extend(msg, rest, d);
    assert(all.subrange(0, n) =~= msg);
    lemma_flushed_shift(all, n, 0, d, msg.push(0x0a));
    assert(all.skip(n) =~= rest);
}

} // verus!
