//! A flow gives the bytes that were sent, in whatever order and however often its segments
//! come.
use crate::framing::{flushed, law_framing_ignores_cuts};
use crate::reassembly::{
    advance, appended, distance, drained, has_candidate, is_after, next_candidate, pending_bytes,
    placed, reassembled, FlowView, Reassembled,
};
use crate::reassembly_laws::taken_in;
use vstd::prelude::*;

verus! {

/// A segment of a stream: where it starts, and how many bytes it has.
pub struct Cut {
    pub from: nat,
    pub len: nat,
}

impl Cut {
    /// The segment lies in the stream.
    pub open spec fn lies_in(self, sent: Seq<u8>) -> bool {
        self.from + self.len <= sent.len()
    }

    /// The bytes of the segment.
    pub open spec fn bytes(self, sent: Seq<u8>) -> Seq<u8> {
        sent.subrange(self.from as int, (self.from + self.len) as int)
    }

    /// The sequence number of the segment, where the stream starts at `base`.
    pub open spec fn number(self, base: u32) -> u32 {
        advance(base, self.from)
    }
}

/// Segments that wait are segments of the stream.
pub open spec fn waiting_are_sent(flow: FlowView, sent: Seq<u8>, base: u32) -> bool {
    &&& flow.pending.dom().finite()
    &&& forall|seq: u32| #[trigger]
        flow.pending.contains_key(seq) ==> exists|from: nat|
            seq == #[trigger] advance(base, from) && from + flow.pending[seq].len() <= sent.len()
                && flow.pending[seq] == sent.subrange(
                from as int,
                (from + flow.pending[seq].len()) as int,
            )
}

/// The flow has taken in the first `n` bytes of the stream, and all segments that wait lie
/// ahead of them.
pub open spec fn has_taken(flow: FlowView, sent: Seq<u8>, base: u32, n: nat) -> bool {
    &&& n <= sent.len() < 0x8000_0000
    &&& flow.next_seq == Some(advance(base, n))
    &&& waiting_are_sent(flow, sent, base)
    &&& forall|from: nat|
        from <= n ==> !flow.pending.contains_key(#[trigger] advance(base, from))
}

/// A segment has been taken in, or waits, in full.
pub open spec fn has_arrived(flow: FlowView, base: u32, n: nat, cut: Cut) -> bool {
    cut.from + cut.len <= n || (cut.from > n && flow.pending.contains_key(cut.number(base))
        && flow.pending[cut.number(base)].len() >= cut.len)
}

proof fn lemma_serial(base: u32, a: nat, b: nat)
    requires
        a < 0x8000_0000,
        b < 0x8000_0000,
    ensures
        is_after(advance(base, a), advance(base, b)) <==> a > b,
        advance(base, a) == advance(base, b) <==> a == b,
        a <= b ==> distance(advance(base, a), advance(base, b)) == b - a,
{
    let x = (base + a) % 0x1_0000_0000;
    let y = (base + b) % 0x1_0000_0000;
    assert(x == base + a || x == base + a - 0x1_0000_0000);
    assert(y == base + b || y == base + b - 0x1_0000_0000);
}

proof fn lemma_further(base: u32, a: nat, b: nat)
    ensures
        advance(advance(base, a), b) == advance(base, a + b),
{
    let sum = (base + a) as int;
    let wrap = 0x1_0000_0000int;
    vstd::arithmetic::div_mod::lemma_add_mod_noop(sum, b as int, wrap);
    vstd::arithmetic::div_mod::lemma_add_mod_noop(sum % wrap, b as int, wrap);
    vstd::arithmetic::div_mod::lemma_mod_twice(sum, wrap);
    assert(0 <= sum % wrap < wrap);
}

/// A segment that starts at or ahead of the expected byte is appended from that byte on.
proof fn lemma_appended(flow: FlowView, sent: Seq<u8>, base: u32, n: nat, cut: Cut) -> (m: nat)
    requires
        n <= sent.len() < 0x8000_0000,
        flow.next_seq == Some(advance(base, n)),
        cut.lies_in(sent),
        cut.from <= n,
    ensures
        m == if cut.from + cut.len > n {
            cut.from + cut.len
        } else {
            n
        },
        appended(flow, cut.number(base), cut.bytes(sent)) == (FlowView {
            buffer: flow.buffer + sent.subrange(n as int, m as int),
            next_seq: Some(advance(base, m)),
            ..flow
        }),
{
    let end = cut.from + cut.len;
    let m = if end > n {
        end
    } else {
        n
    };
    let seq = cut.number(base);
    let payload = cut.bytes(sent);
    lemma_serial(base, cut.from, n);
    lemma_serial(base, end, n);
    lemma_further(base, cut.from, cut.len);
    let after = appended(flow, seq, payload);
    let overlap = distance(seq, advance(base, n));
    assert(overlap == n - cut.from);
    if cut.from == n {
        assert(payload =~= sent.subrange(n as int, m as int));
    } else if end <= n {
        assert(sent.subrange(n as int, n as int) =~= seq![]);
        assert(flow.buffer + seq![] =~= flow.buffer);
    } else {
        assert(payload.skip(overlap) =~= sent.subrange(n as int, end as int));
        lemma_further(base, n, (end - n) as nat);
    }
    m
}

/// All segments that can be taken in are taken in.
proof fn lemma_drained(flow: FlowView, sent: Seq<u8>, base: u32, n: nat) -> (m: nat)
    requires
        n <= sent.len() < 0x8000_0000,
        flow.next_seq == Some(advance(base, n)),
        waiting_are_sent(flow, sent, base),
    ensures
        n <= m,
        has_taken(drained(flow), sent, base, m),
        drained(flow).buffer == flow.buffer + sent.subrange(n as int, m as int),
        drained(flow).last_seen == flow.last_seen,
        forall|from: nat|
            from < 0x8000_0000 && flow.pending.contains_key(#[trigger] advance(base, from)) ==> {
                let len = flow.pending[advance(base, from)].len();
                from + len <= m || (from > m && drained(flow).pending.contains_key(
                    advance(base, from),
                ) && drained(flow).pending[advance(base, from)].len() >= len)
            },
    decreases flow.pending.dom().len(),
{
    let expected = advance(base, n);
    if has_candidate(flow.pending, expected) {
        let seq = choose|seq: u32| #[trigger] next_candidate(flow.pending, expected, seq);
        let payload = flow.pending[seq];
        let from = choose|from: nat|
            seq == #[trigger] advance(base, from) && from + payload.len() <= sent.len() && payload
                == sent.subrange(from as int, (from + payload.len()) as int);
        let cut = Cut { from, len: payload.len() };
        lemma_serial(base, from, n);
        let rest = FlowView { pending: flow.pending.remove(seq), ..flow };
        let k = lemma_appended(rest, sent, base, n, cut);
        let next = appended(rest, seq, payload);
        assert forall|s: u32| #[trigger] next.pending.contains_key(s) implies exists|f: nat|
            s == #[trigger] advance(base, f) && f + next.pending[s].len() <= sent.len()
                && next.pending[s] == sent.subrange(
                f as int,
                (f + next.pending[s].len()) as int,
            ) by {
            assert(flow.pending.contains_key(s));
            let f = choose|f: nat|
                s == #[trigger] advance(base, f) && f + flow.pending[s].len() <= sent.len()
                    && flow.pending[s] == sent.subrange(
                    f as int,
                    (f + flow.pending[s].len()) as int,
                );
            assert(s == advance(base, f));
        }
        let m = lemma_drained(next, sent, base, k);
        assert(sent.subrange(n as int, k as int) + sent.subrange(k as int, m as int)
            =~= sent.subrange(n as int, m as int));
        assert(flow.buffer + sent.subrange(n as int, k as int) + sent.subrange(k as int, m as int)
            =~= flow.buffer + sent.subrange(n as int, m as int));
        assert forall|f: nat|
            f < 0x8000_0000 && flow.pending.contains_key(#[trigger] advance(base, f)) implies {
            let len = flow.pending[advance(base, f)].len();
            f + len <= m || (f > m && drained(flow).pending.contains_key(advance(base, f))
                && drained(flow).pending[advance(base, f)].len() >= len)
        } by {
            lemma_serial(base, f, from);
            if advance(base, f) != seq {
                assert(next.pending.contains_key(advance(base, f)));
            }
        }
        m
    } else {
        assert(sent.subrange(n as int, n as int) =~= seq![]);
        assert(flow.buffer + seq![] =~= flow.buffer);
        assert forall|from: nat|
            from <= n implies !flow.pending.contains_key(#[trigger] advance(base, from)) by {
            if flow.pending.contains_key(advance(base, from)) {
                lemma_no_candidate(flow, base, n, from);
            }
        }
        assert forall|from: nat|
            from < 0x8000_0000 && flow.pending.contains_key(#[trigger] advance(base, from)) implies {
            let len = flow.pending[advance(base, from)].len();
            from + len <= n || (from > n && flow.pending.contains_key(advance(base, from))
                && flow.pending[advance(base, from)].len() >= len)
        } by {
            if from <= n {
                lemma_no_candidate(flow, base, n, from);
            }
        }
        n
    }
}

/// Where some segment could be taken in, one of them is nearest.
proof fn lemma_no_candidate(flow: FlowView, base: u32, n: nat, from: nat)
    requires
        flow.pending.dom().finite(),
        from <= n < 0x8000_0000,
        flow.pending.contains_key(advance(base, from)),
    ensures
        has_candidate(flow.pending, advance(base, n)),
    decreases n - from,
{
    let expected = advance(base, n);
    let seq = advance(base, from);
    lemma_serial(base, from, n);
    if !next_candidate(flow.pending, expected, seq) {
        let other = choose|other: u32| #[trigger]
            flow.pending.contains_key(other) && !is_after(other, expected) && distance(
                seq,
                expected,
            ) > distance(other, expected);
        let gap = distance(other, expected);
        let near = (n - gap) as nat;
        assert(advance(base, near) == other) by {
            lemma_back(base, n, other);
        }
        lemma_no_candidate(flow, base, n, near);
    }
}

proof fn lemma_back(base: u32, n: nat, other: u32)
    requires
        distance(other, advance(base, n)) <= n < 0x8000_0000,
    ensures
        advance(base, (n - distance(other, advance(base, n))) as nat) == other,
{
    let y = (base + n) % 0x1_0000_0000;
    let gap = (y - other) % 0x1_0000_0000;
    assert(y == base + n || y == base + n - 0x1_0000_0000);
    assert(gap == y - other || gap == y - other + 0x1_0000_0000);
}

/// A segment of the stream, come when it may, brings the flow as far as the bytes that are
/// there reach: what is taken in is always a beginning of the stream, the segment is either
/// taken in or waits, and no segment that came before is lost.
pub proof fn law_segments_extend_the_stream(
    flow: FlowView,
    sent: Seq<u8>,
    base: u32,
    n: nat,
    cut: Cut,
) -> (m: nat)
    requires
        has_taken(flow, sent, base, n),
        cut.lies_in(sent),
    ensures
        n <= m,
        has_taken(taken_in(flow, cut.number(base), cut.bytes(sent)), sent, base, m),
        taken_in(flow, cut.number(base), cut.bytes(sent)).buffer == flow.buffer + sent.subrange(
            n as int,
            m as int,
        ),
        has_arrived(taken_in(flow, cut.number(base), cut.bytes(sent)), base, m, cut),
        forall|other: Cut|
            other.lies_in(sent) && #[trigger] has_arrived(flow, base, n, other) ==> has_arrived(
                taken_in(flow, cut.number(base), cut.bytes(sent)),
                base,
                m,
                other,
            ),
{
    let seq = cut.number(base);
    let payload = cut.bytes(sent);
    lemma_serial(base, cut.from, n);
    let next = placed(flow, seq, payload);
    let after = taken_in(flow, seq, payload);
    if cut.from > n {
        assert forall|s: u32| #[trigger] next.pending.contains_key(s) implies exists|f: nat|
            s == #[trigger] advance(base, f) && f + next.pending[s].len() <= sent.len()
                && next.pending[s] == sent.subrange(
                f as int,
                (f + next.pending[s].len()) as int,
            ) by {
            if s == seq && next.pending[s] == payload {
                assert(s == advance(base, cut.from));
            } else {
                assert(flow.pending.contains_key(s));
                let f = choose|f: nat|
                    s == #[trigger] advance(base, f) && f + flow.pending[s].len() <= sent.len()
                        && flow.pending[s] == sent.subrange(
                        f as int,
                        (f + flow.pending[s].len()) as int,
                    );
                assert(s == advance(base, f));
            }
        }
        let m = lemma_drained(next, sent, base, n);
        assert(next.pending.contains_key(advance(base, cut.from)));
        assert forall|other: Cut|
            other.lies_in(sent) && #[trigger] has_arrived(flow, base, n, other) implies has_arrived(
            after,
            base,
            m,
            other,
        ) by {
            if other.from + other.len > n {
                assert(next.pending.contains_key(advance(base, other.from)));
            }
        }
        m
    } else {
        let k = lemma_appended(flow, sent, base, n, cut);
        let m = lemma_drained(next, sent, base, k);
        assert(flow.buffer + sent.subrange(n as int, k as int) + sent.subrange(k as int, m as int)
            =~= flow.buffer + sent.subrange(n as int, m as int));
        assert forall|other: Cut|
            other.lies_in(sent) && #[trigger] has_arrived(flow, base, n, other) implies has_arrived(
            after,
            base,
            m,
            other,
        ) by {
            if other.from + other.len > n {
                assert(next.pending.contains_key(advance(base, other.from)));
            }
        }
        m
    }
}

/// The flow after segments, taken in one after the other.
pub open spec fn after_cuts(flow: FlowView, sent: Seq<u8>, base: u32, cuts: Seq<Cut>) -> FlowView
    decreases cuts.len(),
{
    if cuts.len() == 0 {
        flow
    } else {
        taken_in(
            after_cuts(flow, sent, base, cuts.drop_last()),
            cuts.last().number(base),
            cuts.last().bytes(sent),
        )
    }
}

/// A byte of the stream is in one of the segments.
pub open spec fn is_covered(cuts: Seq<Cut>, at: nat) -> bool {
    exists|i: int|
        0 <= i < cuts.len() && (#[trigger] cuts[i]).from <= at && at < cuts[i].from + cuts[i].len
}

proof fn lemma_cuts(flow: FlowView, sent: Seq<u8>, base: u32, cuts: Seq<Cut>) -> (n: nat)
    requires
        has_taken(flow, sent, base, 0),
        forall|i: int| 0 <= i < cuts.len() ==> (#[trigger] cuts[i]).lies_in(sent),
    ensures
        has_taken(after_cuts(flow, sent, base, cuts), sent, base, n),
        after_cuts(flow, sent, base, cuts).buffer == flow.buffer + sent.subrange(0, n as int),
        forall|i: int|
            0 <= i < cuts.len() ==> has_arrived(
                after_cuts(flow, sent, base, cuts),
                base,
                n,
                #[trigger] cuts[i],
            ),
    decreases cuts.len(),
{
    if cuts.len() == 0 {
        assert(sent.subrange(0, 0) =~= seq![]);
        assert(flow.buffer + seq![] =~= flow.buffer);
        0
    } else {
        let shorter = cuts.drop_last();
        assert forall|i: int| 0 <= i < shorter.len() implies (#[trigger] shorter[i]).lies_in(
            sent,
        ) by {
            assert(shorter[i] == cuts[i]);
        }
        let k = lemma_cuts(flow, sent, base, shorter);
        let before = after_cuts(flow, sent, base, shorter);
        assert(cuts[cuts.len() - 1] == cuts.last());
        let n = law_segments_extend_the_stream(before, sent, base, k, cuts.last());
        assert(flow.buffer + sent.subrange(0, k as int) + sent.subrange(k as int, n as int)
            =~= flow.buffer + sent.subrange(0, n as int));
        assert forall|i: int| 0 <= i < cuts.len() implies has_arrived(
            after_cuts(flow, sent, base, cuts),
            base,
            n,
            #[trigger] cuts[i],
        ) by {
            if i < shorter.len() {
                assert(shorter[i] == cuts[i]);
                assert(has_arrived(before, base, k, shorter[i]));
            }
        }
        n
    }
}

/// Segments give the stream that was sent, in whatever order they come, cut as they may be,
/// overlapping and repeated: once every byte has come in one of them, all bytes are there, in
/// their order and each once. That holds for any stretch of fewer than 2^31 bytes, wherever
/// the sequence numbers start over.
pub proof fn law_segments_give_the_stream(
    flow: FlowView,
    sent: Seq<u8>,
    base: u32,
    cuts: Seq<Cut>,
)
    requires
        sent.len() < 0x8000_0000,
        flow.next_seq == Some(base),
        flow.pending =~= Map::empty(),
        forall|i: int| 0 <= i < cuts.len() ==> (#[trigger] cuts[i]).lies_in(sent),
        forall|at: nat| at < sent.len() ==> #[trigger] is_covered(cuts, at),
    ensures
        after_cuts(flow, sent, base, cuts).buffer == flow.buffer + sent,
        after_cuts(flow, sent, base, cuts).next_seq == Some(advance(base, sent.len())),
{
    assert(advance(base, 0) == base);
    assert(has_taken(flow, sent, base, 0));
    let n = lemma_cuts(flow, sent, base, cuts);
    if n < sent.len() {
        assert(is_covered(cuts, n));
        let i = choose|i: int|
            0 <= i < cuts.len() && (#[trigger] cuts[i]).from <= n && n < cuts[i].from
                + cuts[i].len;
        assert(has_arrived(after_cuts(flow, sent, base, cuts), base, n, cuts[i]));
    }
    assert(sent.subrange(0, n as int) =~= sent);
}

/// The first segment of a flow opens it: its bytes are taken in, and what follows it is
/// expected next.
pub proof fn law_first_segment_opens_the_flow(flow: FlowView, seq: u32, payload: Seq<u8>)
    requires
        flow.next_seq is None,
        flow.pending =~= Map::empty(),
    ensures
        taken_in(flow, seq, payload).buffer == flow.buffer + payload,
        taken_in(flow, seq, payload).next_seq == Some(advance(seq, payload.len())),
        taken_in(flow, seq, payload).pending == flow.pending,
{
    let next = placed(flow, seq, payload);
    assert(!is_after(seq, seq));
    if has_candidate(next.pending, advance(seq, payload.len())) {
        let s = choose|s: u32| #[trigger]
            next_candidate(next.pending, advance(seq, payload.len()), s);
        assert(next.pending.contains_key(s));
    }
}

/// What segments give, handled one after the other: the flow, all that was written, and the
/// message that was written last. Whether the flow ever held more than it may is told too.
pub open spec fn handled_cuts(
    flow: FlowView,
    sent: Seq<u8>,
    base: u32,
    cuts: Seq<Cut>,
    d: u8,
    max_flow_bytes: usize,
    last: Seq<u8>,
) -> Reassembled
    decreases cuts.len(),
{
    if cuts.len() == 0 {
        Reassembled { flow, out: seq![], last, overflow: false }
    } else {
        let before = handled_cuts(flow, sent, base, cuts.drop_last(), d, max_flow_bytes, last);
        let step = reassembled(
            before.flow,
            cuts.last().number(base),
            cuts.last().bytes(sent),
            d,
            max_flow_bytes,
            before.last,
        );
        Reassembled {
            flow: step.flow,
            out: before.out + step.out,
            last: step.last,
            overflow: before.overflow || step.overflow,
        }
    }
}

proof fn lemma_handled_cuts(
    flow: FlowView,
    sent: Seq<u8>,
    base: u32,
    cuts: Seq<Cut>,
    d: u8,
    max_flow_bytes: usize,
    last: Seq<u8>,
) -> (n: nat)
    requires
        has_taken(flow, sent, base, 0),
        flow.buffer.len() == 0,
        forall|i: int| 0 <= i < cuts.len() ==> (#[trigger] cuts[i]).lies_in(sent),
        !handled_cuts(flow, sent, base, cuts, d, max_flow_bytes, last).overflow,
    ensures
        ({
            let after = handled_cuts(flow, sent, base, cuts, d, max_flow_bytes, last);
            let framed = flushed(sent.take(n as int), 0, d, last);
            &&& has_taken(after.flow, sent, base, n)
            &&& after.out == framed.out
            &&& after.last == framed.last
            &&& after.flow.buffer == framed.rest
            &&& forall|i: int|
                0 <= i < cuts.len() ==> has_arrived(after.flow, base, n, #[trigger] cuts[i])
        }),
    decreases cuts.len(),
{
    let after = handled_cuts(flow, sent, base, cuts, d, max_flow_bytes, last);
    if cuts.len() == 0 {
        assert(sent.take(0) =~= seq![]);
        assert(flow.buffer =~= seq![]);
        0
    } else {
        let shorter = cuts.drop_last();
        let cut = cuts.last();
        assert forall|i: int| 0 <= i < shorter.len() implies (#[trigger] shorter[i]).lies_in(
            sent,
        ) by {
            assert(shorter[i] == cuts[i]);
        }
        assert(cuts[cuts.len() - 1] == cut);
        let before = handled_cuts(flow, sent, base, shorter, d, max_flow_bytes, last);
        let k = lemma_handled_cuts(flow, sent, base, shorter, d, max_flow_bytes, last);
        let n = law_segments_extend_the_stream(before.flow, sent, base, k, cut);
        let full = taken_in(before.flow, cut.number(base), cut.bytes(sent));
        let a = sent.take(k as int);
        let b = sent.subrange(k as int, n as int);
        law_framing_ignores_cuts(a, b, d, last);
        assert(a + b =~= sent.take(n as int));
        assert(full.buffer == flushed(a, 0, d, last).rest + b);
        assert forall|i: int| 0 <= i < cuts.len() implies has_arrived(
            after.flow,
            base,
            n,
            #[trigger] cuts[i],
        ) by {
            if i < shorter.len() {
                assert(shorter[i] == cuts[i]);
                assert(has_arrived(before.flow, base, k, shorter[i]));
                assert(has_arrived(full, base, n, shorter[i]));
            } else {
                assert(has_arrived(full, base, n, cut));
            }
        }
        n
    }
}

/// Whatever the order of the segments and however they are cut, what is written of a stream is
/// what is framed of the whole of it, as long as the flow never holds more than it may.
pub proof fn law_segments_give_the_messages(
    flow: FlowView,
    sent: Seq<u8>,
    base: u32,
    cuts: Seq<Cut>,
    d: u8,
    max_flow_bytes: usize,
    last: Seq<u8>,
)
    requires
        sent.len() < 0x8000_0000,
        flow.next_seq == Some(base),
        flow.pending =~= Map::empty(),
        flow.buffer.len() == 0,
        forall|i: int| 0 <= i < cuts.len() ==> (#[trigger] cuts[i]).lies_in(sent),
        forall|at: nat| at < sent.len() ==> #[trigger] is_covered(cuts, at),
        !handled_cuts(flow, sent, base, cuts, d, max_flow_bytes, last).overflow,
    ensures
        handled_cuts(flow, sent, base, cuts, d, max_flow_bytes, last).out == flushed(
            sent,
            0,
            d,
            last,
        ).out,
        handled_cuts(flow, sent, base, cuts, d, max_flow_bytes, last).flow.buffer == flushed(
            sent,
            0,
            d,
            last,
        ).rest,
{
    assert(advance(base, 0) == base);
    assert(has_taken(flow, sent, base, 0));
    let n = lemma_handled_cuts(flow, sent, base, cuts, d, max_flow_bytes, last);
    if n < sent.len() {
        assert(is_covered(cuts, n));
        let i = choose|i: int|
            0 <= i < cuts.len() && (#[trigger] cuts[i]).from <= n && n < cuts[i].from
                + cuts[i].len;
        assert(has_arrived(
            handled_cuts(flow, sent, base, cuts, d, max_flow_bytes, last).flow,
            base,
            n,
            cuts[i],
        ));
    }
    assert(sent.take(n as int) =~= sent);
}

/// A flow is given up where, with the segment taken in, it holds more than it may: then it is
/// emptied and nothing is written. Up to the limit all that is held stays.
pub proof fn law_overfull_flows_are_emptied(
    flow: FlowView,
    seq: u32,
    payload: Seq<u8>,
    d: u8,
    max_flow_bytes: usize,
    last: Seq<u8>,
)
    ensures
        ({
            let full = taken_in(flow, seq, payload);
            let after = reassembled(flow, seq, payload, d, max_flow_bytes, last);
            let held = full.buffer.len() + pending_bytes(full.pending);
            &&& after.overflow == (held > max_flow_bytes)
            &&& held > max_flow_bytes ==> {
                &&& after.out.len() == 0
                &&& after.flow.buffer.len() == 0
                &&& after.flow.pending.dom() =~= Set::empty()
                &&& after.flow.next_seq is None
            }
            &&& held <= max_flow_bytes ==> after.flow.pending == full.pending
                && after.flow.next_seq == full.next_seq
        }),
{
}

} // verus!
