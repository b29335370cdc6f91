//! What holds of the flows of a capture from packet to packet.
use crate::flows::{
    fresh_flow, handled, holds, kept, lemma_rank, ordered, rank, CaptureOptions,
    FlowCell, FlowKey, PacketWork, Step,
};
use crate::reassembly::{reassembled, CaptureTime, FlowView};
use vstd::prelude::*;

verus! {

/// The flows hold a cell for the key.
pub open spec fn listed(flows: Seq<FlowCell>, key: FlowKey) -> bool {
    exists|i: int| 0 <= i < flows.len() && (#[trigger] flows[i]).0 == key
}

/// The flow of a key, where there is one.
pub open spec fn is_flow(flows: Seq<FlowCell>, key: FlowKey, flow: FlowView) -> bool {
    exists|i: int| 0 <= i < flows.len() && #[trigger] flows[i] == (key, flow)
}

proof fn lemma_listed(flows: Seq<FlowCell>, key: FlowKey)
    requires
        ordered(flows),
    ensures
        holds(flows, key) <==> listed(flows, key),
        0 <= rank(flows, key) <= flows.len(),
{
    lemma_rank(flows, key);
    if holds(flows, key) {
        assert(flows[rank(flows, key)].0 == key);
    }
}

proof fn lemma_before(a: FlowKey, b: FlowKey)
    ensures
        a.before(b) || b.before(a) || a == b,
        !(a.before(b) && b.before(a)),
        !a.before(a),
{
}

proof fn lemma_without(flows: Seq<FlowCell>, key: FlowKey)
    requires
        ordered(flows),
        holds(flows, key),
    ensures
        ordered(flows.remove(rank(flows, key))),
        !listed(flows.remove(rank(flows, key)), key),
        forall|other: FlowKey, flow: FlowView|
            other != key ==> (#[trigger] is_flow(flows.remove(rank(flows, key)), other, flow)
                <==> is_flow(flows, other, flow)),
{
    let at = rank(flows, key);
    let now = flows.remove(at);
    lemma_rank(flows, key);
    assert forall|i: int, j: int| 0 <= i < j < now.len() implies (#[trigger] now[i]).0.before(
        (#[trigger] now[j]).0,
    ) by {
        let a = if i < at {
            i
        } else {
            i + 1
        };
        let b = if j < at {
            j
        } else {
            j + 1
        };
        assert(flows[a].0.before(flows[b].0));
    }
    assert forall|i: int| 0 <= i < now.len() implies (#[trigger] now[i]).0 != key by {
        let a = if i < at {
            i
        } else {
            i + 1
        };
        assert(now[i] == flows[a]);
    }
    assert forall|other: FlowKey, flow: FlowView| other != key implies (#[trigger] is_flow(
        now,
        other,
        flow,
    ) <==> is_flow(flows, other, flow)) by {
        if is_flow(now, other, flow) {
            let i = choose|i: int| 0 <= i < now.len() && #[trigger] now[i] == (other, flow);
            let a = if i < at {
                i
            } else {
                i + 1
            };
            assert(flows[a] == (other, flow));
        }
        if is_flow(flows, other, flow) {
            let i = choose|i: int| 0 <= i < flows.len() && #[trigger] flows[i] == (other, flow);
            let a = if i < at {
                i
            } else {
                i - 1
            };
            assert(now[a] == (other, flow));
        }
    }
}

proof fn lemma_with(flows: Seq<FlowCell>, cell: FlowCell)
    requires
        ordered(flows),
        !holds(flows, cell.0),
    ensures
        ({
            let now = flows.insert(rank(flows, cell.0), cell);
            &&& ordered(now)
            &&& holds(now, cell.0)
            &&& now[rank(now, cell.0)] == cell
            &&& forall|other: FlowKey, flow: FlowView|
                other != cell.0 ==> (#[trigger] is_flow(now, other, flow) <==> is_flow(
                    flows,
                    other,
                    flow,
                ))
        }),
{
    let at = rank(flows, cell.0);
    let now = flows.insert(at, cell);
    lemma_rank(flows, cell.0);
    assert forall|i: int| 0 <= i < flows.len() implies (#[trigger] flows[i]).0 != cell.0 by {
        if flows[i].0 == cell.0 {
            assert(i == at);
        }
    }
    assert forall|i: int, j: int| 0 <= i < j < now.len() implies (#[trigger] now[i]).0.before(
        (#[trigger] now[j]).0,
    ) by {
        if i == at {
            assert(now[j] == flows[j - 1]);
            lemma_before(cell.0, flows[j - 1].0);
        } else if j == at {
            assert(now[i] == flows[i]);
        } else {
            let a = if i < at {
                i
            } else {
                i - 1
            };
            let b = if j < at {
                j
            } else {
                j - 1
            };
            assert(now[i] == flows[a] && now[j] == flows[b]);
        }
    }
    assert(now[at] == cell);
    lemma_rank(now, cell.0);
    assert forall|other: FlowKey, flow: FlowView| other != cell.0 implies (#[trigger] is_flow(
        now,
        other,
        flow,
    ) <==> is_flow(flows, other, flow)) by {
        if is_flow(now, other, flow) {
            let i = choose|i: int| 0 <= i < now.len() && #[trigger] now[i] == (other, flow);
            let a = if i < at {
                i
            } else {
                i - 1
            };
            assert(flows[a] == (other, flow));
        }
        if is_flow(flows, other, flow) {
            let i = choose|i: int| 0 <= i < flows.len() && #[trigger] flows[i] == (other, flow);
            let a = if i < at {
                i
            } else {
                i + 1
            };
            assert(now[a] == (other, flow));
        }
    }
}

proof fn lemma_changed(flows: Seq<FlowCell>, key: FlowKey, flow: FlowView)
    requires
        ordered(flows),
        holds(flows, key),
    ensures
        ({
            let now = flows.update(rank(flows, key), (key, flow));
            &&& ordered(now)
            &&& holds(now, key)
            &&& is_flow(now, key, flow)
            &&& forall|other: FlowKey, any: FlowView|
                other != key ==> (#[trigger] is_flow(now, other, any) <==> is_flow(
                    flows,
                    other,
                    any,
                ))
        }),
{
    let at = rank(flows, key);
    let now = flows.update(at, (key, flow));
    lemma_rank(flows, key);
    assert forall|i: int, j: int| 0 <= i < j < now.len() implies (#[trigger] now[i]).0.before(
        (#[trigger] now[j]).0,
    ) by {
        assert(flows[i].0.before(flows[j].0));
    }
    assert(now[at] == (key, flow));
    lemma_rank(now, key);
    assert forall|other: FlowKey, any: FlowView| other != key implies (#[trigger] is_flow(
        now,
        other,
        any,
    ) <==> is_flow(flows, other, any)) by {
        if is_flow(now, other, any) {
            let i = choose|i: int| 0 <= i < now.len() && #[trigger] now[i] == (other, any);
            assert(flows[i] == (other, any));
        }
        if is_flow(flows, other, any) {
            let i = choose|i: int| 0 <= i < flows.len() && #[trigger] flows[i] == (other, any);
            assert(now[i] == (other, any));
        }
    }
}

/// A packet changes the flow of its own key and no other. One that ends its flow leaves none
/// behind. One for a new flow beyond the number that is allowed is told about, and does
/// nothing.
pub proof fn law_packets_touch_their_own_flow(
    step: Step,
    work: PacketWork,
    options: CaptureOptions,
)
    requires
        ordered(step.flows),
    ensures
        ({
            let after = handled(step, work, options);
            let refused = !listed(step.flows, work.key) && step.budget.flows
                >= step.budget.max_flows;
            &&& ordered(after.flows)
            &&& forall|other: FlowKey, flow: FlowView|
                other != work.key ==> (#[trigger] is_flow(after.flows, other, flow) <==> is_flow(
                    step.flows,
                    other,
                    flow,
                ))
            &&& work.ends_flow ==> !listed(after.flows, work.key)
            &&& refused ==> after.flows == step.flows && after.out == step.out && after.last
                == step.last && after.budget == step.budget && after.warnings.len() == 1
            &&& !refused && !work.ends_flow && !work.starts_flow ==> listed(after.flows, work.key)
        }),
{
    let key = work.key;
    lemma_listed(step.flows, key);
    let reset = if work.starts_flow && holds(step.flows, key) {
        crate::flows::closed_flow(step, key, "warn: SYN reset an incomplete existing flow"@)
    } else {
        step
    };
    if work.starts_flow && holds(step.flows, key) {
        lemma_without(step.flows, key);
    }
    assert(ordered(reset.flows));
    lemma_listed(reset.flows, key);
    if holds(reset.flows, key) || reset.budget.flows < reset.budget.max_flows {
        let opened = if holds(reset.flows, key) {
            reset.flows
        } else {
            reset.flows.insert(rank(reset.flows, key), (key, fresh_flow(work.captured_at)))
        };
        if !holds(reset.flows, key) {
            lemma_with(reset.flows, (key, fresh_flow(work.captured_at)));
        }
        assert(ordered(opened) && holds(opened, key));
        let opened_step = if holds(reset.flows, key) {
            reset
        } else {
            Step {
                flows: opened,
                budget: crate::flows::ResourceBudget {
                    flows: (reset.budget.flows + 1) as usize,
                    ..reset.budget
                },
                ..reset
            }
        };
        let fed = crate::flows::fed_flow(opened_step, work, options);
        assert(exists|flow: FlowView| fed.flows == #[trigger] opened.update(
            rank(opened, key),
            (key, flow),
        ));
        let flow = choose|flow: FlowView|
            fed.flows == #[trigger] opened.update(rank(opened, key), (key, flow));
        lemma_changed(opened, key, flow);
        if work.ends_flow {
            lemma_without(fed.flows, key);
        } else {
            lemma_listed(fed.flows, key);
        }
    }
}

/// What a packet brings goes to its flow: the flow takes it where it left off, or from the
/// start where there is none yet; what comes out of it is written behind what was written
/// before. A flow that takes the capture over its total is emptied, and that is told.
pub proof fn law_packets_feed_their_flow(
    step: Step,
    work: PacketWork,
    options: CaptureOptions,
    flow: FlowView,
)
    requires
        ordered(step.flows),
        listed(step.flows, work.key) ==> is_flow(step.flows, work.key, flow),
        !listed(step.flows, work.key) ==> flow == fresh_flow(work.captured_at)
            && step.budget.flows < step.budget.max_flows,
        !work.starts_flow,
        !work.ends_flow,
        work.payload@.len() > 0,
        flow.bytes() <= step.budget.buffered_bytes,
    ensures
        ({
            let after = handled(step, work, options);
            let taken = reassembled(
                FlowView { last_seen: work.captured_at, ..flow },
                work.seq,
                work.payload@,
                options.delimiter,
                options.max_flow_bytes,
                step.last,
            );
            let held = step.budget.buffered_bytes - flow.bytes() + taken.flow.bytes();
            let over = taken.flow.bytes() > flow.bytes() && held > step.budget.max_total_bytes;
            &&& after.out == step.out + taken.out
            &&& after.last == taken.last
            &&& held <= usize::MAX && !over ==> is_flow(after.flows, work.key, taken.flow)
                && after.warnings.len() == step.warnings.len() + (if taken.overflow {
                1int
            } else {
                0
            })
            &&& held <= usize::MAX && over ==> is_flow(
                after.flows,
                work.key,
                taken.flow.emptied(),
            ) && after.warnings.len() == step.warnings.len() + (if taken.overflow {
                2int
            } else {
                1
            })
        }),
{
    let key = work.key;
    lemma_listed(step.flows, key);
    lemma_rank(step.flows, key);
    let fresh = (key, fresh_flow(work.captured_at));
    if holds(step.flows, key) {
        let i = choose|i: int| 0 <= i < step.flows.len() && #[trigger] step.flows[i] == (key, flow);
        assert(i == rank(step.flows, key));
        lemma_changed(step.flows, key, flow);
    } else {
        lemma_with(step.flows, fresh);
    }
    let opened = if holds(step.flows, key) {
        step.flows
    } else {
        step.flows.insert(rank(step.flows, key), fresh)
    };
    assert(opened[rank(opened, key)] == (key, flow));
    lemma_rank(opened, key);
    let after = handled(step, work, options);
    let at = rank(opened, key);
    assert(after.flows.len() == opened.len());
    assert(after.flows[at].0 == key);
}

/// A packet that starts its flow anew does as if there had been none: the flow of its key is
/// dropped first, and what it still held is told.
pub proof fn law_start_begins_anew(step: Step, work: PacketWork, options: CaptureOptions)
    requires
        ordered(step.flows),
        work.starts_flow,
        holds(step.flows, work.key),
        step.budget.flows > 0,
    ensures
        ({
            let flow = step.flows[rank(step.flows, work.key)].1;
            let rid = Step {
                flows: step.flows.filter(|cell: FlowCell| cell.0 != work.key),
                budget: step.budget.released(flow.bytes()),
                warnings: if flow.bytes() > 0 {
                    step.warnings.push("warn: SYN reset an incomplete existing flow"@)
                } else {
                    step.warnings
                },
                ..step
            };
            handled(step, work, options) == handled(rid, work, options)
        }),
{
    let at = rank(step.flows, work.key);
    let keep = |cell: FlowCell| cell.0 != work.key;
    lemma_rank(step.flows, work.key);
    lemma_without(step.flows, work.key);
    lemma_filter_one(step.flows, at, keep);
    lemma_listed(step.flows.remove(at), work.key);
}

proof fn lemma_filter_one(flows: Seq<FlowCell>, at: int, keep: spec_fn(FlowCell) -> bool)
    requires
        0 <= at < flows.len(),
        !keep(flows[at]),
        forall|i: int| 0 <= i < flows.len() && i != at ==> keep(#[trigger] flows[i]),
    ensures
        flows.filter(keep) == flows.remove(at),
    decreases flows.len(),
{
    reveal(Seq::filter);
    let shorter = flows.drop_last();
    if at == flows.len() - 1 {
        lemma_filter_all(shorter, keep);
        assert(flows.remove(at) =~= shorter);
    } else {
        lemma_filter_one(shorter, at, keep);
        assert(flows.remove(at) =~= shorter.remove(at).push(flows.last()));
    }
}

proof fn lemma_filter_all(flows: Seq<FlowCell>, keep: spec_fn(FlowCell) -> bool)
    requires
        forall|i: int| 0 <= i < flows.len() ==> keep(#[trigger] flows[i]),
    ensures
        flows.filter(keep) == flows,
    decreases flows.len(),
{
    reveal(Seq::filter);
    if flows.len() > 0 {
        lemma_filter_all(flows.drop_last(), keep);
        assert(flows.drop_last().push(flows.last()) =~= flows);
    }
}

/// An idle sweep keeps the flows that were seen lately, in their order, and drops those that
/// were not seen for the given time.
pub proof fn law_sweeps_drop_idle_flows(
    flows: Seq<FlowCell>,
    idle: CaptureTime,
    now: CaptureTime,
)
    requires
        idle.nanos > 0,
    ensures
        kept(flows, idle, now) == flows.filter(
            |cell: FlowCell| now.nanos - cell.1.last_seen.nanos < idle.nanos,
        ),
    decreases flows.len(),
{
    reveal(Seq::filter);
    if flows.len() > 0 {
        law_sweeps_drop_idle_flows(flows.drop_last(), idle, now);
    }
}

} // verus!
