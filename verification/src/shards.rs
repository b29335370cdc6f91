//! A share of a capture's flows, and how the shares are put together at the end.
use crate::ansi::{capped, plus};
use crate::flows::{
    cells, evict_idle_at, flush_remaining_flow_outputs, handle_packet_work, handled, held_bytes,
    kept, lost, output_cells, remaining, BufferedFlowOutput, CaptureOptions, FlowCell, FlowKey,
    FlowTable, PacketWork, ResourceBudget, Step,
};
use crate::ordering::{PacketResult, ResultView};
use crate::reassembly::CaptureTime;
use crate::text::{copy_of, decimal, push_decimal, text_view};
use vstd::prelude::*;
use vstd::string::StringExecFns;

verus! {

/// What a share of the flows is asked to do.
#[derive(Debug)]
pub enum ShardCommand {
    Packet(PacketWork),
    EvictIdle(CaptureTime),
}

/// A share of the flows, and how many of them lost bytes to their timeout.
#[derive(Debug)]
pub struct FlowShard {
    pub flows: FlowTable,
    pub scratch: Vec<u8>,
    pub losses: usize,
}

/// What a share leaves at the end: output that was still held, and its losses.
#[derive(Debug)]
pub struct ShardReport {
    pub buffered: Vec<BufferedFlowOutput>,
    pub losses: usize,
}

/// The mathematical content of a `FlowShard` with the budget that it draws on.
#[verifier::ext_equal]
pub struct ShardView {
    pub flows: Seq<FlowCell>,
    pub budget: ResourceBudget,
    pub last: Seq<u8>,
    pub losses: usize,
}

impl ShardView {
    /// The flows that are idle at `now` dropped.
    pub open spec fn swept(self, options: CaptureOptions, now: CaptureTime) -> ShardView {
        let idle = options.idle_timeout;
        if idle.nanos == 0 {
            self
        } else {
            let after = kept(self.flows, idle, now);
            ShardView {
                flows: after,
                budget: ResourceBudget {
                    flows: (self.budget.flows - (self.flows.len() - after.len())) as usize,
                    buffered_bytes: (self.budget.buffered_bytes - (held_bytes(self.flows)
                        - held_bytes(after))) as usize,
                    ..self.budget
                },
                losses: capped(self.losses + lost(self.flows, idle, now)) as usize,
                ..self
            }
        }
    }

    /// What a packet does to its flow.
    pub open spec fn fed(self, work: PacketWork, options: CaptureOptions) -> Step {
        handled(
            Step {
                flows: self.flows,
                budget: self.budget,
                out: seq![],
                last: self.last,
                warnings: seq![],
            },
            work,
            options,
        )
    }

    /// A command carried out: a packet feeds its flow and gives a result, and the flows that
    /// are idle by then are dropped.
    pub open spec fn commanded(self, command: ShardCommand, options: CaptureOptions) -> (
        ShardView,
        Option<ResultView>,
    ) {
        match command {
            ShardCommand::Packet(work) => {
                let step = self.fed(work, options);
                let fed = ShardView {
                    flows: step.flows,
                    budget: step.budget,
                    last: step.last,
                    ..self
                };
                (
                    fed.swept(options, work.captured_at),
                    Some(
                        ResultView { index: work.index, output: step.out, warnings: step.warnings },
                    ),
                )
            },
            ShardCommand::EvictIdle(now) => (self.swept(options, now), None),
        }
    }
}

pub open spec fn result_view(result: Option<PacketResult>) -> Option<ResultView> {
    match result {
        Some(result) => Some(result@),
        None => None,
    }
}

impl FlowShard {
    pub open spec fn with_budget(self, budget: ResourceBudget) -> ShardView {
        ShardView {
            flows: cells(self.flows.entries@),
            budget,
            last: self.scratch@,
            losses: self.losses,
        }
    }

    /// The flows are in order, and the budget has been charged for them.
    pub open spec fn sound(self, budget: ResourceBudget) -> bool {
        self.flows.wf() && self.flows.funded(budget)
    }

    /// A share without flows.
    pub fn new() -> (shard: FlowShard)
        ensures
            shard.flows.wf(),
            shard.flows.entries@.len() == 0,
            shard.scratch@.len() == 0,
            shard.losses == 0,
    {
        FlowShard { flows: FlowTable::new(), scratch: Vec::new(), losses: 0 }
    }

    fn sweep(&mut self, options: &CaptureOptions, now: CaptureTime, budget: &mut ResourceBudget)
        requires
            old(self).sound(*old(budget)),
        ensures
            final(self).sound(*final(budget)),
            final(self).with_budget(*final(budget)) == old(self).with_budget(*old(budget)).swept(
                *options,
                now,
            ),
    {
        let lost: usize = evict_idle_at(&mut self.flows, options.idle_timeout, now, budget);
        self.losses = plus(self.losses, lost);
    }

    /// Carries out a command; a packet gives a result.
    pub fn handle(
        &mut self,
        command: ShardCommand,
        options: &CaptureOptions,
        budget: &mut ResourceBudget,
    ) -> (result: Option<PacketResult>)
        requires
            old(self).sound(*old(budget)),
            command matches ShardCommand::Packet(work) ==> old(budget).buffered_bytes
                + work.payload@.len() <= usize::MAX,
        ensures
            final(self).sound(*final(budget)),
            (final(self).with_budget(*final(budget)), result_view(result)) == old(
                self,
            ).with_budget(*old(budget)).commanded(command, *options),
    {
        match command {
            ShardCommand::Packet(work) => {
                let mut output: Vec<u8> = Vec::new();
                let warnings = handle_packet_work(
                    &work,
                    options,
                    budget,
                    &mut self.flows,
                    &mut self.scratch,
                    &mut output,
                );
                self.sweep(options, work.captured_at, budget);
                Some(PacketResult { index: work.index, output, warnings })
            },
            ShardCommand::EvictIdle(now) => {
                self.sweep(options, now, budget);
                None
            },
        }
    }

    /// Flushes the flows for the last time.
    pub fn finish(&mut self, options: &CaptureOptions, budget: &mut ResourceBudget) -> (report:
        ShardReport)
        requires
            old(self).sound(*old(budget)),
        ensures
            ({
                let before = old(self).with_budget(*old(budget));
                let left = remaining(before.flows, options.delimiter, before.last);
                &&& output_cells(report.buffered@) == left.outputs
                &&& report.losses == capped(before.losses + left.losses)
                &&& final(self).flows.entries@.len() == 0
                &&& *final(budget) == (ResourceBudget {
                    flows: (old(budget).flows - before.flows.len()) as usize,
                    buffered_bytes: (old(budget).buffered_bytes - held_bytes(
                        before.flows,
                    )) as usize,
                    ..*old(budget)
                })
            }),
    {
        let (buffered, lost) = flush_remaining_flow_outputs(
            &mut self.flows,
            options.delimiter,
            &mut self.scratch,
            budget,
        );
        ShardReport { buffered, losses: plus(self.losses, lost) }
    }
}

// ---------------------------------------------------------------------------
// Putting the shares together

/// An output of a flow as the contracts see it.
pub type OutputCell = (FlowKey, Seq<u8>);

/// Where an output belongs among ordered ones: ahead of the first with a larger key.
pub open spec fn output_place(outputs: Seq<OutputCell>, key: FlowKey, at: int) -> int
    decreases outputs.len() - at,
{
    if at < 0 || at >= outputs.len() {
        outputs.len() as int
    } else if key.before(outputs[at].0) {
        at
    } else {
        output_place(outputs, key, at + 1)
    }
}

/// The outputs in the order of their keys; those of one key keep their order.
pub open spec fn by_key(outputs: Seq<OutputCell>) -> Seq<OutputCell>
    decreases outputs.len(),
{
    if outputs.len() == 0 {
        seq![]
    } else {
        let before = by_key(outputs.drop_last());
        before.insert(output_place(before, outputs.last().0, 0), outputs.last())
    }
}

/// No output stands ahead of one with a smaller key.
pub open spec fn in_key_order(outputs: Seq<OutputCell>) -> bool {
    forall|i: int, j: int|
        0 <= i < j < outputs.len() ==> !(#[trigger] outputs[j]).0.before((#[trigger] outputs[i]).0)
}

proof fn lemma_output_place(outputs: Seq<OutputCell>, key: FlowKey, at: int)
    requires
        0 <= at <= outputs.len(),
    ensures
        at <= output_place(outputs, key, at) <= outputs.len(),
        forall|i: int|
            at <= i < output_place(outputs, key, at) ==> !key.before((#[trigger] outputs[i]).0),
        output_place(outputs, key, at) < outputs.len() ==> key.before(
            outputs[output_place(outputs, key, at)].0,
        ),
    decreases outputs.len() - at,
{
    if at < outputs.len() && !key.before(outputs[at].0) {
        lemma_output_place(outputs, key, at + 1);
    }
}

/// What is left at the end is written in the order of the flows' keys, all of it and nothing
/// else, in whatever order the shares report.
pub proof fn law_outputs_are_ordered_by_key(outputs: Seq<OutputCell>)
    ensures
        in_key_order(by_key(outputs)),
        by_key(outputs).to_multiset() == outputs.to_multiset(),
    decreases outputs.len(),
{
    broadcast use vstd::seq_lib::group_to_multiset_ensures;

    if outputs.len() > 0 {
        let short = outputs.drop_last();
        let last = outputs.last();
        let before = by_key(short);
        let at = output_place(before, last.0, 0);
        let longer = before.insert(at, last);
        law_outputs_are_ordered_by_key(short);
        lemma_output_place(before, last.0, 0);
        assert forall|i: int, j: int| 0 <= i < j < longer.len() implies !(
        #[trigger] longer[j]).0.before((#[trigger] longer[i]).0) by {
            if j < at {
                assert(longer[i] == before[i] && longer[j] == before[j]);
            } else if j == at {
                assert(longer[i] == before[i]);
            } else if i < at {
                assert(longer[i] == before[i] && longer[j] == before[j - 1]);
            } else if i == at {
                assert(longer[j] == before[j - 1]);
                if j - 1 > at {
                    assert(!before[j - 1].0.before(before[at].0));
                }
            } else {
                assert(longer[i] == before[i - 1] && longer[j] == before[j - 1]);
            }
        }
        assert(outputs =~= short.push(last));
        vstd::seq_lib::to_multiset_insert(before, at, last);
    }
}

/// The bytes of outputs, one after the other.
pub open spec fn joined_outputs(outputs: Seq<OutputCell>) -> Seq<u8>
    decreases outputs.len(),
{
    if outputs.len() == 0 {
        seq![]
    } else {
        joined_outputs(outputs.drop_last()) + outputs.last().1
    }
}

/// What the shares had left to write, flow by flow in the order of their keys.
pub fn order_outputs(buffered: Vec<BufferedFlowOutput>) -> (ordered: Vec<BufferedFlowOutput>)
    ensures
        output_cells(ordered@) == by_key(output_cells(buffered@)),
{
    let ghost all = output_cells(buffered@);
    let mut rest = buffered;
    let mut ordered: Vec<BufferedFlowOutput> = Vec::new();
    let ghost mut done: int = 0;
    assert(all.skip(0) =~= all);
    assert(output_cells(ordered@) =~= by_key(all.take(0)));
    while rest.len() > 0
        invariant
            0 <= done <= all.len(),
            rest@.len() == all.len() - done,
            output_cells(rest@) == all.skip(done),
            output_cells(ordered@) == by_key(all.take(done)),
        decreases rest@.len(),
    {
        let ghost left = output_cells(rest@);
        let ghost before = output_cells(ordered@);
        let next = rest.remove(0);
        let ghost cell = (next.key, next.output@);
        assert(left[0] == cell);
        assert(all[done] == cell);
        assert(output_cells(rest@) =~= left.remove(0));
        assert(left.remove(0) =~= all.skip(done + 1));
        assert(all.take(done + 1).drop_last() =~= all.take(done));
        let mut at: usize = 0;
        while at < ordered.len() && !next.key.comes_before(&ordered[at].key)
            invariant
                at <= ordered@.len(),
                before == output_cells(ordered@),
                output_place(before, next.key, 0) == output_place(before, next.key, at as int),
            decreases ordered@.len() - at,
        {
            assert(before[at as int].0 == ordered@[at as int].key);
            at += 1;
        }
        if at < ordered.len() {
            assert(before[at as int].0 == ordered@[at as int].key);
        }
        ordered.insert(at, next);
        assert(output_cells(ordered@) =~= before.insert(at as int, cell));
        proof {
            done = done + 1;
        }
    }
    assert(all.take(done) =~= all);
    ordered
}

/// What is written at the end of a capture.
pub fn final_output(buffered: Vec<BufferedFlowOutput>) -> (out: Vec<u8>)
    ensures
        out@ == joined_outputs(by_key(output_cells(buffered@))),
{
    let ordered = order_outputs(buffered);
    let ghost all = output_cells(ordered@);
    let mut out: Vec<u8> = Vec::new();
    let mut i: usize = 0;
    assert(all.take(0) =~= seq![]);
    while i < ordered.len()
        invariant
            i <= ordered@.len(),
            all == output_cells(ordered@),
            out@ == joined_outputs(all.take(i as int)),
        decreases ordered@.len() - i,
    {
        assert(all.take(i + 1).drop_last() =~= all.take(i as int));
        assert(all.take(i + 1).last().1 == ordered@[i as int].output@);
        out.extend_from_slice(ordered[i].output.as_slice());
        i += 1;
    }
    assert(all.take(i as int) =~= all);
    out
}

/// How a capture ended: what to warn of, and why it failed.
#[derive(Debug)]
pub struct CaptureOutcome {
    pub warning: Option<String>,
    pub error: Option<String>,
}

/// How a capture ended: losses are warned of, and are an error where none may be.
pub fn capture_outcome(losses: usize, strict: bool) -> (outcome: CaptureOutcome)
    ensures
        text_view(outcome.warning) == if losses > 0 {
            Some(
                "warn: capture completed with "@ + decimal(losses as nat)
                    + " dropped packet(s) or incomplete flow(s)"@,
            )
        } else {
            None
        },
        text_view(outcome.error) == if losses > 0 && strict {
            Some("capture was incomplete ("@ + decimal(losses as nat) + " loss event(s))"@)
        } else {
            None
        },
{
    if losses == 0 {
        return CaptureOutcome { warning: None, error: None };
    }
    let mut warning = copy_of("warn: capture completed with ");
    push_decimal(&mut warning, losses as u64);
    warning.append(" dropped packet(s) or incomplete flow(s)");
    let mut error = copy_of("capture was incomplete (");
    push_decimal(&mut error, losses as u64);
    error.append(" loss event(s))");
    CaptureOutcome {
        warning: Some(warning),
        error: if strict {
            Some(error)
        } else {
            None
        },
    }
}

} // verus!
