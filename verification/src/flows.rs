//! The table of TCP flows, its resource budget, and what a packet does to it.
use crate::framing::{flush_complete_messages, flushed};
use crate::reassembly::{
    buffered_bytes, reassemble_and_emit_with_scratch, CaptureTime, FlowState, ReassemblyError,
};
use vstd::prelude::*;
use vstd::string::StringExecFns;

verus! {

/// An IP address: its family and its bits, most significant first.
#[derive(Debug, Clone, Copy, PartialEq, Eq, Structural)]
pub struct Address {
    pub v6: bool,
    pub bits: u128,
}

/// The identity of one direction of a TCP connection.
#[derive(Debug, Clone, Copy, PartialEq, Eq, Structural)]
pub struct FlowKey {
    pub src: Address,
    pub dst: Address,
    pub sport: u16,
    pub dport: u16,
}

impl Address {
    /// IPv4 addresses come before IPv6 addresses; within a family the bits decide.
    pub open spec fn before(self, other: Address) -> bool {
        (!self.v6 && other.v6) || (self.v6 == other.v6 && self.bits < other.bits)
    }

    pub fn comes_before(&self, other: &Address) -> (yes: bool)
        ensures
            yes == self.before(*other),
    {
        (!self.v6 && other.v6) || (self.v6 == other.v6 && self.bits < other.bits)
    }
}

impl FlowKey {
    /// Source, destination, source port, destination port, in that order of weight.
    pub open spec fn before(self, other: FlowKey) -> bool {
        self.src.before(other.src) || (self.src == other.src && (self.dst.before(other.dst) || (
        self.dst == other.dst && (self.sport < other.sport || (self.sport == other.sport
            && self.dport < other.dport)))))
    }

    pub fn comes_before(&self, other: &FlowKey) -> (yes: bool)
        ensures
            yes == self.before(*other),
    {
        self.src.comes_before(&other.src) || (self.src == other.src && (self.dst.comes_before(
            &other.dst,
        ) || (self.dst == other.dst && (self.sport < other.sport || (self.sport == other.sport
            && self.dport < other.dport)))))
    }
}

/// What a packet asks of its flow.
#[derive(Debug)]
pub struct PacketWork {
    pub index: u64,
    pub captured_at: CaptureTime,
    pub key: FlowKey,
    pub seq: u32,
    pub payload: Vec<u8>,
    pub starts_flow: bool,
    pub ends_flow: bool,
}

/// The mathematical content of a `PacketWork`.
#[verifier::ext_equal]
pub struct WorkView {
    pub index: u64,
    pub captured_at: CaptureTime,
    pub key: FlowKey,
    pub seq: u32,
    pub payload: Seq<u8>,
    pub starts_flow: bool,
    pub ends_flow: bool,
}

impl View for PacketWork {
    type V = WorkView;

    open spec fn view(&self) -> WorkView {
        WorkView {
            index: self.index,
            captured_at: self.captured_at,
            key: self.key,
            seq: self.seq,
            payload: self.payload@,
            starts_flow: self.starts_flow,
            ends_flow: self.ends_flow,
        }
    }
}

/// The limits and the framing that a capture is read with.
#[derive(Debug, Clone, Copy)]
pub struct CaptureOptions {
    pub port_filter: Option<u16>,
    pub delimiter: u8,
    pub max_flow_bytes: usize,
    pub idle_timeout: CaptureTime,
}

/// How many flows and buffered bytes are in use, and how many may be.
#[derive(Debug, Clone, Copy)]
pub struct ResourceBudget {
    pub flows: usize,
    pub buffered_bytes: usize,
    pub max_flows: usize,
    pub max_total_bytes: usize,
}

impl ResourceBudget {
    pub fn new(max_flows: usize, max_total_bytes: usize) -> (budget: ResourceBudget)
        ensures
            budget.flows == 0 && budget.buffered_bytes == 0,
            budget.max_flows == max_flows && budget.max_total_bytes == max_total_bytes,
    {
        ResourceBudget { flows: 0, buffered_bytes: 0, max_flows, max_total_bytes }
    }

    /// Counts one more flow, unless the limit is reached.
    pub fn try_acquire_flow(&mut self) -> (acquired: bool)
        ensures
            acquired == (old(self).flows < old(self).max_flows),
            *final(self) == (if acquired {
                ResourceBudget { flows: (old(self).flows + 1) as usize, ..*old(self) }
            } else {
                *old(self)
            }),
    {
        if self.flows < self.max_flows {
            self.flows = self.flows + 1;
            true
        } else {
            false
        }
    }

    /// The budget once a flow that held `bytes` is gone.
    pub open spec fn released(self, bytes: nat) -> ResourceBudget {
        ResourceBudget {
            flows: (self.flows - 1) as usize,
            buffered_bytes: (self.buffered_bytes - bytes) as usize,
            ..self
        }
    }

    /// Counts one flow less, and the bytes that it held.
    pub fn release_flow(&mut self, buffered_bytes: usize)
        requires
            old(self).flows > 0,
            buffered_bytes <= old(self).buffered_bytes,
        ensures
            *final(self) == old(self).released(buffered_bytes as nat),
    {
        self.flows = self.flows - 1;
        self.buffered_bytes = self.buffered_bytes - buffered_bytes;
    }

    /// The budget once a flow went from holding `before` bytes to holding `after`.
    pub open spec fn updated(self, before: nat, after: nat) -> ResourceBudget {
        ResourceBudget { buffered_bytes: (self.buffered_bytes + after - before) as usize, ..self }
    }

    /// Accounts for a flow's change in size; growth past the total limit gives `false`.
    pub fn update_buffered_bytes(&mut self, before: usize, after: usize) -> (within: bool)
        requires
            before <= old(self).buffered_bytes,
            old(self).buffered_bytes + after - before <= usize::MAX,
        ensures
            *final(self) == old(self).updated(before as nat, after as nat),
            within == (after <= before || final(self).buffered_bytes
                <= final(self).max_total_bytes),
    {
        if after > before {
            self.buffered_bytes = self.buffered_bytes + (after - before);
            self.buffered_bytes <= self.max_total_bytes
        } else {
            self.buffered_bytes = self.buffered_bytes - (before - after);
            true
        }
    }
}

/// One flow under its key.
#[derive(Debug)]
pub struct FlowEntry {
    pub key: FlowKey,
    pub flow: FlowState,
}

/// The live flows, ordered by key.
#[derive(Debug)]
pub struct FlowTable {
    pub entries: Vec<FlowEntry>,
}

/// A flow as the contracts see it.
pub type FlowCell = (FlowKey, crate::reassembly::FlowView);

pub open spec fn cells(entries: Seq<FlowEntry>) -> Seq<FlowCell> {
    entries.map_values(|e: FlowEntry| (e.key, e.flow@))
}

/// Keys strictly ascend, so that no key occurs twice.
pub open spec fn ordered(flows: Seq<FlowCell>) -> bool {
    forall|i: int, j: int|
        0 <= i < j < flows.len() ==> (#[trigger] flows[i]).0.before((#[trigger] flows[j]).0)
}

/// The number of flows whose key comes before `key`: where `key` stands or would stand.
pub open spec fn rank(flows: Seq<FlowCell>, key: FlowKey) -> int
    decreases flows.len(),
{
    if flows.len() == 0 {
        0
    } else if flows.last().0.before(key) {
        flows.len() as int
    } else {
        rank(flows.drop_last(), key)
    }
}

pub open spec fn holds(flows: Seq<FlowCell>, key: FlowKey) -> bool {
    rank(flows, key) < flows.len() && flows[rank(flows, key)].0 == key
}

/// All the bytes that the flows hold.
pub open spec fn held_bytes(flows: Seq<FlowCell>) -> nat
    decreases flows.len(),
{
    if flows.len() == 0 {
        0
    } else {
        held_bytes(flows.drop_last()) + flows.last().1.bytes()
    }
}

pub proof fn lemma_held_remove(flows: Seq<FlowCell>, i: int)
    requires
        0 <= i < flows.len(),
    ensures
        held_bytes(flows) == held_bytes(flows.remove(i)) + flows[i].1.bytes(),
    decreases flows.len(),
{
    if i == flows.len() - 1 {
        assert(flows.remove(i) =~= flows.drop_last());
    } else {
        lemma_held_remove(flows.drop_last(), i);
        assert(flows.remove(i).drop_last() =~= flows.drop_last().remove(i));
        assert(flows.remove(i).last() == flows.last());
    }
}

pub proof fn lemma_held_insert(flows: Seq<FlowCell>, i: int, cell: FlowCell)
    requires
        0 <= i <= flows.len(),
    ensures
        held_bytes(flows.insert(i, cell)) == held_bytes(flows) + cell.1.bytes(),
{
    lemma_held_remove(flows.insert(i, cell), i);
    assert(flows.insert(i, cell).remove(i) =~= flows);
}

pub proof fn lemma_held_update(flows: Seq<FlowCell>, i: int, cell: FlowCell)
    requires
        0 <= i < flows.len(),
    ensures
        held_bytes(flows.update(i, cell)) == held_bytes(flows) - flows[i].1.bytes()
            + cell.1.bytes(),
{
    lemma_held_remove(flows, i);
    lemma_held_remove(flows.update(i, cell), i);
    assert(flows.update(i, cell).remove(i) =~= flows.remove(i));
}

pub proof fn lemma_rank(flows: Seq<FlowCell>, key: FlowKey)
    requires
        ordered(flows),
    ensures
        0 <= rank(flows, key) <= flows.len(),
        forall|i: int| 0 <= i < rank(flows, key) ==> (#[trigger] flows[i]).0.before(key),
        forall|i: int| rank(flows, key) <= i < flows.len() ==> !(#[trigger] flows[i]).0.before(key),
        forall|i: int|
            0 <= i < flows.len() && (#[trigger] flows[i]).0 == key ==> i == rank(flows, key),
    decreases flows.len(),
{
    if flows.len() > 0 {
        let short = flows.drop_last();
        assert(forall|i: int| 0 <= i < short.len() ==> #[trigger] short[i] == flows[i]);
        lemma_rank(short, key);
        if !flows.last().0.before(key) {
            assert forall|i: int| rank(flows, key) <= i < flows.len() implies !(
            #[trigger] flows[i]).0.before(key) by {
                if i < short.len() {
                    assert(short[i] == flows[i]);
                }
            }
            assert forall|i: int| 0 <= i < rank(flows, key) implies (
            #[trigger] flows[i]).0.before(key) by {
                assert(short[i] == flows[i]);
            }
            assert forall|i: int| 0 <= i < flows.len() && (#[trigger] flows[i]).0 == key implies i
                == rank(flows, key) by {
                if i < short.len() {
                    assert(short[i] == flows[i]);
                } else if rank(short, key) < short.len() {
                    assert(!short[rank(short, key)].0.before(key));
                    assert(flows[rank(short, key)].0.before(flows[i].0));
                }
            }
        }
    }
}

/// A reset of the flow's key: the old flow goes, and its bytes with it.
pub struct Step {
    pub flows: Seq<FlowCell>,
    pub budget: ResourceBudget,
    pub out: Seq<u8>,
    pub last: Seq<u8>,
    pub warnings: Seq<Seq<char>>,
}

pub open spec fn skip_warning(error: ReassemblyError) -> Seq<char> {
    "warn: skipping packet: "@ + error.text()@
}

/// Closing the flow of `key`: it leaves the table, its bytes are released, and bytes that
/// were never framed give `warning`.
pub open spec fn closed_flow(step: Step, key: FlowKey, warning: Seq<char>) -> Step {
    let at = rank(step.flows, key);
    let bytes = step.flows[at].1.bytes();
    Step {
        flows: step.flows.remove(at),
        budget: step.budget.released(bytes),
        warnings: if bytes > 0 {
            step.warnings.push(warning)
        } else {
            step.warnings
        },
        ..step
    }
}

/// A packet's payload goes to its flow, and the flow's growth is charged to the budget; a
/// flow that takes the capture over its total is emptied.
pub open spec fn fed_flow(step: Step, work: PacketWork, options: CaptureOptions) -> Step {
    let at = rank(step.flows, work.key);
    let flow = crate::reassembly::FlowView { last_seen: work.captured_at, ..step.flows[at].1 };
    let before = flow.bytes();
    let r = crate::reassembly::reassembled(
        flow,
        work.seq,
        work.payload@,
        options.delimiter,
        options.max_flow_bytes,
        step.last,
    );
    let skipped = work.payload@.len() == 0;
    let fed = if skipped {
        flow
    } else {
        r.flow
    };
    let after = fed.bytes();
    let charged = step.budget.updated(before, after);
    let warned = if !skipped && r.overflow {
        step.warnings.push(skip_warning(ReassemblyError::Overflow))
    } else {
        step.warnings
    };
    let out = if skipped {
        step.out
    } else {
        step.out + r.out
    };
    let last = if skipped {
        step.last
    } else {
        r.last
    };
    if after <= before || charged.buffered_bytes <= charged.max_total_bytes {
        Step {
            flows: step.flows.update(at, (work.key, fed)),
            budget: charged,
            out,
            last,
            warnings: warned,
        }
    } else {
        Step {
            flows: step.flows.update(at, (work.key, fed.emptied())),
            budget: charged.updated(after, 0),
            out,
            last,
            warnings: warned.push(skip_warning(ReassemblyError::TotalOverflow)),
        }
    }
}

/// Everything that a packet does.
pub open spec fn handled(step: Step, work: PacketWork, options: CaptureOptions) -> Step {
    let reset = if work.starts_flow && holds(step.flows, work.key) {
        closed_flow(step, work.key, "warn: SYN reset an incomplete existing flow"@)
    } else {
        step
    };
    if !holds(reset.flows, work.key) && reset.budget.flows >= reset.budget.max_flows {
        Step { warnings: seq![skip_warning(ReassemblyError::FlowLimit)], ..reset }
    } else {
        let opened = if holds(reset.flows, work.key) {
            reset
        } else {
            Step {
                flows: reset.flows.insert(
                    rank(reset.flows, work.key),
                    (work.key, fresh_flow(work.captured_at)),
                ),
                budget: ResourceBudget { flows: (reset.budget.flows + 1) as usize, ..reset.budget },
                ..reset
            }
        };
        let fed = fed_flow(opened, work, options);
        if work.ends_flow {
            closed_flow(fed, work.key, "warn: FIN or RST closed an incomplete flow"@)
        } else {
            fed
        }
    }
}

pub open spec fn fresh_flow(last_seen: CaptureTime) -> crate::reassembly::FlowView {
    crate::reassembly::FlowView {
        next_seq: None,
        buffer: seq![],
        pending: Map::empty(),
        last_seen,
    }
}

impl FlowTable {
    pub open spec fn wf(self) -> bool {
        ordered(cells(self.entries@))
    }

    /// Every flow of the table is counted in the budget.
    pub open spec fn funded(self, budget: ResourceBudget) -> bool {
        &&& self.entries@.len() <= budget.flows
        &&& held_bytes(cells(self.entries@)) <= budget.buffered_bytes
    }

    pub fn new() -> (table: FlowTable)
        ensures
            table.wf(),
            table.entries@.len() == 0,
    {
        FlowTable { entries: Vec::new() }
    }

    /// Where `key` stands or would stand in the table.
    fn rank_of(&self, key: &FlowKey) -> (at: usize)
        requires
            self.wf(),
        ensures
            at == rank(cells(self.entries@), *key),
            at <= self.entries@.len(),
    {
        let ghost all = cells(self.entries@);
        let mut n: usize = self.entries.len();
        assert(all.take(n as int) =~= all);
        while n > 0
            invariant
                n <= self.entries@.len(),
                all == cells(self.entries@),
                rank(all, *key) == rank(all.take(n as int), *key),
            decreases n,
        {
            assert(all.take(n as int).last() == (self.entries@[n - 1].key, self.entries@[n
                - 1].flow@));
            if self.entries[n - 1].key.comes_before(key) {
                return n;
            }
            assert(all.take(n as int).drop_last() =~= all.take(n - 1));
            n = n - 1;
        }
        0
    }

    /// Whether `key` stands at position `at`.
    fn is_at(&self, at: usize, key: &FlowKey) -> (yes: bool)
        requires
            at == rank(cells(self.entries@), *key),
        ensures
            yes == holds(cells(self.entries@), *key),
    {
        at < self.entries.len() && self.entries[at].key == *key
    }

    /// Whether the table has a flow under `key`.
    pub fn contains_key(&self, key: &FlowKey) -> (yes: bool)
        requires
            self.wf(),
        ensures
            yes == holds(cells(self.entries@), *key),
    {
        let at: usize = self.rank_of(key);
        self.is_at(at, key)
    }

    pub fn len(&self) -> (count: usize)
        ensures
            count == self.entries@.len(),
    {
        self.entries.len()
    }

    /// Puts `flow` under `key`, in place of any flow that was there.
    pub fn insert(&mut self, key: FlowKey, flow: FlowState)
        requires
            old(self).wf(),
        ensures
            final(self).wf(),
            ({
                let before = cells(old(self).entries@);
                let at = rank(before, key);
                cells(final(self).entries@) == if holds(before, key) {
                    before.update(at, (key, flow@))
                } else {
                    before.insert(at, (key, flow@))
                }
            }),
    {
        let ghost before = cells(self.entries@);
        let at: usize = self.rank_of(&key);
        proof {
            lemma_rank(before, key);
        }
        let ghost cell = (key, flow@);
        if self.is_at(at, &key) {
            self.entries[at] = FlowEntry { key, flow };
            assert(cells(self.entries@) =~= before.update(at as int, cell));
        } else {
            self.entries.insert(at, FlowEntry { key, flow });
            assert(cells(self.entries@) =~= before.insert(at as int, cell));
            proof {
                lemma_insert_ordered(before, at as int, cell);
            }
        }
    }
}

proof fn lemma_insert_ordered(flows: Seq<FlowCell>, at: int, cell: FlowCell)
    requires
        ordered(flows),
        at == rank(flows, cell.0),
        !holds(flows, cell.0),
    ensures
        ordered(flows.insert(at, cell)),
{
    lemma_rank(flows, cell.0);
    let now = flows.insert(at, cell);
    assert forall|i: int, j: int| 0 <= i < j < now.len() implies (#[trigger] now[i]).0.before(
        (#[trigger] now[j]).0,
    ) by {
        let oi = if i < at { i } else { i - 1 };
        let oj = if j < at { j } else { j - 1 };
        if i != at && j != at {
            assert(now[i] == flows[oi] && now[j] == flows[oj]);
        } else if i == at {
            assert(now[j] == flows[oj]);
            assert(!flows[oj].0.before(cell.0));
            if flows[oj].0 == cell.0 {
                assert(oj == at);
            }
        } else {
            assert(now[i] == flows[oi]);
        }
    }
}

/// `warn: skipping packet: ` and the reason.
fn skipped(error: ReassemblyError) -> (text: String)
    ensures
        text@ == skip_warning(error),
{
    let mut text = "warn: skipping packet: ".to_owned();
    text.append(error.message());
    text
}

pub open spec fn texts(warnings: Seq<String>) -> Seq<Seq<char>> {
    warnings.map_values(|w: String| w@)
}

fn warn(warnings: &mut Vec<String>, text: String)
    ensures
        texts(final(warnings)@) == texts(old(warnings)@).push(text@),
{
    let ghost before = warnings@;
    warnings.push(text);
    assert(texts(warnings@) =~= texts(before).push(text@));
}

/// Removes the flow at `at`, releases what it held and warns of bytes that were not framed.
fn close_flow(
    flows: &mut FlowTable,
    at: usize,
    budget: &mut ResourceBudget,
    warnings: &mut Vec<String>,
    warning: &str,
)
    requires
        old(flows).wf(),
        old(flows).funded(*old(budget)),
        at < old(flows).entries@.len(),
    ensures
        final(flows).wf(),
        final(flows).funded(*final(budget)),
        ({
            let before = cells(old(flows).entries@);
            let bytes = before[at as int].1.bytes();
            &&& cells(final(flows).entries@) == before.remove(at as int)
            &&& bytes <= old(budget).buffered_bytes
            &&& *final(budget) == old(budget).released(bytes)
            &&& texts(final(warnings)@) == if bytes > 0 {
                texts(old(warnings)@).push(warning@)
            } else {
                texts(old(warnings)@)
            }
        }),
{
    let ghost before = cells(flows.entries@);
    proof {
        lemma_held_remove(before, at as int);
    }
    let entry = flows.entries.remove(at);
    assert(cells(flows.entries@) =~= before.remove(at as int));
    let buffered: usize = buffered_bytes(&entry.flow);
    budget.release_flow(buffered);
    if buffered > 0 {
        warn(warnings, warning.to_owned());
    }
}

/// Feeds a packet's payload to the flow at `at` and charges the budget.
fn feed_flow(
    flows: &mut FlowTable,
    at: usize,
    work: &PacketWork,
    options: &CaptureOptions,
    budget: &mut ResourceBudget,
    scratch: &mut Vec<u8>,
    out: &mut Vec<u8>,
    warnings: &mut Vec<String>,
)
    requires
        old(flows).wf(),
        old(flows).funded(*old(budget)),
        holds(cells(old(flows).entries@), work.key),
        at == rank(cells(old(flows).entries@), work.key),
        old(budget).buffered_bytes + work.payload@.len() <= usize::MAX,
    ensures
        final(flows).wf(),
        final(flows).funded(*final(budget)),
        ({
            let step = fed_flow(
                Step {
                    flows: cells(old(flows).entries@),
                    budget: *old(budget),
                    out: old(out)@,
                    last: old(scratch)@,
                    warnings: texts(old(warnings)@),
                },
                *work,
                *options,
            );
            &&& cells(final(flows).entries@) == step.flows
            &&& *final(budget) == step.budget
            &&& final(out)@ == step.out
            &&& final(scratch)@ == step.last
            &&& texts(final(warnings)@) == step.warnings
        }),
{
    let ghost all = cells(flows.entries@);
    let ghost others = flows.entries@;
    let mut entry = flows.entries.remove(at);
    proof {
        lemma_held_remove(all, at as int);
        assert(entry.flow@.pending.dom() =~= entry.flow.pending@.dom());
        crate::reassembly::lemma_placed_bytes(
            crate::reassembly::FlowView { last_seen: work.captured_at, ..entry.flow@ },
            work.seq,
            work.payload@,
        );
        crate::reassembly::lemma_drained(
            crate::reassembly::placed(
                crate::reassembly::FlowView { last_seen: work.captured_at, ..entry.flow@ },
                work.seq,
                work.payload@,
            ),
        );
    }
    entry.flow.last_seen = work.captured_at;
    let ghost flow0 = entry.flow@;
    assert(flow0 =~= crate::reassembly::FlowView {
        last_seen: work.captured_at,
        ..all[at as int].1
    });
    let before: usize = buffered_bytes(&entry.flow);
    if work.payload.len() > 0 {
        let result = reassemble_and_emit_with_scratch(
            &mut entry.flow,
            work.seq,
            work.payload.as_slice(),
            options.delimiter,
            options.max_flow_bytes,
            scratch,
            out,
        );
        proof {
            lemma_reassembled_bytes(
                flow0,
                work.seq,
                work.payload@,
                options.delimiter,
                options.max_flow_bytes,
                old(scratch)@,
            );
        }
        if let Err(error) = result {
            warn(warnings, skipped(error));
        }
    }
    let after: usize = buffered_bytes(&entry.flow);
    if !budget.update_buffered_bytes(before, after) {
        let ghost fed = entry.flow@;
        entry.flow.buffer.clear();
        entry.flow.pending.clear();
        entry.flow.next_seq = None;
        assert(entry.flow@ =~= fed.emptied());
        budget.update_buffered_bytes(after, 0);
        warn(warnings, skipped(ReassemblyError::TotalOverflow));
    }
    let ghost cell = (entry.key, entry.flow@);
    flows.entries.insert(at, entry);
    proof {
        assert(cells(flows.entries@) =~= all.update(at as int, cell));
        lemma_held_update(all, at as int, cell);
        assert(crate::reassembly::pending_bytes(Map::<u32, Seq<u8>>::empty()) == 0);
    }
}

/// Framing and overflow never leave a flow larger than it was with its segment added.
pub proof fn lemma_reassembled_bytes(
    flow: crate::reassembly::FlowView,
    seq: u32,
    payload: Seq<u8>,
    delimiter: u8,
    max_flow_bytes: usize,
    last: Seq<u8>,
)
    requires
        flow.pending.dom().finite(),
        flow.bytes() + payload.len() <= usize::MAX,
    ensures
        ({
            let r = crate::reassembly::reassembled(
                flow,
                seq,
                payload,
                delimiter,
                max_flow_bytes,
                last,
            );
            &&& r.flow.bytes() <= flow.bytes() + payload.len()
            &&& r.flow.bytes() <= max_flow_bytes
            &&& r.flow.pending.dom().finite()
            &&& r.flow.last_seen == flow.last_seen
        }),
{
    crate::reassembly::lemma_placed_bytes(flow, seq, payload);
    let placed = crate::reassembly::placed(flow, seq, payload);
    crate::reassembly::lemma_drained(placed);
    let full = crate::reassembly::drained(placed);
    crate::framing::lemma_flushed_rest(full.buffer, 0, delimiter, last);
    assert(crate::reassembly::pending_bytes(Map::<u32, Seq<u8>>::empty()) == 0);
}

/// Applies one packet to the flows: resets, opens, feeds and closes its flow as the packet
/// asks, writes the messages that it completes, and returns a warning for every loss.
pub fn handle_packet_work(
    work: &PacketWork,
    options: &CaptureOptions,
    budget: &mut ResourceBudget,
    flows: &mut FlowTable,
    scratch: &mut Vec<u8>,
    out: &mut Vec<u8>,
) -> (warnings: Vec<String>)
    requires
        old(flows).wf(),
        old(flows).funded(*old(budget)),
        old(budget).buffered_bytes + work.payload@.len() <= usize::MAX,
    ensures
        final(flows).wf(),
        final(flows).funded(*final(budget)),
        ({
            let step = handled(
                Step {
                    flows: cells(old(flows).entries@),
                    budget: *old(budget),
                    out: old(out)@,
                    last: old(scratch)@,
                    warnings: seq![],
                },
                *work,
                *options,
            );
            &&& cells(final(flows).entries@) == step.flows
            &&& *final(budget) == step.budget
            &&& final(out)@ == step.out
            &&& final(scratch)@ == step.last
            &&& texts(warnings@) == step.warnings
        }),
{
    let mut warnings: Vec<String> = Vec::new();
    assert(texts(warnings@) =~= seq![]);
    let mut at: usize = flows.rank_of(&work.key);
    proof {
        lemma_rank(cells(flows.entries@), work.key);
    }
    if work.starts_flow && flows.is_at(at, &work.key) {
        close_flow(
            flows,
            at,
            budget,
            &mut warnings,
            "warn: SYN reset an incomplete existing flow",
        );
        at = flows.rank_of(&work.key);
    }
    proof {
        lemma_rank(cells(flows.entries@), work.key);
    }
    if !flows.is_at(at, &work.key) {
        if !budget.try_acquire_flow() {
            let mut refused: Vec<String> = Vec::new();
            assert(texts(refused@) =~= seq![]);
            warn(&mut refused, skipped(ReassemblyError::FlowLimit));
            assert(texts(refused@) =~= seq![skip_warning(ReassemblyError::FlowLimit)]);
            return refused;
        }
        let ghost before = cells(flows.entries@);
        let fresh = FlowState::new(work.captured_at);
        let ghost cell = (work.key, fresh@);
        flows.insert(work.key, fresh);
        proof {
            assert(cells(flows.entries@) == before.insert(at as int, cell));
            lemma_held_insert(before, at as int, cell);
            assert(crate::reassembly::pending_bytes(Map::<u32, Seq<u8>>::empty()) == 0);
            lemma_rank(cells(flows.entries@), work.key);
            assert(cells(flows.entries@)[at as int].0 == work.key);
        }
    }
    feed_flow(flows, at, work, options, budget, scratch, out, &mut warnings);
    if work.ends_flow {
        proof {
            lemma_rank(cells(flows.entries@), work.key);
            assert(cells(flows.entries@)[at as int].0 == work.key);
        }
        close_flow(
            flows,
            at,
            budget,
            &mut warnings,
            "warn: FIN or RST closed an incomplete flow",
        );
    }
    warnings
}

/// `flow` was not seen for at least `idle` before `now`.
pub open spec fn is_stale(cell: FlowCell, idle: CaptureTime, now: CaptureTime) -> bool {
    now.at_least_after(cell.1.last_seen, idle)
}

/// The flows that an idle sweep keeps, in their order.
pub open spec fn kept(flows: Seq<FlowCell>, idle: CaptureTime, now: CaptureTime) -> Seq<FlowCell>
    decreases flows.len(),
{
    if flows.len() == 0 {
        seq![]
    } else if is_stale(flows.last(), idle, now) {
        kept(flows.drop_last(), idle, now)
    } else {
        kept(flows.drop_last(), idle, now).push(flows.last())
    }
}

/// How many of the flows that an idle sweep drops still held bytes.
pub open spec fn lost(flows: Seq<FlowCell>, idle: CaptureTime, now: CaptureTime) -> nat
    decreases flows.len(),
{
    if flows.len() == 0 {
        0
    } else {
        lost(flows.drop_last(), idle, now) + (if is_stale(flows.last(), idle, now)
            && flows.last().1.bytes() > 0 {
            1nat
        } else {
            0
        })
    }
}

proof fn lemma_kept(flows: Seq<FlowCell>, idle: CaptureTime, now: CaptureTime)
    requires
        ordered(flows),
    ensures
        kept(flows, idle, now).len() <= flows.len(),
        held_bytes(kept(flows, idle, now)) <= held_bytes(flows),
        lost(flows, idle, now) <= flows.len(),
        ordered(kept(flows, idle, now)),
        forall|i: int|
            0 <= i < kept(flows, idle, now).len() ==> flows.contains(
                #[trigger] kept(flows, idle, now)[i],
            ),
    decreases flows.len(),
{
    if flows.len() > 0 {
        let short = flows.drop_last();
        let k = kept(short, idle, now);
        assert(forall|i: int| 0 <= i < short.len() ==> #[trigger] short[i] == flows[i]);
        lemma_kept(short, idle, now);
        assert forall|i: int| 0 <= i < k.len() implies flows.contains(#[trigger] k[i]) && k[i].0.before(
            flows.last().0,
        ) by {
            assert(short.contains(k[i]));
            let j = choose|j: int| 0 <= j < short.len() && short[j] == k[i];
            assert(flows[j] == k[i]);
        }
        assert(flows.contains(flows.last()));
        if !is_stale(flows.last(), idle, now) {
            assert(k.push(flows.last()).drop_last() =~= k);
        }
    }
}

/// Drops the flows that were idle for `idle` at `now`, and returns how many of them still
/// held bytes; a zero timeout keeps every flow.
pub fn evict_idle_at(
    flows: &mut FlowTable,
    idle: CaptureTime,
    now: CaptureTime,
    budget: &mut ResourceBudget,
) -> (losses: usize)
    requires
        old(flows).wf(),
        old(flows).funded(*old(budget)),
    ensures
        final(flows).wf(),
        final(flows).funded(*final(budget)),
        ({
            let before = cells(old(flows).entries@);
            let after = if idle.nanos == 0 {
                before
            } else {
                kept(before, idle, now)
            };
            &&& cells(final(flows).entries@) == after
            &&& losses == if idle.nanos == 0 {
                0
            } else {
                lost(before, idle, now)
            }
            &&& final(budget).flows == old(budget).flows - (before.len() - after.len())
            &&& final(budget).buffered_bytes == old(budget).buffered_bytes - (held_bytes(before)
                - held_bytes(after))
            &&& final(budget).max_flows == old(budget).max_flows
            &&& final(budget).max_total_bytes == old(budget).max_total_bytes
        }),
{
    if idle.nanos == 0 {
        return 0;
    }
    let ghost all = cells(flows.entries@);
    let ghost mut done: int = 0;
    let total: usize = flows.entries.len();
    let mut losses: usize = 0;
    let mut i: usize = 0;
    assert(all.take(0) =~= seq![]);
    assert(all.skip(0) =~= all);
    while i < flows.entries.len()
        invariant
            ordered(all),
            0 <= i <= done <= all.len() == total,
            kept(all.take(done), idle, now).len() == i,
            cells(flows.entries@) == kept(all.take(done), idle, now) + all.skip(done),
            losses == lost(all.take(done), idle, now),
            losses <= done,
            budget.flows == old(budget).flows - (done - i),
            budget.buffered_bytes == old(budget).buffered_bytes - (held_bytes(all.take(done))
                - held_bytes(kept(all.take(done), idle, now))),
            budget.max_flows == old(budget).max_flows,
            budget.max_total_bytes == old(budget).max_total_bytes,
            all.len() <= old(budget).flows,
            held_bytes(all) <= old(budget).buffered_bytes,
            i + (all.len() - done) == flows.entries@.len(),
        decreases all.len() - done,
    {
        let ghost prefix = all.take(done);
        let ghost k = kept(prefix, idle, now);
        proof {
            assert(cells(flows.entries@)[i as int] == all[done]);
            assert(all.take(done + 1).drop_last() =~= prefix);
            assert(all.take(done + 1).last() == all[done]);
            lemma_kept(prefix, idle, now);
            lemma_take_held(all, done + 1);
            if !is_stale(all[done], idle, now) {
                assert(k.push(all[done]).drop_last() =~= k);
            }
        }
        if now.elapsed_since(flows.entries[i].flow.last_seen, idle) {
            let ghost now_cells = cells(flows.entries@);
            let entry = flows.entries.remove(i);
            assert(cells(flows.entries@) =~= now_cells.remove(i as int));
            let buffered: usize = buffered_bytes(&entry.flow);
            if buffered > 0 {
                losses = losses + 1;
            }
            budget.release_flow(buffered);
            assert(cells(flows.entries@) =~= k + all.skip(done + 1));
        } else {
            assert(cells(flows.entries@) =~= k.push(all[done]) + all.skip(done + 1));
            i = i + 1;
        }
        proof {
            done = done + 1;
        }
    }
    proof {
        assert(all.take(done) =~= all);
        assert(cells(flows.entries@) =~= kept(all, idle, now));
        lemma_kept(all, idle, now);
    }
    losses
}

proof fn lemma_take_held(flows: Seq<FlowCell>, n: int)
    requires
        0 <= n <= flows.len(),
    ensures
        held_bytes(flows.take(n)) <= held_bytes(flows),
    decreases flows.len(),
{
    if n == flows.len() {
        assert(flows.take(n) =~= flows);
    } else {
        assert(flows.take(n) =~= flows.drop_last().take(n));
        lemma_take_held(flows.drop_last(), n);
    }
}

/// A flow's framed output at the end of a capture.
#[derive(Debug)]
pub struct BufferedFlowOutput {
    pub key: FlowKey,
    pub output: Vec<u8>,
}

/// What is written and lost when every flow is flushed for the last time.
pub struct Remaining {
    pub outputs: Seq<(FlowKey, Seq<u8>)>,
    pub losses: nat,
    pub last: Seq<u8>,
}

/// Flushing the flows in key order: each that frames a message gives an output, and each
/// that still holds bytes afterwards is a loss.
pub open spec fn remaining(flows: Seq<FlowCell>, delimiter: u8, last: Seq<u8>) -> Remaining
    decreases flows.len(),
{
    if flows.len() == 0 {
        Remaining { outputs: seq![], losses: 0, last }
    } else {
        let r = remaining(flows.drop_last(), delimiter, last);
        let flow = flows.last().1;
        let f = flushed(flow.buffer, 0, delimiter, r.last);
        let left = f.rest.len() + crate::reassembly::pending_bytes(flow.pending);
        Remaining {
            outputs: if f.out.len() > 0 {
                r.outputs.push((flows.last().0, f.out))
            } else {
                r.outputs
            },
            losses: r.losses + (if left > 0 {
                1nat
            } else {
                0
            }),
            last: f.last,
        }
    }
}

pub open spec fn output_cells(outputs: Seq<BufferedFlowOutput>) -> Seq<(FlowKey, Seq<u8>)> {
    outputs.map_values(|o: BufferedFlowOutput| (o.key, o.output@))
}

/// Flushes every flow for the last time, in key order, and empties the table; returns the
/// outputs and the number of flows that still held bytes.
pub fn flush_remaining_flow_outputs(
    flows: &mut FlowTable,
    delimiter: u8,
    scratch: &mut Vec<u8>,
    budget: &mut ResourceBudget,
) -> (result: (Vec<BufferedFlowOutput>, usize))
    requires
        old(flows).wf(),
        old(flows).funded(*old(budget)),
    ensures
        final(flows).entries@.len() == 0,
        final(flows).wf(),
        ({
            let all = cells(old(flows).entries@);
            let r = remaining(all, delimiter, old(scratch)@);
            &&& output_cells(result.0@) == r.outputs
            &&& result.1 == r.losses
            &&& final(scratch)@ == r.last
            &&& final(budget).flows == old(budget).flows - all.len()
            &&& final(budget).buffered_bytes == old(budget).buffered_bytes - held_bytes(all)
            &&& final(budget).max_flows == old(budget).max_flows
            &&& final(budget).max_total_bytes == old(budget).max_total_bytes
        }),
{
    let ghost all = cells(flows.entries@);
    let total: usize = flows.entries.len();
    let mut outputs: Vec<BufferedFlowOutput> = Vec::new();
    let mut losses: usize = 0;
    let ghost mut done: int = 0;
    assert(all.take(0) =~= seq![]);
    assert(all.skip(0) =~= all);
    assert(output_cells(outputs@) =~= seq![]);
    while flows.entries.len() > 0
        invariant
            0 <= done <= all.len() == total,
            cells(flows.entries@) == all.skip(done),
            flows.entries@.len() == all.len() - done,
            output_cells(outputs@) == remaining(all.take(done), delimiter, old(scratch)@).outputs,
            losses == remaining(all.take(done), delimiter, old(scratch)@).losses,
            losses <= done,
            scratch@ == remaining(all.take(done), delimiter, old(scratch)@).last,
            budget.flows == old(budget).flows - done,
            budget.buffered_bytes == old(budget).buffered_bytes - held_bytes(all.take(done)),
            budget.max_flows == old(budget).max_flows,
            budget.max_total_bytes == old(budget).max_total_bytes,
            all.len() <= old(budget).flows,
            held_bytes(all) <= old(budget).buffered_bytes,
        decreases all.len() - done,
    {
        let ghost before = cells(flows.entries@);
        let mut entry = flows.entries.remove(0);
        proof {
            assert(before[0] == all[done]);
            assert(cells(flows.entries@) =~= before.remove(0));
            assert(before.remove(0) =~= all.skip(done + 1));
            assert(all.take(done + 1).drop_last() =~= all.take(done));
            assert(all.take(done + 1).last() == all[done]);
            lemma_take_held(all, done + 1);
        }
        let ghost flow0 = entry.flow@;
        let buffered_before_flush: usize = buffered_bytes(&entry.flow);
        let mut output: Vec<u8> = Vec::new();
        proof {
            crate::framing::lemma_flushed_rest(flow0.buffer, 0, delimiter, scratch@);
        }
        let ghost last0 = scratch@;
        flush_complete_messages(&mut entry.flow.buffer, delimiter, scratch, &mut output);
        assert(output@ =~= flushed(flow0.buffer, 0, delimiter, last0).out);
        assert(entry.flow@.pending =~= flow0.pending);
        if buffered_bytes(&entry.flow) > 0 {
            losses = losses + 1;
        }
        budget.release_flow(buffered_before_flush);
        if output.len() > 0 {
            let ghost previous = outputs@;
            outputs.push(BufferedFlowOutput { key: entry.key, output });
            assert(output_cells(outputs@) =~= output_cells(previous).push(
                (entry.key, flushed(flow0.buffer, 0, delimiter, last0).out),
            ));
        }
        proof {
            done = done + 1;
        }
    }
    proof {
        assert(all.take(done) =~= all);
    }
    (outputs, losses)
}

/// The budget's slack over what the flows use, which no packet changes: flows and bytes are
/// charged and released exactly as the table takes and drops them.
#[verifier::rlimit(80)]
#[verifier::spinoff_prover]
pub proof fn law_budget_follows_flows(step: Step, work: PacketWork, options: CaptureOptions)
    requires
        ordered(step.flows),
        step.flows.len() <= step.budget.flows,
        held_bytes(step.flows) <= step.budget.buffered_bytes,
        step.budget.buffered_bytes + work.payload@.len() <= usize::MAX,
        forall|i: int|
            0 <= i < step.flows.len() ==> (#[trigger] step.flows[i]).1.pending.dom().finite(),
    ensures
        ({
            let next = handled(step, work, options);
            &&& next.budget.flows - next.flows.len() == step.budget.flows - step.flows.len()
            &&& next.budget.buffered_bytes - held_bytes(next.flows) == step.budget.buffered_bytes
                - held_bytes(step.flows)
            &&& next.budget.max_flows == step.budget.max_flows
            &&& step.budget.flows <= step.budget.max_flows ==> next.budget.flows
                <= next.budget.max_flows
        }),
{
    let key = work.key;
    lemma_rank(step.flows, key);
    let warning = "warn: SYN reset an incomplete existing flow"@;
    let reset = if work.starts_flow && holds(step.flows, key) {
        lemma_held_remove(step.flows, rank(step.flows, key));
        closed_flow(step, key, warning)
    } else {
        step
    };
    assert(ordered(reset.flows));
    lemma_rank(reset.flows, key);
    if holds(reset.flows, key) || reset.budget.flows < reset.budget.max_flows {
        let at = rank(reset.flows, key);
        let fresh = (key, fresh_flow(work.captured_at));
        assert(crate::reassembly::pending_bytes(Map::<u32, Seq<u8>>::empty()) == 0);
        let opened = if holds(reset.flows, key) {
            reset
        } else {
            lemma_held_insert(reset.flows, at, fresh);
            lemma_insert_ordered(reset.flows, at, fresh);
            Step {
                flows: reset.flows.insert(at, fresh),
                budget: ResourceBudget { flows: (reset.budget.flows + 1) as usize, ..reset.budget },
                ..reset
            }
        };
        lemma_rank(opened.flows, key);
        assert(opened.flows[at].0 == key);
        let flow = crate::reassembly::FlowView {
            last_seen: work.captured_at,
            ..opened.flows[at].1
        };
        lemma_held_remove(opened.flows, at);
        lemma_reassembled_bytes(
            flow,
            work.seq,
            work.payload@,
            options.delimiter,
            options.max_flow_bytes,
            opened.last,
        );
        let fed = fed_flow(opened, work, options);
        lemma_held_update(opened.flows, at, fed.flows[at]);
        assert(fed.flows =~= opened.flows.update(at, fed.flows[at]));
        if work.ends_flow {
            assert(ordered(fed.flows));
            lemma_rank(fed.flows, key);
            assert(fed.flows[at].0 == key);
            lemma_held_remove(fed.flows, at);
        }
    }
}

/// A budget that only these flows draw on says how many there are and how many bytes they
/// hold, whatever a packet does, and there are never more flows than allowed.
pub proof fn law_budget_counts_flows(step: Step, work: PacketWork, options: CaptureOptions)
    requires
        ordered(step.flows),
        step.flows.len() == step.budget.flows,
        held_bytes(step.flows) == step.budget.buffered_bytes,
        step.budget.buffered_bytes + work.payload@.len() <= usize::MAX,
        forall|i: int|
            0 <= i < step.flows.len() ==> (#[trigger] step.flows[i]).1.pending.dom().finite(),
    ensures
        ({
            let next = handled(step, work, options);
            &&& next.flows.len() == next.budget.flows
            &&& held_bytes(next.flows) == next.budget.buffered_bytes
            &&& step.flows.len() <= step.budget.max_flows ==> next.flows.len()
                <= next.budget.max_flows
        }),
{
    law_budget_follows_flows(step, work, options);
}

} // verus!
