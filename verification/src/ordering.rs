//! Putting packet results back into packet order.
use crate::flows::texts;
use std::collections::BTreeMap;
use vstd::prelude::*;

verus! {

broadcast use vstd::std_specs::btree::group_btree_axioms;

/// What one packet gave: framed output, and warnings for what was lost.
#[derive(Debug)]
pub struct PacketResult {
    pub index: u64,
    pub output: Vec<u8>,
    pub warnings: Vec<String>,
}

/// The mathematical content of a `PacketResult`.
pub struct ResultView {
    pub index: u64,
    pub output: Seq<u8>,
    pub warnings: Seq<Seq<char>>,
}

impl View for PacketResult {
    type V = ResultView;

    open spec fn view(&self) -> ResultView {
        ResultView { index: self.index, output: self.output@, warnings: texts(self.warnings@) }
    }
}

/// Results that wait for an earlier packet's, and what was released so far.
#[derive(Debug)]
pub struct ResultQueue {
    pub pending: BTreeMap<u64, PacketResult>,
    pub next_output_index: u64,
    pub losses: usize,
}

pub open spec fn waiting(pending: Map<u64, PacketResult>) -> Map<u64, ResultView> {
    pending.map_values(|r: PacketResult| r@)
}

/// What releasing in order gives, starting at packet `next`.
pub struct Released {
    pub pending: Map<u64, ResultView>,
    pub next: u64,
    pub out: Seq<u8>,
    pub warnings: Seq<Seq<char>>,
}

/// Every result from `next` on is released, up to the first packet whose result is missing.
pub open spec fn released(pending: Map<u64, ResultView>, next: u64) -> Released
    decreases pending.dom().len(),
    when pending.dom().finite()
{
    if pending.contains_key(next) {
        let later = released(pending.remove(next), wrapped(next));
        Released {
            out: pending[next].output + later.out,
            warnings: pending[next].warnings + later.warnings,
            ..later
        }
    } else {
        Released { pending, next, out: seq![], warnings: seq![] }
    }
}

pub open spec fn wrapped(index: u64) -> u64 {
    ((index + 1) % 0x1_0000_0000_0000_0000) as u64
}

/// What two results give, recorded one after the other.
pub open spec fn released_in_turn(
    pending: Map<u64, ResultView>,
    next: u64,
    first: ResultView,
    second: ResultView,
) -> Released {
    let a = released(pending.insert(first.index, first), next);
    let b = released(a.pending.insert(second.index, second), a.next);
    Released { out: a.out + b.out, warnings: a.warnings + b.warnings, ..b }
}

proof fn lemma_released_later(pending: Map<u64, ResultView>, next: u64, result: ResultView)
    requires
        pending.dom().finite(),
        !pending.contains_key(result.index),
    ensures
        released(pending.insert(result.index, result), next) == ({
            let a = released(pending, next);
            let b = released(a.pending.insert(result.index, result), a.next);
            Released { out: a.out + b.out, warnings: a.warnings + b.warnings, ..b }
        }),
    decreases pending.dom().len(),
{
    let more = pending.insert(result.index, result);
    if pending.contains_key(next) {
        let rest = pending.remove(next);
        assert(more.remove(next) =~= rest.insert(result.index, result));
        lemma_released_later(rest, wrapped(next), result);
        let a = released(rest, wrapped(next));
        let b = released(a.pending.insert(result.index, result), a.next);
        assert(pending[next].output + (a.out + b.out) =~= (pending[next].output + a.out) + b.out);
        assert(pending[next].warnings + (a.warnings + b.warnings) =~= (pending[next].warnings
            + a.warnings) + b.warnings);
    } else {
        let b = released(more, next);
        assert(Seq::<u8>::empty() + b.out =~= b.out);
        assert(Seq::<Seq<char>>::empty() + b.warnings =~= b.warnings);
    }
}

/// Results come out in the order of their packets, in whatever order they are recorded.
pub proof fn law_recording_order_does_not_matter(
    pending: Map<u64, ResultView>,
    next: u64,
    a: ResultView,
    b: ResultView,
)
    requires
        pending.dom().finite(),
        a.index != b.index,
        !pending.contains_key(a.index),
        !pending.contains_key(b.index),
    ensures
        released_in_turn(pending, next, a, b) == released_in_turn(pending, next, b, a),
{
    lemma_released_later(pending.insert(a.index, a), next, b);
    lemma_released_later(pending.insert(b.index, b), next, a);
    assert(pending.insert(a.index, a).insert(b.index, b) =~= pending.insert(b.index, b).insert(
        a.index,
        a,
    ));
}

/// `count` more losses, kept within the machine's range.
pub open spec fn more_losses(losses: usize, count: nat) -> usize {
    if losses + count <= usize::MAX {
        (losses + count) as usize
    } else {
        usize::MAX
    }
}

impl ResultQueue {
    pub fn new() -> (queue: ResultQueue)
        ensures
            waiting(queue.pending@) == Map::<u64, ResultView>::empty(),
            queue.next_output_index == 0,
            queue.losses == 0,
    {
        let queue = ResultQueue { pending: BTreeMap::new(), next_output_index: 0, losses: 0 };
        assert(waiting(queue.pending@) =~= Map::<u64, ResultView>::empty());
        queue
    }

    /// Takes one packet's result and releases every result that is now in turn: output to
    /// `out`, warnings to `warnings`, each warning counted as a loss.
    pub fn record_result(
        &mut self,
        result: PacketResult,
        out: &mut Vec<u8>,
        warnings: &mut Vec<String>,
    )
        ensures
            ({
                let r = released(
                    waiting(old(self).pending@).insert(result.index, result@),
                    old(self).next_output_index,
                );
                &&& waiting(final(self).pending@) == r.pending
                &&& final(self).next_output_index == r.next
                &&& final(out)@ == old(out)@ + r.out
                &&& texts(final(warnings)@) == texts(old(warnings)@) + r.warnings
                &&& final(self).losses == more_losses(old(self).losses, r.warnings.len())
            }),
    {
        let ghost before = waiting(self.pending@);
        let ghost goal = released(before.insert(result.index, result@), self.next_output_index);
        let ghost out0 = out@;
        let ghost warnings0 = texts(warnings@);
        let ghost losses0 = self.losses;
        let index: u64 = result.index;
        let ghost view = result@;
        self.pending.insert(index, result);
        proof {
            assert(waiting(self.pending@) =~= before.insert(index, view));
            assert(out0 + goal.out =~= out@ + goal.out);
        }
        let ghost mut counted: nat = 0;
        while self.pending.contains_key(&self.next_output_index)
            invariant
                goal == released(
                    waiting(old(self).pending@).insert(index, view),
                    old(self).next_output_index,
                ),
                out0 == old(out)@,
                warnings0 == texts(old(warnings)@),
                losses0 == old(self).losses,
                goal.pending == released(waiting(self.pending@), self.next_output_index).pending,
                goal.next == released(waiting(self.pending@), self.next_output_index).next,
                out0 + goal.out == out@ + released(
                    waiting(self.pending@),
                    self.next_output_index,
                ).out,
                warnings0 + goal.warnings == texts(warnings@) + released(
                    waiting(self.pending@),
                    self.next_output_index,
                ).warnings,
                counted + released(waiting(self.pending@), self.next_output_index).warnings.len()
                    == goal.warnings.len(),
                self.losses == more_losses(losses0, counted),
            decreases self.pending@.dom().len(),
        {
            let ghost current = waiting(self.pending@);
            let turn: u64 = self.next_output_index;
            assert(current.dom() =~= self.pending@.dom());
            let taken = self.pending.remove(&turn);
            let mut ready = match taken {
                Some(ready) => ready,
                None => {
                    return ;
                },
            };
            assert(waiting(self.pending@) =~= current.remove(turn));
            let ghost later = released(current.remove(turn), wrapped(turn));
            let ghost result_view = ready@;
            assert(current[turn] == result_view);
            let ghost w0 = texts(warnings@);
            let ghost o0 = out@;
            let lost: usize = ready.warnings.len();
            self.losses = self.losses.saturating_add(lost);
            let ghost moved = ready.warnings@;
            let ghost kept = warnings@;
            warnings.append(&mut ready.warnings);
            assert(texts(warnings@) =~= w0 + texts(moved));
            out.extend_from_slice(ready.output.as_slice());
            assert(out@ =~= o0 + result_view.output);
            self.next_output_index = self.next_output_index.wrapping_add(1);
            proof {
                counted = counted + lost as nat;
                assert(out@ + later.out =~= o0 + (result_view.output + later.out));
                assert(texts(warnings@) + later.warnings =~= w0 + (result_view.warnings
                    + later.warnings));
            }
        }
        assert(waiting(self.pending@).dom() =~= self.pending@.dom());
        assert(out@ + Seq::<u8>::empty() =~= out@);
        assert(texts(warnings@) + Seq::<Seq<char>>::empty() =~= texts(warnings@));
    }
}

} // verus!
