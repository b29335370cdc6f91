//! How the interfaces of a capture are numbered.
use crate::capture::{block_handled, units_per_second, CaptureBlock, InterfaceInfo, StateView};
use crate::flows::CaptureOptions;
use vstd::prelude::*;

verus! {

/// The state after several blocks; none where one of them has an invalid timestamp.
pub open spec fn blocks_handled(
    state: StateView,
    options: CaptureOptions,
    blocks: Seq<CaptureBlock>,
) -> Option<StateView>
    decreases blocks.len(),
{
    if blocks.len() == 0 {
        Some(state)
    } else {
        match blocks_handled(state, options, blocks.drop_last()) {
            Some(before) => match block_handled(before, options, blocks.last()) {
                Ok((after, _)) => Some(after),
                Err(_) => None,
            },
            None => None,
        }
    }
}

/// A description of an interface: none where its resolution cannot be read.
pub open spec fn described(block: CaptureBlock) -> Option<InterfaceInfo> {
    match block {
        CaptureBlock::InterfaceDescription { linktype, if_tsresol, ts_offset } => match units_per_second(
            if_tsresol,
        ) {
            Some(timestamp_resolution) => Some(
                InterfaceInfo { linktype, timestamp_resolution, timestamp_offset: ts_offset as u64 },
            ),
            None => None,
        },
        _ => None,
    }
}

/// The descriptions of interfaces behind the last section header, or from the start.
pub open spec fn descriptions(blocks: Seq<CaptureBlock>) -> Seq<Option<InterfaceInfo>>
    decreases blocks.len(),
{
    if blocks.len() == 0 {
        seq![]
    } else if blocks.last() is SectionHeader {
        seq![]
    } else if blocks.last() is InterfaceDescription {
        descriptions(blocks.drop_last()).push(described(blocks.last()))
    } else {
        descriptions(blocks.drop_last())
    }
}

/// How many blocks describe an interface whose resolution cannot be read.
pub open spec fn unreadable(blocks: Seq<CaptureBlock>) -> nat
    decreases blocks.len(),
{
    if blocks.len() == 0 {
        0
    } else {
        unreadable(blocks.drop_last()) + if blocks.last() is InterfaceDescription && described(
            blocks.last(),
        ) is None {
            1nat
        } else {
            0
        }
    }
}

/// The number of the interface that is described behind `n` others; the count starts over
/// behind the largest.
pub open spec fn if_number(n: int) -> int {
    n % 0x1_0000_0000
}

/// The interfaces of a state are those of the descriptions, under their numbers.
pub open spec fn numbered(state: StateView, all: Seq<Option<InterfaceInfo>>) -> bool {
    &&& state.next_if_id == if_number(all.len() as int)
    &&& forall|id: u32| #[trigger]
        state.interfaces.contains_key(id) <==> exists|j: int|
            0 <= j < all.len() && if_number(j) == id && (#[trigger] all[j]) is Some
    &&& all.len() <= 0x1_0000_0000 ==> forall|j: int|
        0 <= j < all.len() && (#[trigger] all[j]) is Some ==> state.interfaces[j as u32]
            == all[j]->0
}

/// A block that is no section header and describes no interface leaves the interfaces alone,
/// and no block takes a loss back.
proof fn lemma_block_keeps_interfaces(
    state: StateView,
    options: CaptureOptions,
    block: CaptureBlock,
)
    ensures
        block_handled(state, options, block) matches Ok((after, _)) ==> {
            &&& state.losses <= after.losses
            &&& !(block is SectionHeader) && !(block is InterfaceDescription)
                ==> after.interfaces == state.interfaces && after.next_if_id == state.next_if_id
        },
{
}

proof fn lemma_description(
    state: StateView,
    options: CaptureOptions,
    all: Seq<Option<InterfaceInfo>>,
    block: CaptureBlock,
)
    requires
        numbered(state, all),
        block is InterfaceDescription,
    ensures
        block_handled(state, options, block) matches Ok((after, _)) && numbered(
            after,
            all.push(described(block)),
        ),
{
    let after = block_handled(state, options, block)->Ok_0.0;
    let longer = all.push(described(block));
    let n = all.len() as int;
    assert forall|id: u32| #[trigger] after.interfaces.contains_key(id) == exists|j: int|
        0 <= j < longer.len() && if_number(j) == id && (#[trigger] longer[j]) is Some by {
        if after.interfaces.contains_key(id) {
            if state.interfaces.contains_key(id) {
                let j = choose|j: int|
                    0 <= j < all.len() && if_number(j) == id && (#[trigger] all[j]) is Some;
                assert(longer[j] == all[j]);
            } else {
                assert(longer[n] == described(block));
            }
        }
        if exists|j: int|
            0 <= j < longer.len() && if_number(j) == id && (#[trigger] longer[j]) is Some {
            let j = choose|j: int|
                0 <= j < longer.len() && if_number(j) == id && (#[trigger] longer[j]) is Some;
            if j < n {
                assert(all[j] is Some);
                assert(state.interfaces.contains_key(id));
            }
        }
    }
    if longer.len() <= 0x1_0000_0000 {
        assert(if_number(n) == n);
        assert forall|j: int| 0 <= j < longer.len() && (#[trigger] longer[j]) is Some implies
            after.interfaces[j as u32] == longer[j]->0 by {
            if j < n {
                assert(all[j] == longer[j]);
            }
        }
    }
}

/// The interfaces are numbered as they are described: after any blocks the next number is
/// that of the descriptions since the last section header, a number is held exactly where
/// the resolution of a description with it could be read, and up to the largest number what
/// is held is what was described. Each description that cannot be read is a loss.
pub proof fn law_interfaces_are_numbered(
    start: StateView,
    options: CaptureOptions,
    blocks: Seq<CaptureBlock>,
)
    requires
        start.interfaces == Map::<u32, InterfaceInfo>::empty(),
        start.next_if_id == 0,
    ensures
        blocks_handled(start, options, blocks) matches Some(state) ==> {
            &&& numbered(state, descriptions(blocks))
            &&& start.losses + unreadable(blocks) <= state.losses || state.losses == usize::MAX
        },
    decreases blocks.len(),
{
    if blocks.len() > 0 {
        law_interfaces_are_numbered(start, options, blocks.drop_last());
        if let Some(before) = blocks_handled(start, options, blocks.drop_last()) {
            lemma_block_keeps_interfaces(before, options, blocks.last());
            if blocks.last() is InterfaceDescription {
                lemma_description(
                    before,
                    options,
                    descriptions(blocks.drop_last()),
                    blocks.last(),
                );
            }
        }
    }
}

/// A section header forgets all interfaces, and numbers start over. A description that
/// cannot be read takes a number, and is counted as one loss while losses can be counted.
pub proof fn law_sections_and_losses(state: StateView, options: CaptureOptions, block: CaptureBlock)
    ensures
        block is SectionHeader ==> (block_handled(state, options, block) matches Ok((after, _))
            && after.interfaces == Map::<u32, InterfaceInfo>::empty() && after.next_if_id == 0
            && after.losses == state.losses),
        block is InterfaceDescription && described(block) is None && state.losses < usize::MAX ==> (
        block_handled(state, options, block) matches Ok((after, _)) && after.interfaces
            == state.interfaces && after.next_if_id == if_number(state.next_if_id + 1)
            && after.losses == state.losses + 1),
        block is InterfaceDescription && described(block) is Some ==> (block_handled(
            state,
            options,
            block,
        ) matches Ok((after, _)) && after.losses == state.losses),
{
}

} // verus!
