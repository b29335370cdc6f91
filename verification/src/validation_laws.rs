//! When the fields of a message follow the layout.
use crate::validator::{last_place, order_findings};
use vstd::prelude::*;

verus! {

/// The tags that the layout knows stand in its order.
pub open spec fn follows(tags: Seq<u32>, places: Map<u32, usize>) -> bool {
    forall|i: int, j: int|
        0 <= i < j < tags.len() && places.contains_key(tags[i]) && places.contains_key(tags[j])
            ==> places[#[trigger] tags[i]] <= places[#[trigger] tags[j]]
}

/// The last place is that of a tag behind which the layout knows none.
proof fn lemma_last_place(tags: Seq<u32>, places: Map<u32, usize>) -> (at: int)
    ensures
        -1 <= at < tags.len(),
        at < 0 ==> last_place(tags, places) == -1,
        at >= 0 ==> places.contains_key(tags[at]) && last_place(tags, places) == places[tags[at]],
        forall|i: int| at < i < tags.len() ==> !places.contains_key(#[trigger] tags[i]),
    decreases tags.len(),
{
    if tags.len() == 0 {
        -1
    } else if places.contains_key(tags.last()) {
        tags.len() - 1
    } else {
        let shorter = tags.drop_last();
        let at = lemma_last_place(shorter, places);
        assert forall|i: int| at < i < tags.len() implies !places.contains_key(
            #[trigger] tags[i],
        ) by {
            if i < shorter.len() {
                assert(tags[i] == shorter[i]);
            }
        }
        at
    }
}

/// No tag is found out of order exactly where the tags that the layout knows stand in its
/// order, with those that it does not know anywhere between them.
pub proof fn law_ordered_tags_are_clean(tags: Seq<u32>, places: Map<u32, usize>)
    ensures
        order_findings(tags, places).len() == 0 <==> follows(tags, places),
    decreases tags.len(),
{
    if tags.len() > 0 {
        let shorter = tags.drop_last();
        let n = shorter.len() as int;
        law_ordered_tags_are_clean(shorter, places);
        let at = lemma_last_place(shorter, places);
        assert(forall|i: int| 0 <= i < n ==> #[trigger] shorter[i] == tags[i]);
        if follows(tags, places) {
            assert forall|i: int, j: int|
                0 <= i < j < n && places.contains_key(shorter[i]) && places.contains_key(
                    shorter[j],
                ) implies places[#[trigger] shorter[i]] <= places[#[trigger] shorter[j]] by {
                assert(places[tags[i]] <= places[tags[j]]);
            }
            if at >= 0 && places.contains_key(tags[n]) {
                assert(places[tags[at]] <= places[tags[n]]);
            }
        }
        if order_findings(tags, places).len() == 0 {
            assert forall|i: int, j: int|
                0 <= i < j <= n && places.contains_key(tags[i]) && places.contains_key(
                    tags[j],
                ) implies places[#[trigger] tags[i]] <= places[#[trigger] tags[j]] by {
                assert(shorter[i] == tags[i]);
                if j < n {
                    assert(shorter[j] == tags[j]);
                } else {
                    assert(i <= at);
                    assert(places[shorter[i]] <= places[shorter[at]]);
                }
            }
        }
    }
}

} // verus!
