//! Stable ordering by text or by number, as a list of positions.
use crate::collections::hash_keys;
use crate::textmap::{
    comes_before, lemma_text_before_total, lemma_text_before_transitive, text_before,
};
use std::collections::HashMap;
use vstd::prelude::*;

verus! {

/// Where the last of `keys` belongs among the positions in `order`: ahead of the first one
/// with a larger key.
pub open spec fn text_place(keys: Seq<Seq<char>>, order: Seq<usize>, at: int) -> int
    decreases order.len() - at,
{
    if at < 0 || at >= order.len() {
        order.len() as int
    } else if text_before(keys.last(), keys[order[at] as int]) {
        at
    } else {
        text_place(keys, order, at + 1)
    }
}

/// The positions of the keys in ascending order of the keys; equal keys keep their order.
pub open spec fn text_order(keys: Seq<Seq<char>>) -> Seq<usize>
    decreases keys.len(),
{
    if keys.len() == 0 {
        seq![]
    } else {
        let before = text_order(keys.drop_last());
        before.insert(text_place(keys, before, 0), (keys.len() - 1) as usize)
    }
}

/// Where the last of `keys` belongs among the positions in `order`: ahead of the first one
/// with a larger key.
pub open spec fn number_place(keys: Seq<u32>, order: Seq<usize>, at: int) -> int
    decreases order.len() - at,
{
    if at < 0 || at >= order.len() {
        order.len() as int
    } else if keys.last() < keys[order[at] as int] {
        at
    } else {
        number_place(keys, order, at + 1)
    }
}

/// The positions of the keys in ascending order of the keys; equal keys keep their order.
pub open spec fn number_order(keys: Seq<u32>) -> Seq<usize>
    decreases keys.len(),
{
    if keys.len() == 0 {
        seq![]
    } else {
        let before = number_order(keys.drop_last());
        before.insert(number_place(keys, before, 0), (keys.len() - 1) as usize)
    }
}

/// The items in the order given by `order`.
pub open spec fn arranged<T>(items: Seq<T>, order: Seq<usize>) -> Seq<T> {
    order.map_values(|i: usize| items[i as int])
}

proof fn lemma_text_place(keys: Seq<Seq<char>>, order: Seq<usize>, at: int)
    requires
        0 <= at <= order.len(),
    ensures
        at <= text_place(keys, order, at) <= order.len(),
        forall|i: int|
            at <= i < text_place(keys, order, at) ==> !text_before(
                keys.last(),
                keys[#[trigger] order[i] as int],
            ),
        text_place(keys, order, at) < order.len() ==> text_before(
            keys.last(),
            keys[order[text_place(keys, order, at)] as int],
        ),
    decreases order.len() - at,
{
    if at < order.len() && !text_before(keys.last(), keys[order[at] as int]) {
        lemma_text_place(keys, order, at + 1);
    }
}

proof fn lemma_number_place(keys: Seq<u32>, order: Seq<usize>, at: int)
    requires
        0 <= at <= order.len(),
    ensures
        at <= number_place(keys, order, at) <= order.len(),
        forall|i: int|
            at <= i < number_place(keys, order, at) ==> keys.last()
                >= keys[#[trigger] order[i] as int],
        number_place(keys, order, at) < order.len() ==> keys.last() < keys[order[number_place(
            keys,
            order,
            at,
        )] as int],
    decreases order.len() - at,
{
    if at < order.len() && keys.last() >= keys[order[at] as int] {
        lemma_number_place(keys, order, at + 1);
    }
}

/// Each position below `n` exactly once.
pub open spec fn each_once(order: Seq<usize>, n: nat) -> bool {
    &&& order.len() == n
    &&& order.no_duplicates()
    &&& forall|i: int| 0 <= i < order.len() ==> (#[trigger] order[i]) < n
}

proof fn lemma_each_once_insert(order: Seq<usize>, n: nat, at: int)
    requires
        each_once(order, n),
        0 <= at <= n,
        n < usize::MAX,
    ensures
        each_once(order.insert(at, n as usize), n + 1),
{
    let longer = order.insert(at, n as usize);
    assert forall|i: int, j: int|
        0 <= i < longer.len() && 0 <= j < longer.len() && i != j implies longer[i] != longer[j] by {
        let a = if i < at { i } else { i - 1 };
        let b = if j < at { j } else { j - 1 };
        if i != at && j != at {
            assert(longer[i] == order[a] && longer[j] == order[b]);
        } else if i == at {
            assert(longer[j] == order[b]);
        } else {
            assert(longer[i] == order[a]);
        }
    }
    assert forall|i: int| 0 <= i < longer.len() implies (#[trigger] longer[i]) < n + 1 by {
        if i < at {
            assert(longer[i] == order[i]);
        } else if i > at {
            assert(longer[i] == order[i - 1]);
        }
    }
}

/// Every position stands ahead of those behind it.
pub open spec fn in_sequence(order: Seq<usize>, ahead: spec_fn(usize, usize) -> bool) -> bool {
    forall|i: int, j: int| 0 <= i < j < order.len() ==> ahead(#[trigger] order[i], #[trigger] order[j])
}

proof fn lemma_in_sequence_insert(
    order: Seq<usize>,
    at: int,
    n: usize,
    ahead: spec_fn(usize, usize) -> bool,
)
    requires
        0 <= at <= order.len(),
        in_sequence(order, ahead),
        forall|i: int| 0 <= i < at ==> ahead(#[trigger] order[i], n),
        forall|i: int| at <= i < order.len() ==> ahead(n, #[trigger] order[i]),
    ensures
        in_sequence(order.insert(at, n), ahead),
{
    let longer = order.insert(at, n);
    assert forall|i: int, j: int| 0 <= i < j < longer.len() implies ahead(
        #[trigger] longer[i],
        #[trigger] longer[j],
    ) by {
        if j < at {
            assert(longer[i] == order[i] && longer[j] == order[j]);
        } else if j == at {
            assert(longer[i] == order[i]);
        } else if i < at {
            assert(longer[i] == order[i] && longer[j] == order[j - 1]);
        } else if i == at {
            assert(longer[j] == order[j - 1]);
        } else {
            assert(longer[i] == order[i - 1] && longer[j] == order[j - 1]);
        }
    }
}

/// The key at `a` is smaller than that at `b`, or the same and `a` comes first.
pub open spec fn text_ahead(keys: Seq<Seq<char>>) -> spec_fn(usize, usize) -> bool {
    |a: usize, b: usize|
        text_before(keys[a as int], keys[b as int]) || (keys[a as int] == keys[b as int] && a < b)
}

/// The key at `a` is smaller than that at `b`, or the same and `a` comes first.
pub open spec fn number_ahead(keys: Seq<u32>) -> spec_fn(usize, usize) -> bool {
    |a: usize, b: usize|
        keys[a as int] < keys[b as int] || (keys[a as int] == keys[b as int] && a < b)
}

/// Ordering by text is a stable sort: every position comes once, no key stands ahead of a
/// smaller one, and positions with equal keys ascend.
pub proof fn law_text_order_is_stable_sort(keys: Seq<Seq<char>>)
    requires
        keys.len() <= usize::MAX,
    ensures
        each_once(text_order(keys), keys.len()),
        in_sequence(text_order(keys), text_ahead(keys)),
    decreases keys.len(),
{
    if keys.len() > 0 {
        let short = keys.drop_last();
        let before = text_order(short);
        let at = text_place(keys, before, 0);
        let n = (keys.len() - 1) as usize;
        let ahead = text_ahead(keys);
        law_text_order_is_stable_sort(short);
        lemma_text_place(keys, before, 0);
        lemma_each_once_insert(before, short.len(), at);
        assert forall|i: int, j: int| 0 <= i < j < before.len() implies ahead(
            #[trigger] before[i],
            #[trigger] before[j],
        ) by {
            assert(text_ahead(short)(before[i], before[j]));
            assert(short[before[i] as int] == keys[before[i] as int]);
            assert(short[before[j] as int] == keys[before[j] as int]);
        }
        assert forall|i: int| 0 <= i < at implies ahead(#[trigger] before[i], n) by {
            assert(!text_before(keys.last(), keys[before[i] as int]));
            lemma_text_before_total(keys[before[i] as int], keys.last());
        }
        assert forall|i: int| at <= i < before.len() implies ahead(n, #[trigger] before[i]) by {
            assert(text_before(keys.last(), keys[before[at] as int]));
            if i > at {
                assert(ahead(before[at], before[i]));
                if text_before(keys[before[at] as int], keys[before[i] as int]) {
                    lemma_text_before_transitive(
                        keys.last(),
                        keys[before[at] as int],
                        keys[before[i] as int],
                    );
                }
            }
        }
        lemma_in_sequence_insert(before, at, n, ahead);
    }
}

/// Every position comes up when keys are ordered.
pub proof fn lemma_text_order_lists(keys: Seq<Seq<char>>, k: int)
    requires
        0 <= k < keys.len() <= usize::MAX,
    ensures
        text_order(keys).contains(k as usize),
    decreases keys.len(),
{
    let short = keys.drop_last();
    let before = text_order(short);
    let at = text_place(keys, before, 0);
    let n = (keys.len() - 1) as usize;
    let longer = before.insert(at, n);
    lemma_text_place(keys, before, 0);
    if k == n {
        assert(longer[at] == n);
    } else {
        lemma_text_order_lists(short, k);
        let i = before.index_of(k as usize);
        assert(longer[if i < at { i } else { i + 1 }] == before[i]);
    }
}

/// Ordering by number is a stable sort: every position comes once, no key stands ahead of a
/// smaller one, and positions with equal keys ascend.
pub proof fn law_number_order_is_stable_sort(keys: Seq<u32>)
    requires
        keys.len() <= usize::MAX,
    ensures
        each_once(number_order(keys), keys.len()),
        in_sequence(number_order(keys), number_ahead(keys)),
    decreases keys.len(),
{
    if keys.len() > 0 {
        let short = keys.drop_last();
        let before = number_order(short);
        let at = number_place(keys, before, 0);
        let n = (keys.len() - 1) as usize;
        let ahead = number_ahead(keys);
        law_number_order_is_stable_sort(short);
        lemma_number_place(keys, before, 0);
        lemma_each_once_insert(before, short.len(), at);
        assert forall|i: int, j: int| 0 <= i < j < before.len() implies ahead(
            #[trigger] before[i],
            #[trigger] before[j],
        ) by {
            assert(number_ahead(short)(before[i], before[j]));
            assert(short[before[i] as int] == keys[before[i] as int]);
            assert(short[before[j] as int] == keys[before[j] as int]);
        }
        assert forall|i: int| 0 <= i < at implies ahead(#[trigger] before[i], n) by {
            assert(keys.last() >= keys[before[i] as int]);
        }
        assert forall|i: int| at <= i < before.len() implies ahead(n, #[trigger] before[i]) by {
            assert(keys.last() < keys[before[at] as int]);
            if i > at {
                assert(ahead(before[at], before[i]));
            }
        }
        lemma_in_sequence_insert(before, at, n, ahead);
    }
}

pub open spec fn borrowed_texts(keys: Seq<&str>) -> Seq<Seq<char>> {
    keys.map_values(|k: &str| k@)
}

/// The positions of the keys in ascending order of the keys; equal keys keep their order.
pub fn order_by_text(keys: &Vec<&str>) -> (order: Vec<usize>)
    ensures
        order@ == text_order(borrowed_texts(keys@)),
        each_once(order@, keys@.len()),
{
    let ghost all = borrowed_texts(keys@);
    let mut order: Vec<usize> = Vec::new();
    let mut n: usize = 0;
    while n < keys.len()
        invariant
            n <= keys@.len(),
            all == borrowed_texts(keys@),
            order@ == text_order(all.take(n as int)),
            each_once(order@, n as nat),
        decreases keys@.len() - n,
    {
        let ghost longer = all.take(n + 1);
        assert(longer.drop_last() =~= all.take(n as int));
        assert(longer.last() == keys@[n as int]@);
        let mut at: usize = 0;
        while at < order.len() && !comes_before(keys[n], keys[order[at]])
            invariant
                at <= order@.len(),
                n < keys@.len(),
                all == borrowed_texts(keys@),
                longer == all.take(n + 1),
                each_once(order@, n as nat),
                text_place(longer, order@, 0) == text_place(longer, order@, at as int),
            decreases order@.len() - at,
        {
            assert(longer[order@[at as int] as int] == keys@[order@[at as int] as int]@);
            assert(longer.last() == keys@[n as int]@);
            at += 1;
        }
        if at < order.len() {
            assert(longer[order@[at as int] as int] == keys@[order@[at as int] as int]@);
        }
        proof {
            lemma_each_once_insert(order@, n as nat, at as int);
        }
        order.insert(at, n);
        n += 1;
    }
    assert(all.take(all.len() as int) =~= all);
    order
}

/// The positions of the keys in ascending order of the keys; equal keys keep their order.
pub fn order_by_number(keys: &Vec<u32>) -> (order: Vec<usize>)
    ensures
        order@ == number_order(keys@),
        each_once(order@, keys@.len()),
{
    let ghost all = keys@;
    let mut order: Vec<usize> = Vec::new();
    let mut n: usize = 0;
    while n < keys.len()
        invariant
            n <= keys@.len(),
            all == keys@,
            order@ == number_order(all.take(n as int)),
            each_once(order@, n as nat),
        decreases keys@.len() - n,
    {
        let ghost longer = all.take(n + 1);
        assert(longer.drop_last() =~= all.take(n as int));
        let mut at: usize = 0;
        while at < order.len() && keys[n] >= keys[order[at]]
            invariant
                at <= order@.len(),
                n < keys@.len(),
                all == keys@,
                longer == all.take(n + 1),
                each_once(order@, n as nat),
                number_place(longer, order@, 0) == number_place(longer, order@, at as int),
            decreases order@.len() - at,
        {
            assert(longer[order@[at as int] as int] == keys@[order@[at as int] as int]);
            assert(longer.last() == keys@[n as int]);
            at += 1;
        }
        if at < order.len() {
            assert(longer[order@[at as int] as int] == keys@[order@[at as int] as int]);
        }
        proof {
            lemma_each_once_insert(order@, n as nat, at as int);
        }
        order.insert(at, n);
        n += 1;
    }
    assert(all.take(all.len() as int) =~= all);
    order
}

/// Numbers that strictly ascend.
pub open spec fn increasing(numbers: Seq<u32>) -> bool {
    forall|i: int, j: int| 0 <= i < j < numbers.len() ==> #[trigger] numbers[i] < #[trigger] numbers[j]
}

/// The members of a set in ascending order.
pub open spec fn ascending_numbers(numbers: Set<u32>) -> Seq<u32> {
    choose|s: Seq<u32>| increasing(s) && s.to_set() == numbers
}

proof fn lemma_increasing_unique(a: Seq<u32>, b: Seq<u32>)
    requires
        increasing(a),
        increasing(b),
        a.to_set() == b.to_set(),
    ensures
        a == b,
    decreases a.len(),
{
    if a.len() == 0 {
        if b.len() > 0 {
            assert(b.to_set().contains(b[0]));
            assert(a.contains(b[0]));
        }
        assert(a =~= b);
    } else {
        assert(a.to_set().contains(a.last()));
        assert(b.contains(a.last()));
        assert(b.to_set().contains(b.last()));
        assert(a.contains(b.last()));
        assert(a.last() == b.last());
        let x = a.drop_last();
        let y = b.drop_last();
        assert forall|k: u32| x.to_set().contains(k) == y.to_set().contains(k) by {
            if x.contains(k) {
                let n = choose|n: int| 0 <= n < x.len() && x[n] == k;
                assert(a[n] == k);
                assert(a.to_set().contains(k));
                let m = choose|m: int| 0 <= m < b.len() && b[m] == k;
                assert(y[m] == k);
            }
            if y.contains(k) {
                let m = choose|m: int| 0 <= m < y.len() && y[m] == k;
                assert(b[m] == k);
                assert(b.to_set().contains(k));
                let n = choose|n: int| 0 <= n < a.len() && a[n] == k;
                assert(x[n] == k);
            }
        }
        assert(x.to_set() =~= y.to_set());
        lemma_increasing_unique(x, y);
        assert(a =~= x.push(a.last()));
        assert(b =~= y.push(b.last()));
    }
}

/// The keys of a map in ascending order.
pub fn ordered_keys<V>(map: &HashMap<u32, V>) -> (keys: Vec<u32>)
    ensures
        keys@ == ascending_numbers(map@.dom()),
        keys@.to_set() == map@.dom(),
        increasing(keys@),
{
    let found = hash_keys(map);
    let ghost all = found@;
    let total: usize = found.len();
    let order = order_by_number(&found);
    let mut keys: Vec<u32> = Vec::new();
    let mut i: usize = 0;
    while i < order.len()
        invariant
            i <= order@.len(),
            each_once(order@, found@.len()),
            keys@.len() == i,
            forall|j: int| 0 <= j < i ==> #[trigger] keys@[j] == found@[order@[j] as int],
        decreases order@.len() - i,
    {
        keys.push(found[order[i]]);
        i += 1;
    }
    proof {
        assert(total == all.len());
        law_number_order_is_stable_sort(all);
        assert forall|i: int, j: int| 0 <= i < j < keys@.len() implies #[trigger] keys@[i]
            < #[trigger] keys@[j] by {
            let a = order@[i];
            let b = order@[j];
            assert(number_ahead(all)(a, b));
            assert(all[a as int] == keys@[i] && all[b as int] == keys@[j]);
            assert(a != b);
        }
        lemma_each_once_covers(order@, all.len());
        assert forall|k: u32| keys@.to_set().contains(k) == all.to_set().contains(k) by {
            if keys@.contains(k) {
                let i = choose|i: int| 0 <= i < keys@.len() && keys@[i] == k;
                assert(all[order@[i] as int] == k);
            }
            if all.contains(k) {
                let n = choose|n: int| 0 <= n < all.len() && all[n] == k;
                assert(order@.contains(n as usize));
                let i = choose|i: int| 0 <= i < order@.len() && order@[i] == n as usize;
                assert(keys@[i] == k);
            }
        }
        assert(keys@.to_set() =~= map@.dom());
        lemma_increasing_unique(keys@, ascending_numbers(map@.dom()));
    }
    keys
}

/// A list of each position once has every position.
proof fn lemma_each_once_covers(order: Seq<usize>, n: nat)
    requires
        each_once(order, n),
        n <= usize::MAX,
    ensures
        forall|i: usize| i < n ==> order.contains(i),
{
    let seen = order.to_set();
    let all = Set::new(|i: usize| i < n);
    order.unique_seq_to_set();
    assert(seen.subset_of(all));
    lemma_positions(n);
    vstd::set_lib::lemma_subset_equality(seen, all);
    assert forall|i: usize| i < n implies order.contains(i) by {
        assert(all.contains(i));
        assert(seen.contains(i));
    }
}

proof fn lemma_positions(n: nat)
    requires
        n <= usize::MAX,
    ensures
        Set::new(|i: usize| i < n).finite(),
        Set::new(|i: usize| i < n).len() == n,
    decreases n,
{
    let all = Set::new(|i: usize| i < n);
    if n == 0 {
        assert(all =~= Set::empty());
    } else {
        lemma_positions((n - 1) as nat);
        let less = Set::new(|i: usize| i < (n - 1) as nat);
        assert(all =~= less.insert((n - 1) as usize));
    }
}

} // verus!
