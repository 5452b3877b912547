use vstd::prelude::*;

verus! {

/// Candidate `a` (with key `key_a`) comes before candidate `b`: by key first,
/// then by position, so that equal keys keep the order they came in.
pub open spec fn comes_before(key_a: u64, index_a: int, key_b: u64, index_b: int) -> bool {
    key_a < key_b || (key_a == key_b && index_a < index_b)
}

/// `order` lists every position of `keys` exactly once, by increasing key; equal
/// keys keep the order they came in (a stable sort).
pub open spec fn is_key_order(keys: Seq<u64>, order: Seq<usize>) -> bool {
    &&& order.len() == keys.len()
    &&& forall|k: int| 0 <= k < order.len() ==> #[trigger] order[k] < keys.len()
    &&& forall|a: int, b: int|
        0 <= a < b < order.len() ==> comes_before(
            keys[#[trigger] order[a] as int],
            order[a] as int,
            keys[#[trigger] order[b] as int],
            order[b] as int,
        )
}

/// A key order holds every position exactly once.
pub proof fn lemma_key_order_is_permutation(keys: Seq<u64>, order: Seq<usize>)
    requires
        is_key_order(keys, order),
    ensures
        order.no_duplicates(),
        forall|i: usize| i < keys.len() ==> #[trigger] order.contains(i),
{
    assert forall|a: int, b: int|
        0 <= a < order.len() && 0 <= b < order.len() && a != b implies order[a] != order[b] by {
        if a < b {
            assert(comes_before(keys[order[a] as int], order[a] as int, keys[order[b] as int], order[b] as int));
        } else {
            assert(comes_before(keys[order[b] as int], order[b] as int, keys[order[a] as int], order[a] as int));
        }
    }
    lemma_injective_covers(order, keys.len() as int);
}

/// `n` distinct values below `n` cover every value below `n`.
proof fn lemma_injective_covers(order: Seq<usize>, n: int)
    requires
        order.len() == n,
        forall|k: int| 0 <= k < order.len() ==> #[trigger] order[k] < n,
        order.no_duplicates(),
    ensures
        forall|i: usize| i < n ==> #[trigger] order.contains(i),
{
    let as_int = order.map_values(|v: usize| v as int);
    assert forall|i: usize| i < n implies #[trigger] order.contains(i) by {
        if !order.contains(i) {
            assert(as_int.no_duplicates()) by {
                assert forall|a: int, b: int|
                    0 <= a < as_int.len() && 0 <= b < as_int.len() && a != b implies as_int[a]
                    != as_int[b] by {
                    assert(order[a] != order[b]);
                }
            }
            as_int.unique_seq_to_set();
            let range = vstd::set_lib::set_int_range(0, n);
            vstd::set_lib::lemma_int_range(0, n);
            let rest = range.remove(i as int);
            assert(as_int.to_set().subset_of(rest)) by {
                assert forall|x: int| as_int.to_set().contains(x) implies rest.contains(x) by {
                    let k = choose|k: int| 0 <= k < as_int.len() && as_int[k] == x;
                    assert(order[k] < n);
                    if x == i as int {
                        assert(order.contains(i));
                    }
                }
            }
            vstd::set_lib::lemma_len_subset(as_int.to_set(), rest);
        }
    }
}

/// The positions of `keys` sorted by key, ties kept in the order given.
pub fn order_by_keys(keys: &Vec<u64>) -> (order: Vec<usize>)
    ensures
        is_key_order(keys@, order@),
{
    let mut order: Vec<usize> = Vec::new();
    let mut next: usize = 0;
    while next < keys.len()
        invariant
            0 <= next <= keys@.len(),
            is_key_order(keys@.take(next as int), order@),
            forall|k: int| 0 <= k < order@.len() ==> #[trigger] order@[k] < next,
        decreases keys@.len() - next,
    {
        let key = keys[next];
        let ghost prefix = keys@.take(next as int);
        let ghost grown = keys@.take(next + 1);
        assert forall|p: int| 0 <= p < prefix.len() implies prefix[p] == grown[p] by {}
        let mut position = order.len();
        while position > 0 && keys[order[position - 1]] > key
            invariant
                0 <= position <= order@.len(),
                next < keys@.len(),
                order@.len() == next,
                forall|k: int| 0 <= k < order@.len() ==> #[trigger] order@[k] < next,
                forall|k: int| position <= k < order@.len() ==> keys@[#[trigger] order@[k] as int] > key,
            decreases position,
        {
            position = position - 1;
        }
        let ghost before = order@;
        order.insert(position, next);
        proof {
            assert(order@ == before.insert(position as int, next));
            assert forall|k: int| 0 <= k < order@.len() implies #[trigger] order@[k] < next + 1 by {
                if k < position {
                    assert(order@[k] == before[k]);
                } else if k > position {
                    assert(order@[k] == before[k - 1]);
                }
            }
            // keys before `position` are no larger than `key`
            assert forall|k: int| 0 <= k < position implies keys@[#[trigger] before[k] as int] <= key by {
                if position > 0 {
                    let last = position - 1;
                    assert(keys@[before[last] as int] <= key);
                    if k < last {
                        assert(comes_before(
                            prefix[before[k] as int],
                            before[k] as int,
                            prefix[before[last] as int],
                            before[last] as int,
                        ));
                    }
                }
            }
            assert forall|a: int, b: int|
                0 <= a < b < order@.len() implies comes_before(
                grown[#[trigger] order@[a] as int],
                order@[a] as int,
                grown[#[trigger] order@[b] as int],
                order@[b] as int,
            ) by {
                if a < position && b < position {
                    assert(order@[a] == before[a] && order@[b] == before[b]);
                    assert(comes_before(
                        prefix[before[a] as int],
                        before[a] as int,
                        prefix[before[b] as int],
                        before[b] as int,
                    ));
                } else if a < position && b == position {
                    assert(order@[a] == before[a]);
                    assert(keys@[before[a] as int] <= key);
                } else if a < position {
                    assert(order@[a] == before[a] && order@[b] == before[b - 1]);
                    if b - 1 > a {
                        assert(comes_before(
                            prefix[before[a] as int],
                            before[a] as int,
                            prefix[before[b - 1] as int],
                            before[b - 1] as int,
                        ));
                    }
                } else if a == position {
                    assert(order@[b] == before[b - 1]);
                    assert(keys@[before[b - 1] as int] > key);
                } else {
                    assert(order@[a] == before[a - 1] && order@[b] == before[b - 1]);
                    assert(comes_before(
                        prefix[before[a - 1] as int],
                        before[a - 1] as int,
                        prefix[before[b - 1] as int],
                        before[b - 1] as int,
                    ));
                }
            }
        }
        next = next + 1;
    }
    assert(keys@.take(next as int) =~= keys@);
    order
}


/// A key order is unique: the stable sort of a list of keys has one outcome.
pub proof fn lemma_key_order_unique(keys: Seq<u64>, first: Seq<usize>, second: Seq<usize>)
    requires
        is_key_order(keys, first),
        is_key_order(keys, second),
    ensures
        first == second,
{
    if first.len() > 0 {
        lemma_key_order_prefix(keys, first, second, first.len() - 1);
    }
    assert(first =~= second);
}

proof fn lemma_key_order_prefix(keys: Seq<u64>, first: Seq<usize>, second: Seq<usize>, k: int)
    requires
        is_key_order(keys, first),
        is_key_order(keys, second),
        0 <= k < first.len(),
    ensures
        forall|j: int| 0 <= j <= k ==> first[j] == second[j],
    decreases k,
{
    if k > 0 {
        lemma_key_order_prefix(keys, first, second, k - 1);
    }
    lemma_key_order_is_permutation(keys, first);
    lemma_key_order_is_permutation(keys, second);
    let x = first[k];
    let y = second[k];
    if x != y {
        assert(second.contains(x));
        let p = choose|p: int| 0 <= p < second.len() && second[p] == x;
        assert(first.contains(y));
        let q = choose|q: int| 0 <= q < first.len() && first[q] == y;
        if p < k {
            assert(first[p] == second[p]);
        }
        if q < k {
            assert(first[q] == second[q]);
        }
        assert(p > k);
        assert(q > k);
        assert(comes_before(keys[second[k] as int], second[k] as int, keys[second[p] as int], second[p] as int));
        assert(comes_before(keys[first[k] as int], first[k] as int, keys[first[q] as int], first[q] as int));
    }
}

/// A key that orders first by `high`, then by `low`.
pub open spec fn spec_pair_key(high: u32, low: u32) -> u64 {
    (high as int * 0x1_0000_0000 + low as int) as u64
}

/// Pair keys compare as their parts do, the first part first.
pub proof fn lemma_pair_key_order(high_a: u32, low_a: u32, high_b: u32, low_b: u32)
    ensures
        spec_pair_key(high_a, low_a) < spec_pair_key(high_b, low_b) <==> (high_a < high_b || (
        high_a == high_b && low_a < low_b)),
        spec_pair_key(high_a, low_a) == spec_pair_key(high_b, low_b) <==> (high_a == high_b
            && low_a == low_b),
{
    assert(high_a as int * 0x1_0000_0000 + low_a as int <= u64::MAX) by (nonlinear_arith)
        requires
            high_a <= u32::MAX,
            low_a <= u32::MAX,
    ;
    assert(high_b as int * 0x1_0000_0000 + low_b as int <= u64::MAX) by (nonlinear_arith)
        requires
            high_b <= u32::MAX,
            low_b <= u32::MAX,
    ;
    if high_a < high_b {
        assert(high_a as int * 0x1_0000_0000 + (low_a as int) < high_b as int * 0x1_0000_0000)
            by (nonlinear_arith)
            requires
                high_a < high_b,
                low_a <= u32::MAX,
        ;
    } else if high_b < high_a {
        assert(high_b as int * 0x1_0000_0000 + (low_b as int) < high_a as int * 0x1_0000_0000)
            by (nonlinear_arith)
            requires
                high_b < high_a,
                low_b <= u32::MAX,
        ;
    }
}

pub fn pair_key(high: u32, low: u32) -> (key: u64)
    ensures
        key == spec_pair_key(high, low),
{
    assert(high as int * 0x1_0000_0000 + low as int <= u64::MAX) by (nonlinear_arith)
        requires
            high <= u32::MAX,
            low <= u32::MAX,
    ;
    (high as u64) * 0x1_0000_0000 + (low as u64)
}

/// `out` holds `items` sorted by `keys`, ties in the order given.
pub open spec fn is_sorted_by_keys<T>(items: Seq<T>, keys: Seq<u64>, out: Seq<T>) -> bool {
    exists|order: Seq<usize>|
        #![trigger is_key_order(keys, order)]
        is_key_order(keys, order) && out.len() == order.len() && forall|k: int|
            0 <= k < out.len() ==> out[k] == items[#[trigger] order[k] as int]
}

/// Sorts `items` by `keys` (one key per item), keeping ties in the order given.
pub fn sort_by_keys<T: Copy>(items: &Vec<T>, keys: &Vec<u64>) -> (out: Vec<T>)
    requires
        items@.len() == keys@.len(),
    ensures
        is_sorted_by_keys(items@, keys@, out@),
{
    let order = order_by_keys(keys);
    let mut out: Vec<T> = Vec::new();
    let mut index: usize = 0;
    while index < order.len()
        invariant
            is_key_order(keys@, order@),
            items@.len() == keys@.len(),
            0 <= index <= order@.len(),
            out@.len() == index,
            forall|k: int| 0 <= k < index ==> out@[k] == items@[#[trigger] order@[k] as int],
        decreases order@.len() - index,
    {
        assert(order@[index as int] < keys@.len());
        out.push(items[order[index]]);
        index = index + 1;
    }
    assert(is_key_order(keys@, order@));
    out
}

/// Sorting by keys has one outcome: two lists that both hold `items` sorted by
/// `keys` are the same list.
pub proof fn lemma_sorted_output_unique<T>(items: Seq<T>, keys: Seq<u64>, first: Seq<T>, second: Seq<T>)
    requires
        is_sorted_by_keys(items, keys, first),
        is_sorted_by_keys(items, keys, second),
    ensures
        first == second,
{
    let a = choose|order: Seq<usize>|
        is_key_order(keys, order) && first.len() == order.len() && forall|k: int|
            0 <= k < first.len() ==> first[k] == items[#[trigger] order[k] as int];
    let b = choose|order: Seq<usize>|
        is_key_order(keys, order) && second.len() == order.len() && forall|k: int|
            0 <= k < second.len() ==> second[k] == items[#[trigger] order[k] as int];
    lemma_key_order_unique(keys, a, b);
    assert forall|k: int| 0 <= k < first.len() implies first[k] == second[k] by {
        assert(first[k] == items[a[k] as int]);
        assert(second[k] == items[b[k] as int]);
    }
    assert(first =~= second);
}


/// `pool` lists positions in increasing order.
pub open spec fn increasing(pool: Seq<usize>) -> bool {
    forall|a: int, b: int| 0 <= a < b < pool.len() ==> pool[a] < pool[b]
}

/// Sorting an increasing list of positions by a key of each position keeps every
/// position once and orders them by key, ties by position.
pub proof fn lemma_sorted_positions(pool: Seq<usize>, key_of: spec_fn(usize) -> u64, out: Seq<usize>)
    requires
        pool.len() <= usize::MAX,
        increasing(pool),
        is_sorted_by_keys(pool, pool.map_values(key_of), out),
    ensures
        out.len() == pool.len(),
        forall|k: int| 0 <= k < out.len() ==> pool.contains(#[trigger] out[k]),
        forall|p: int| 0 <= p < pool.len() ==> out.contains(#[trigger] pool[p]),
        forall|a: int, b: int|
            0 <= a < b < out.len() ==> key_of(#[trigger] out[a]) < key_of(#[trigger] out[b]) || (key_of(out[a])
                == key_of(out[b]) && out[a] < out[b]),
{
    let keys = pool.map_values(key_of);
    let order = choose|order: Seq<usize>|
        #![trigger is_key_order(keys, order)]
        is_key_order(keys, order) && out.len() == order.len() && forall|k: int|
            0 <= k < out.len() ==> out[k] == pool[#[trigger] order[k] as int];
    lemma_key_order_is_permutation(keys, order);
    assert forall|k: int| 0 <= k < out.len() implies pool.contains(#[trigger] out[k]) by {
        assert(order[k] < keys.len());
        assert(out[k] == pool[order[k] as int]);
    }
    assert forall|p: int| 0 <= p < pool.len() implies out.contains(#[trigger] pool[p]) by {
        assert(order.contains(p as usize));
        let k = choose|k: int| 0 <= k < order.len() && order[k] == p as usize;
        assert(out[k] == pool[order[k] as int]);
        assert(out[k] == pool[p]);
    }
    assert forall|a: int, b: int| 0 <= a < b < out.len() implies key_of(#[trigger] out[a]) < key_of(
        #[trigger] out[b],
    ) || (key_of(out[a]) == key_of(out[b]) && out[a] < out[b]) by {
        let pa = order[a] as int;
        let pb = order[b] as int;
        assert(pa < keys.len() && pb < keys.len());
        assert(out[a] == pool[pa]);
        assert(out[b] == pool[pb]);
        assert(comes_before(keys[pa], pa, keys[pb], pb));
        assert(keys[pa] == key_of(pool[pa]));
        assert(keys[pb] == key_of(pool[pb]));
    }
}

} // verus!
