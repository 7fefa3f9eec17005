use vstd::prelude::*;

verus! {

/// Key by which the state hash orders what it visits: for a projectile the
/// attacker's id, then the bit patterns of its x and y position.
pub type HashKey = (u64, u32, u32);

/// `a` sorts no later than `b`: compared field by field.
pub open spec fn key_le(a: HashKey, b: HashKey) -> bool {
    a.0 < b.0 || (a.0 == b.0 && (a.1 < b.1 || (a.1 == b.1 && a.2 <= b.2)))
}

/// `order` lists every index of `keys` once, with their keys in
/// non-decreasing order: the order in which the state hash visits them.
pub open spec fn is_hash_order(keys: Seq<HashKey>, order: Seq<usize>) -> bool {
    &&& order.len() == keys.len()
    &&& order.no_duplicates()
    &&& forall|i: int| 0 <= i < order.len() ==> #[trigger] order[i] < keys.len()
    &&& forall|i: int, j: int| 0 <= i < j < order.len() ==> key_le(keys[order[i] as int], keys[order[j] as int])
}

fn key_le_exec(a: HashKey, b: HashKey) -> (r: bool)
    ensures
        r == key_le(a, b),
{
    a.0 < b.0 || (a.0 == b.0 && (a.1 < b.1 || (a.1 == b.1 && a.2 <= b.2)))
}

/// The order in which the state hash visits items with these keys, so that
/// both peers hash in the same order whatever order they hold them in.
pub fn hash_order(keys: &[HashKey]) -> (order: Vec<usize>)
    ensures
        is_hash_order(keys@, order@),
{
    let n = keys.len();
    let mut used: Vec<bool> = Vec::new();
    let mut k: usize = 0;
    while k < n
        invariant
            n == keys@.len(),
            k <= n,
            used@.len() == k,
            forall|u: int| 0 <= u < k ==> !#[trigger] used@[u],
        decreases n - k,
    {
        used.push(false);
        k = k + 1;
    }
    let mut order: Vec<usize> = Vec::new();
    while order.len() < n
        invariant
            n == keys@.len(),
            used@.len() == n,
            order@.len() <= n,
            order@.no_duplicates(),
            forall|i: int| 0 <= i < order@.len() ==> #[trigger] order@[i] < n,
            forall|u: int| 0 <= u < n ==> (#[trigger] used@[u] <==> order@.contains(u as usize)),
            forall|i: int, j: int| 0 <= i < j < order@.len() ==> key_le(keys@[order@[i] as int], keys@[order@[j] as int]),
            forall|i: int, u: int| 0 <= i < order@.len() && 0 <= u < n && !used@[u]
                ==> key_le(keys@[#[trigger] order@[i] as int], #[trigger] keys@[u]),
        decreases n - order@.len(),
    {
        // some index is still unused: the used ones are exactly those listed
        let mut best: usize = n;
        let mut u: usize = 0;
        while u < n
            invariant
                n == keys@.len(),
                used@.len() == n,
                u <= n,
                best == n || (best < u && !used@[best as int]),
                best == n ==> forall|v: int| 0 <= v < u ==> #[trigger] used@[v],
                best < n ==> forall|v: int| 0 <= v < u && !used@[v] ==> key_le(#[trigger] keys@[best as int], keys@[v]),
            decreases n - u,
        {
            if !used[u] {
                if best == n || !key_le_exec(keys[best], keys[u]) {
                    best = u;
                }
            }
            u = u + 1;
        }
        if best == n {
            // cannot happen: fewer than n are listed
            proof {
                assert forall|v: usize| (v as int) < n implies #[trigger] order@.contains(v) by {
                    assert(used@[v as int]);
                }
                lemma_all_listed(order@, n as nat);
            }
            return order;
        }
        let ghost before = order@;
        order.push(best);
        used.set(best, true);
        proof {
            assert forall|i: int| 0 <= i < order@.len() implies #[trigger] order@[i] < n by {
                if i < before.len() {
                    assert(order@[i] == before[i]);
                }
            }
            assert forall|v: int| 0 <= v < n implies (#[trigger] used@[v] <==> order@.contains(v as usize)) by {
                if v == best as int {
                    assert(order@[before.len() as int] == best);
                } else {
                    if order@.contains(v as usize) {
                        let w = choose|w: int| 0 <= w < order@.len() && order@[w] == v as usize;
                        assert(w < before.len());
                        assert(before[w] == v as usize);
                    }
                    if before.contains(v as usize) {
                        let w = choose|w: int| 0 <= w < before.len() && before[w] == v as usize;
                        assert(order@[w] == v as usize);
                    }
                }
            }
        }
    }
    order
}

/// `order` lists every index of `ids` once, with ids in non-decreasing order.
pub open spec fn is_id_order(ids: Seq<u64>, order: Seq<usize>) -> bool {
    &&& order.len() == ids.len()
    &&& order.no_duplicates()
    &&& forall|i: int| 0 <= i < order.len() ==> #[trigger] order[i] < ids.len()
    &&& forall|i: int, j: int| 0 <= i < j < order.len() ==> ids[order[i] as int] <= ids[order[j] as int]
}

/// The order in which the state hash visits units: by id.
pub fn unit_hash_order(ids: &[u64]) -> (order: Vec<usize>)
    ensures
        is_id_order(ids@, order@),
{
    let mut keys: Vec<HashKey> = Vec::new();
    let mut i: usize = 0;
    while i < ids.len()
        invariant
            i <= ids@.len(),
            keys@.len() == i,
            forall|j: int| 0 <= j < i ==> #[trigger] keys@[j] == (ids@[j], 0u32, 0u32),
        decreases ids@.len() - i,
    {
        keys.push((ids[i], 0, 0));
        i = i + 1;
    }
    let order = hash_order(keys.as_slice());
    proof {
        assert forall|a: int, b: int| 0 <= a < b < order@.len() implies ids@[order@[a] as int] <= ids@[order@[b] as int] by {
            assert(key_le(keys@[order@[a] as int], keys@[order@[b] as int]));
        }
    }
    order
}

/// If every one of `n` indices is listed in `order`, which has no
/// duplicates, then `order` has at least `n` entries.
proof fn lemma_all_listed(order: Seq<usize>, n: nat)
    requires
        n <= usize::MAX,
        order.no_duplicates(),
        forall|u: usize| (u as int) < n ==> #[trigger] order.contains(u),
    ensures
        order.len() >= n,
{
    let oi = order.map_values(|u: usize| u as int);
    assert(oi.no_duplicates()) by {
        assert forall|i: int, j: int| 0 <= i < oi.len() && 0 <= j < oi.len() && i != j implies oi[i] != oi[j] by {
            assert(order[i] != order[j]);
        }
    }
    let range = vstd::set_lib::set_int_range(0, n as int);
    vstd::set_lib::lemma_int_range(0, n as int);
    assert(range.subset_of(oi.to_set())) by {
        assert forall|x: int| range.contains(x) implies oi.to_set().contains(x) by {
            assert(order.contains(x as usize));
            let w = choose|w: int| 0 <= w < order.len() && order[w] == x as usize;
            assert(oi[w] == x);
        }
    }
    vstd::seq_lib::seq_to_set_is_finite(oi);
    vstd::set_lib::lemma_len_subset(range, oi.to_set());
    oi.unique_seq_to_set();
}

} // verus!
