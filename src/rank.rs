use vstd::prelude::*;

verus! {

/// `a` orders no higher than `b`: first by the first component, then by the
/// second.
pub open spec fn key_le(a: (usize, usize), b: (usize, usize)) -> bool {
    a.0 < b.0 || (a.0 == b.0 && a.1 <= b.1)
}

/// Index `i` holds a highest key, and no later index holds one as high.
pub open spec fn is_last_best(keys: Seq<(usize, usize)>, i: int) -> bool {
    &&& 0 <= i < keys.len()
    &&& forall|j: int| 0 <= j < keys.len() ==> key_le(#[trigger] keys[j], keys[i])
    &&& forall|j: int| i < j < keys.len() ==> !key_le(keys[i], #[trigger] keys[j])
}

/// Index `i` holds a least value, and no earlier index holds one as low.
pub open spec fn is_first_least(vals: Seq<usize>, i: int) -> bool {
    &&& 0 <= i < vals.len()
    &&& forall|j: int| 0 <= j < vals.len() ==> vals[i] <= #[trigger] vals[j]
    &&& forall|j: int| 0 <= j < i ==> vals[i] < #[trigger] vals[j]
}

/// The index of the last among the highest keys: the element that a stable
/// ascending sort puts at the end.
pub fn last_best(keys: &Vec<(usize, usize)>) -> (r: usize)
    requires
        keys@.len() > 0,
    ensures
        is_last_best(keys@, r as int),
{
    let mut best: usize = 0;
    let mut i: usize = 1;
    while i < keys.len()
        invariant
            1 <= i <= keys@.len(),
            0 <= best < i,
            forall|j: int| 0 <= j < i ==> key_le(#[trigger] keys@[j], keys@[best as int]),
            forall|j: int| best < j < i ==> !key_le(keys@[best as int], #[trigger] keys@[j]),
        decreases keys@.len() - i,
    {
        let (a0, a1) = keys[i];
        let (b0, b1) = keys[best];
        if a0 > b0 || (a0 == b0 && a1 >= b1) {
            best = i;
        }
        i = i + 1;
    }
    best
}

/// The index of the first among the least values: the element that a stable
/// ascending sort puts first.
pub fn first_least(vals: &Vec<usize>) -> (r: usize)
    requires
        vals@.len() > 0,
    ensures
        is_first_least(vals@, r as int),
{
    let mut best: usize = 0;
    let mut i: usize = 1;
    while i < vals.len()
        invariant
            1 <= i <= vals@.len(),
            0 <= best < i,
            forall|j: int| 0 <= j < i ==> vals@[best as int] <= #[trigger] vals@[j],
            forall|j: int| 0 <= j < best ==> vals@[best as int] < #[trigger] vals@[j],
        decreases vals@.len() - i,
    {
        if vals[i] < vals[best] {
            best = i;
        }
        i = i + 1;
    }
    best
}

/// Index `x` comes before index `y` when sorting stably by `keys`.
pub open spec fn sorts_before(keys: Seq<i32>, x: usize, y: usize) -> bool {
    keys[x as int] < keys[y as int] || (keys[x as int] == keys[y as int] && x < y)
}

/// `order` lists every index of `keys` once, ordered by key, and equal keys
/// in their input order: the order of a stable sort.
pub open spec fn is_stable_order(keys: Seq<i32>, order: Seq<usize>) -> bool {
    &&& order.len() == keys.len()
    &&& forall|k: int| 0 <= k < order.len() ==> #[trigger] order[k] < keys.len()
    &&& forall|a: int, b: int| 0 <= a < b < order.len() ==> sorts_before(keys, #[trigger] order[a], #[trigger] order[b])
}

/// The order in which a stable sort by `keys` puts the indices.
pub fn stable_order(keys: &Vec<i32>) -> (r: Vec<usize>)
    ensures
        is_stable_order(keys@, r@),
{
    let n = keys.len();
    let mut order: Vec<usize> = Vec::new();
    let mut i: usize = 0;
    while i < n
        invariant
            n == keys@.len(),
            0 <= i <= n,
            order@.len() == i,
            forall|k: int| 0 <= k < order@.len() ==> #[trigger] order@[k] < i,
            forall|a: int, b: int| 0 <= a < b < order@.len() ==> sorts_before(keys@, #[trigger] order@[a], #[trigger] order@[b]),
        decreases n - i,
    {
        let mut p: usize = 0;
        while p < order.len() && keys[order[p]] <= keys[i]
            invariant
                n == keys@.len(),
                i < n,
                order@.len() == i,
                forall|k: int| 0 <= k < order@.len() ==> #[trigger] order@[k] < i,
                0 <= p <= order@.len(),
                forall|k: int| 0 <= k < p ==> keys@[#[trigger] order@[k] as int] <= keys@[i as int],
            decreases order@.len() - p,
        {
            p = p + 1;
        }
        let ghost old_order = order@;
        proof {
            if p < old_order.len() {
                assert(keys@[old_order[p as int] as int] > keys@[i as int]);
                assert forall|k: int| p <= k < old_order.len() implies keys@[#[trigger] old_order[k] as int] > keys@[i as int] by {
                    if k > p {
                        assert(sorts_before(keys@, old_order[p as int], old_order[k]));
                    }
                }
            }
        }
        order.insert(p, i);
        assert(order@ =~= old_order.insert(p as int, i));
        assert forall|k: int| 0 <= k < order@.len() implies #[trigger] order@[k] < i + 1 by {
            if k < p {
                assert(order@[k] == old_order[k]);
            } else if k > p {
                assert(order@[k] == old_order[k - 1]);
            }
        }
        assert forall|a: int, b: int| 0 <= a < b < order@.len() implies sorts_before(keys@, #[trigger] order@[a], #[trigger] order@[b]) by {
            if b < p {
                assert(order@[a] == old_order[a] && order@[b] == old_order[b]);
            } else if b == p {
                assert(order@[a] == old_order[a]);
            } else if a < p {
                assert(order@[a] == old_order[a] && order@[b] == old_order[b - 1]);
            } else if a == p {
                assert(order@[b] == old_order[b - 1]);
            } else {
                assert(order@[a] == old_order[a - 1] && order@[b] == old_order[b - 1]);
            }
        }
        i = i + 1;
    }
    order
}

} // verus!
