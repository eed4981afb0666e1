use vstd::prelude::*;
use crate::text::{seqs_of, text_less, text_lt};

verus! {

/// `x` has to stand before `y`: it is the smaller of the two, or the greater
/// where the greatest comes first.
pub open spec fn goes_before(x: Seq<char>, y: Seq<char>, descending: bool) -> bool {
    if descending {
        text_lt(y, x)
    } else {
        text_lt(x, y)
    }
}

/// The order with item `i` put in its place: before the items at the end
/// that it has to stand before, behind everything else.
pub open spec fn placed(order: Seq<int>, keys: Seq<Seq<char>>, i: int, descending: bool) -> Seq<int>
    decreases order.len(),
{
    if order.len() == 0 {
        seq![i]
    } else if goes_before(keys[i], keys[order.last()], descending) {
        placed(order.drop_last(), keys, i, descending).push(order.last())
    } else {
        order.push(i)
    }
}

/// The first `n` items in sorted order, by their positions: each item is
/// put in its place among those before it, so that items of equal rank keep
/// the order in which they came.
pub open spec fn arranged(keys: Seq<Seq<char>>, n: nat, descending: bool) -> Seq<int>
    decreases n,
{
    if n == 0 || n > keys.len() {
        Seq::empty()
    } else {
        placed(arranged(keys, (n - 1) as nat, descending), keys, n - 1, descending)
    }
}

/// Putting an item in its place is inserting it there.
proof fn lemma_placed(order: Seq<int>, keys: Seq<Seq<char>>, i: int, descending: bool, at: int)
    requires
        0 <= at <= order.len(),
        forall|k: int|
            at <= k < order.len() ==> goes_before(keys[i], keys[#[trigger] order[k]], descending),
        at > 0 ==> !goes_before(keys[i], keys[order[at - 1]], descending),
    ensures
        placed(order, keys, i, descending) == order.insert(at, i),
    decreases order.len(),
{
    if order.len() == 0 {
        assert(order.insert(0, i) =~= seq![i]);
    } else if at == order.len() {
        assert(order.insert(at, i) =~= order.push(i));
    } else {
        let front = order.drop_last();
        assert(goes_before(keys[i], keys[order[order.len() - 1]], descending));
        assert forall|k: int| at <= k < front.len() implies goes_before(
            keys[i],
            keys[#[trigger] front[k]],
            descending,
        ) by {
            assert(front[k] == order[k]);
        }
        lemma_placed(front, keys, i, descending, at);
        assert(front.insert(at, i).push(order.last()) =~= order.insert(at, i));
    }
}

/// Whether item `i` has to stand before item `j`.
fn stands_before(keys: &Vec<Vec<char>>, i: usize, j: usize, descending: bool) -> (out: bool)
    requires
        i < keys.len(),
        j < keys.len(),
    ensures
        out == goes_before(seqs_of(keys@)[i as int], seqs_of(keys@)[j as int], descending),
{
    if descending {
        text_less(&keys[j], &keys[i])
    } else {
        text_less(&keys[i], &keys[j])
    }
}

/// The positions, as numbers.
pub open spec fn positions(order: Seq<usize>) -> Seq<int> {
    Seq::new(order.len(), |k: int| order[k] as int)
}

/// The positions of the items in sorted order: the smallest first, or the
/// greatest first where `descending` is set; items of equal rank in the
/// order in which they came.
pub fn arrange(keys: &Vec<Vec<char>>, descending: bool) -> (order: Vec<usize>)
    ensures
        positions(order@) == arranged(seqs_of(keys@), keys.len() as nat, descending),
        order.len() == keys.len(),
{
    let mut order: Vec<usize> = Vec::new();
    let mut i: usize = 0;
    assert(positions(order@) =~= Seq::empty());
    while i < keys.len()
        invariant
            i <= keys.len(),
            order.len() == i,
            positions(order@) == arranged(seqs_of(keys@), i as nat, descending),
            forall|k: int| 0 <= k < order.len() ==> (#[trigger] order[k]) < i,
        decreases keys.len() - i,
    {
        let mut at: usize = order.len();
        while at > 0 && stands_before(keys, i, order[at - 1], descending)
            invariant
                at <= order.len(),
                i < keys.len(),
                forall|k: int| 0 <= k < order.len() ==> (#[trigger] order[k]) < i,
                forall|k: int|
                    at <= k < order.len() ==> goes_before(
                        seqs_of(keys@)[i as int],
                        seqs_of(keys@)[#[trigger] positions(order@)[k]],
                        descending,
                    ),
            decreases at,
        {
            at -= 1;
        }
        proof {
            lemma_placed(positions(order@), seqs_of(keys@), i as int, descending, at as int);
        }
        let ghost before = order@;
        order.insert(at, i);
        assert(positions(order@) =~= positions(before).insert(at as int, i as int));
        i += 1;
    }
    order
}

/// Where item `i` is put among the items of `order`.
pub open spec fn place_of(order: Seq<int>, keys: Seq<Seq<char>>, i: int, descending: bool) -> int
    decreases order.len(),
{
    if order.len() == 0 {
        0
    } else if goes_before(keys[i], keys[order.last()], descending) {
        place_of(order.drop_last(), keys, i, descending)
    } else {
        order.len() as int
    }
}

/// The place of an item: everything from there on has to stand behind it,
/// what stands just before it has not.
proof fn lemma_place_of(order: Seq<int>, keys: Seq<Seq<char>>, i: int, descending: bool)
    ensures
        0 <= place_of(order, keys, i, descending) <= order.len(),
        forall|k: int|
            place_of(order, keys, i, descending) <= k < order.len() ==> goes_before(
                keys[i],
                keys[#[trigger] order[k]],
                descending,
            ),
        place_of(order, keys, i, descending) > 0 ==> !goes_before(
            keys[i],
            keys[order[place_of(order, keys, i, descending) - 1]],
            descending,
        ),
        placed(order, keys, i, descending) == order.insert(
            place_of(order, keys, i, descending),
            i,
        ),
    decreases order.len(),
{
    if order.len() > 0 && goes_before(keys[i], keys[order.last()], descending) {
        let front = order.drop_last();
        lemma_place_of(front, keys, i, descending);
        let at = place_of(front, keys, i, descending);
        assert forall|k: int| at <= k < order.len() implies goes_before(
            keys[i],
            keys[#[trigger] order[k]],
            descending,
        ) by {
            if k < front.len() {
                assert(front[k] == order[k]);
            }
        }
        if at > 0 {
            assert(front[at - 1] == order[at - 1]);
        }
    }
    lemma_placed(order, keys, i, descending, place_of(order, keys, i, descending));
}

/// The items of `order` stand in sorted order, those of equal rank in the
/// order in which they came.
pub open spec fn in_order(order: Seq<int>, keys: Seq<Seq<char>>, descending: bool) -> bool {
    forall|p: int, q: int|
        0 <= p < q < order.len() ==> {
            &&& !goes_before(keys[#[trigger] order[q]], keys[#[trigger] order[p]], descending)
            &&& goes_before(keys[order[p]], keys[order[q]], descending) || order[p] < order[q]
        }
}

/// `order` holds each of the first `n` positions once.
pub open spec fn holds_each_once(order: Seq<int>, n: nat) -> bool {
    &&& order.len() == n
    &&& forall|k: int| 0 <= k < order.len() ==> 0 <= #[trigger] order[k] < n
    &&& forall|p: int, q: int|
        0 <= p < q < order.len() ==> #[trigger] order[p] != #[trigger] order[q]
}

/// Nothing has to stand before itself, and rank is passed on: what has not
/// to stand before `b`, which has not to stand before `c`, has not to stand
/// before `c`.
proof fn lemma_rank(a: Seq<char>, b: Seq<char>, c: Seq<char>, descending: bool)
    ensures
        !(goes_before(a, b, descending) && goes_before(b, a, descending)),
        !goes_before(a, b, descending) && !goes_before(b, c, descending) ==> !goes_before(
            a,
            c,
            descending,
        ),
{
    crate::text::lemma_text_lt_asymmetric(a, b);
    if !goes_before(a, b, descending) && !goes_before(b, c, descending) {
        if descending {
            crate::text::lemma_text_lt_not_before(c, b, a);
        } else {
            crate::text::lemma_text_lt_not_before(a, b, c);
        }
    }
}

/// The arrangement of the first `n` items holds each of them once, in
/// sorted order, items of equal rank in the order in which they came.
pub proof fn lemma_arranged(keys: Seq<Seq<char>>, n: nat, descending: bool)
    requires
        n <= keys.len(),
    ensures
        holds_each_once(arranged(keys, n, descending), n),
        in_order(arranged(keys, n, descending), keys, descending),
    decreases n,
{
    if n > 0 {
        let before = arranged(keys, (n - 1) as nat, descending);
        let i = n - 1;
        lemma_arranged(keys, (n - 1) as nat, descending);
        lemma_place_of(before, keys, i, descending);
        let at = place_of(before, keys, i, descending);
        let after = before.insert(at, i);
        assert(after == arranged(keys, n, descending));
        assert forall|k: int| 0 <= k < after.len() implies 0 <= #[trigger] after[k] < n by {
            if k < at {
                assert(after[k] == before[k]);
            } else if k > at {
                assert(after[k] == before[k - 1]);
            }
        }
        assert forall|p: int, q: int| 0 <= p < q < after.len() implies #[trigger] after[p]
            != #[trigger] after[q] by {
            let x = if p < at { before[p] } else if p == at { i } else { before[p - 1] };
            let y = if q < at { before[q] } else if q == at { i } else { before[q - 1] };
            assert(after[p] == x && after[q] == y);
        }
        assert forall|p: int, q: int| 0 <= p < q < after.len() implies {
            &&& !goes_before(keys[#[trigger] after[q]], keys[#[trigger] after[p]], descending)
            &&& goes_before(keys[after[p]], keys[after[q]], descending) || after[p] < after[q]
        } by {
            if q == at {
                // what stands before the new item has not to stand behind it
                assert(after[p] == before[p]);
                assert(!goes_before(keys[i], keys[before[at - 1]], descending));
                if p < at - 1 {
                    assert(!goes_before(keys[before[at - 1]], keys[before[p]], descending));
                }
                lemma_rank(keys[i], keys[before[at - 1]], keys[before[p]], descending);
                assert(before[p] < i);
            } else if p == at {
                assert(after[q] == before[q - 1]);
                assert(goes_before(keys[i], keys[before[q - 1]], descending));
                lemma_rank(keys[i], keys[before[q - 1]], keys[i], descending);
            } else {
                let x = if p < at { p } else { p - 1 };
                let y = if q < at { q } else { q - 1 };
                assert(after[p] == before[x] && after[q] == before[y]);
            }
        }
    }
}

} // verus!
