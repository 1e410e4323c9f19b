//! Which eigenpairs a factor model keeps, and in what order.
//!
//! The factor estimator decomposes a sample covariance, puts the eigenpairs in
//! descending order of eigenvalue, pairs of equal eigenvalue in the order the
//! solver gave them, and keeps the first few as factors. This module decides
//! that order from the eigenvalues' encodings and hands out the positions of
//! the pairs to keep.

use vstd::prelude::*;
use vstd::set_lib::{lemma_int_range, lemma_set_subset_finite, lemma_subset_equality, set_int_range};
use crate::binary64::{below, is_nan, less_than, nan};

verus! {

/// Whether the eigenvalues can be put in order. Two or more of which one is
/// not a number cannot: it compares with nothing.
pub open spec fn sortable(values: Seq<u64>) -> bool {
    values.len() < 2 || forall|i: int| 0 <= i < values.len() ==> !nan(#[trigger] values[i])
}

/// Eigenpair `i` comes before eigenpair `j`: its eigenvalue is greater, or
/// neither is smaller than the other and `i` was given first.
pub open spec fn precedes(values: Seq<u64>, i: int, j: int) -> bool {
    below(values[j], values[i]) || (!below(values[i], values[j]) && i < j)
}

/// Whether position `j` occurs in `order`.
pub open spec fn selected(order: Seq<usize>, j: int) -> bool {
    exists|a: int| 0 <= a < order.len() && #[trigger] order[a] == j
}

/// `order` arranges the first `n` eigenpairs: each of them once, every pair of
/// entries in order.
spec fn arranges(values: Seq<u64>, n: int, order: Seq<usize>) -> bool {
    &&& order.len() == n
    &&& forall|a: int| 0 <= a < order.len() ==> (#[trigger] order[a]) < n
    &&& forall|a: int, b: int|
        0 <= a < b < order.len() ==> precedes(values, #[trigger] order[a] as int, #[trigger] order[b] as int)
    &&& forall|j: int| 0 <= j < n ==> #[trigger] selected(order, j)
}

/// The number of eigenpairs kept when `count` are asked for.
pub open spec fn kept(values: Seq<u64>, count: int) -> int {
    if count <= values.len() {
        count
    } else {
        values.len() as int
    }
}

/// `order` holds the leading `count` eigenpairs, or all of them where there
/// are fewer: its entries are positions in `values`, each before the next, and
/// each before every position that was left out.
pub open spec fn leads(values: Seq<u64>, count: int, order: Seq<usize>) -> bool {
    &&& order.len() == kept(values, count)
    &&& forall|a: int| 0 <= a < order.len() ==> (#[trigger] order[a]) < values.len()
    &&& forall|a: int, b: int|
        0 <= a < b < order.len() ==> precedes(values, #[trigger] order[a] as int, #[trigger] order[b] as int)
    &&& forall|a: int, j: int|
        #![trigger order[a], selected(order, j)]
        0 <= a < order.len() && 0 <= j < values.len() && !selected(order, j) ==> precedes(
            values,
            order[a] as int,
            j,
        )
}

proof fn lemma_insert_arranges(values: Seq<u64>, order: Seq<usize>, at: int, i: usize)
    requires
        sortable(values),
        i == order.len(),
        i < values.len(),
        arranges(values, i as int, order),
        0 <= at <= i,
        forall|a: int| 0 <= a < at ==> !below(values[#[trigger] order[a] as int], values[i as int]),
        at < i ==> below(values[order[at] as int], values[i as int]),
    ensures
        arranges(values, i + 1, order.insert(at, i)),
{
    let n = i as int;
    let next = order.insert(at, i);
    assert forall|a: int, b: int| 0 <= a < b < next.len() implies precedes(
        values,
        #[trigger] next[a] as int,
        #[trigger] next[b] as int,
    ) by {
        if b == at {
            assert(next[a] == order[a]);
        } else if a == at {
            assert(next[b] == order[b - 1]);
            if at < b - 1 {
                assert(precedes(values, order[at] as int, order[b - 1] as int));
            }
            assert(!nan(values[order[at] as int]));
            assert(!nan(values[order[b - 1] as int]));
        } else {
            let from_a = if a < at { a } else { a - 1 };
            let from_b = if b < at { b } else { b - 1 };
            assert(next[a] == order[from_a]);
            assert(next[b] == order[from_b]);
        }
    }
    assert forall|j: int| 0 <= j < n + 1 implies #[trigger] selected(next, j) by {
        if j == n {
            assert(next[at] == j);
        } else {
            assert(selected(order, j));
            let a = choose|a: int| 0 <= a < order.len() && #[trigger] order[a] == j;
            let to = if a < at { a } else { a + 1 };
            assert(next[to] == j);
        }
    }
    assert forall|a: int| 0 <= a < next.len() implies (#[trigger] next[a]) < n + 1 by {
        if a != at {
            let from = if a < at { a } else { a - 1 };
            assert(next[a] == order[from]);
        }
    }
}

proof fn lemma_prefix_leads(values: Seq<u64>, count: int, order: Seq<usize>)
    requires
        0 <= count,
        arranges(values, values.len() as int, order),
    ensures
        leads(values, count, order.subrange(0, kept(values, count))),
{
    let m = kept(values, count);
    let head = order.subrange(0, m);
    assert forall|a: int, j: int|
        #![trigger head[a], selected(head, j)]
        0 <= a < head.len() && 0 <= j < values.len() && !selected(head, j) implies precedes(
        values,
        head[a] as int,
        j,
    ) by {
        assert(selected(order, j));
        let b = choose|b: int| 0 <= b < order.len() && #[trigger] order[b] == j;
        if b < m {
            assert(head[b] == j);
        }
        assert(head[a] == order[a]);
        assert(precedes(values, order[a] as int, order[b] as int));
    }
    assert forall|a: int, b: int| 0 <= a < b < head.len() implies precedes(
        values,
        #[trigger] head[a] as int,
        #[trigger] head[b] as int,
    ) by {
        assert(head[a] == order[a] && head[b] == order[b]);
    }
    assert forall|a: int| 0 <= a < head.len() implies (#[trigger] head[a]) < values.len() by {
        assert(head[a] == order[a]);
    }
}

/// No eigenpair comes before itself, and of two eigenpairs at most one comes
/// before the other.
proof fn lemma_precedes_asymmetric(values: Seq<u64>, i: int, j: int)
    ensures
        !(precedes(values, i, j) && precedes(values, j, i)),
{
}

proof fn lemma_leading_agree(
    values: Seq<u64>,
    count: int,
    first: Seq<usize>,
    second: Seq<usize>,
    n: int,
)
    requires
        leads(values, count, first),
        leads(values, count, second),
        0 <= n <= first.len(),
    ensures
        forall|a: int| 0 <= a < n ==> first[a] == second[a],
    decreases n,
{
    if n > 0 {
        lemma_leading_agree(values, count, first, second, n - 1);
        let a = n - 1;
        let x = first[a];
        let y = second[a];
        if x != y {
            lemma_tail_precedes(values, count, first, second, a);
            lemma_tail_precedes(values, count, second, first, a);
            lemma_precedes_asymmetric(values, x as int, y as int);
        }
    }
}

/// Where two leading orders agree before position `a` and differ at it, the
/// entry of the first comes before the entry of the second.
proof fn lemma_tail_precedes(
    values: Seq<u64>,
    count: int,
    first: Seq<usize>,
    second: Seq<usize>,
    a: int,
)
    requires
        leads(values, count, first),
        leads(values, count, second),
        0 <= a < first.len(),
        forall|b: int| 0 <= b < a ==> first[b] == second[b],
        first[a] != second[a],
    ensures
        precedes(values, first[a] as int, second[a] as int),
{
    let y = second[a];
    if selected(first, y as int) {
        let b = choose|b: int| 0 <= b < first.len() && #[trigger] first[b] == y as int;
        if b < a {
            assert(precedes(values, second[b] as int, second[a] as int));
        } else {
            assert(precedes(values, first[a] as int, first[b] as int));
        }
    }
}

/// The leading eigenpairs are determined: what `leads` says of an order, it
/// says of no other, so the same eigenvalues and the same count give the same
/// order every time.
pub proof fn lemma_leading_order_is_unique(
    values: Seq<u64>,
    count: int,
    first: Seq<usize>,
    second: Seq<usize>,
)
    requires
        leads(values, count, first),
        leads(values, count, second),
    ensures
        first == second,
{
    lemma_leading_agree(values, count, first, second, first.len() as int);
    assert(first =~= second);
}

/// Asked for no component, the order is empty: the factor part of the
/// estimate vanishes.
pub proof fn lemma_no_component_keeps_none(values: Seq<u64>, order: Seq<usize>)
    requires
        leads(values, 0, order),
    ensures
        order == Seq::<usize>::empty(),
{
    assert(order =~= Seq::<usize>::empty());
}

/// Asked for as many components as there are eigenpairs, or for more, the
/// order keeps every eigenpair, each once.
pub proof fn lemma_all_components_keep_each(values: Seq<u64>, count: int, order: Seq<usize>)
    requires
        leads(values, count, order),
        count >= values.len(),
    ensures
        order.len() == values.len(),
        order.no_duplicates(),
        forall|j: int| 0 <= j < values.len() ==> #[trigger] selected(order, j),
{
    let n = values.len() as int;
    assert forall|a: int, b: int| 0 <= a < order.len() && 0 <= b < order.len() && a != b implies order[a]
        != order[b] by {
        lemma_precedes_asymmetric(values, order[a] as int, order[b] as int);
        if a < b {
            assert(precedes(values, order[a] as int, order[b] as int));
        } else {
            assert(precedes(values, order[b] as int, order[a] as int));
        }
    }
    let places = order.map_values(|x: usize| x as int);
    assert(places.no_duplicates());
    places.unique_seq_to_set();
    lemma_int_range(0, n);
    assert(places.to_set().subset_of(set_int_range(0, n))) by {
        assert forall|x: int| places.to_set().contains(x) implies set_int_range(0, n).contains(x) by {
            let a = choose|a: int| 0 <= a < places.len() && places[a] == x;
            assert(order[a] < n);
        }
    }
    lemma_set_subset_finite(set_int_range(0, n), places.to_set());
    lemma_subset_equality(places.to_set(), set_int_range(0, n));
    assert forall|j: int| 0 <= j < n implies #[trigger] selected(order, j) by {
        assert(set_int_range(0, n).contains(j));
        assert(places.to_set().contains(j));
        let a = choose|a: int| 0 <= a < places.len() && places[a] == j;
        assert(order[a] == j);
    }
}

/// Whether any of the eigenvalues is not a number.
fn any_nan(values: &Vec<u64>) -> (r: bool)
    ensures
        r == exists|i: int| 0 <= i < values.len() && nan(#[trigger] values[i]),
{
    let mut i: usize = 0;
    while i < values.len()
        invariant
            i <= values.len(),
            forall|k: int| 0 <= k < i ==> !nan(#[trigger] values[k]),
        decreases values.len() - i,
    {
        if is_nan(values[i]) {
            return true;
        }
        i += 1;
    }
    false
}

/// Puts the eigenpairs in descending order of eigenvalue, equal ones in the
/// order given, and returns the positions of the first `count` of them, or of
/// all where `count` exceeds their number.
///
/// `values` holds the encodings of the eigenvalues. There is no order, and the
/// result is `None`, exactly when there are two or more eigenvalues and one of
/// them is not a number.
pub fn leading_eigenpairs(values: &Vec<u64>, count: usize) -> (r: Option<Vec<usize>>)
    ensures
        r is Some <==> sortable(values@),
        r matches Some(order) ==> leads(values@, count as int, order@),
{
    let p: usize = values.len();
    if p >= 2 && any_nan(values) {
        return None;
    }
    let mut order: Vec<usize> = Vec::new();
    while order.len() < p
        invariant
            p == values.len(),
            sortable(values@),
            order.len() <= p,
            arranges(values@, order.len() as int, order@),
        decreases p - order.len(),
    {
        let i: usize = order.len();
        let mut at: usize = 0;
        while at < i && !less_than(values[order[at]], values[i])
            invariant
                i == order.len(),
                i < values.len(),
                at <= i,
                forall|a: int| 0 <= a < order.len() ==> (#[trigger] order[a]) < i,
                forall|a: int| 0 <= a < at ==> !below(values[#[trigger] order[a] as int], values[i as int]),
            decreases i - at,
        {
            at += 1;
        }
        proof {
            lemma_insert_arranges(values@, order@, at as int, i);
        }
        order.insert(at, i);
    }
    proof {
        lemma_prefix_leads(values@, count as int, order@);
    }
    order.truncate(count);
    Some(order)
}

} // verus!
