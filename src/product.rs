//! The Cartesian product of candidate lists, as a sequence in lexicographic
//! order, and the iterator that enumerates it.

use vstd::prelude::*;

use itertools::structs::MultiProduct;
use itertools::Itertools;

verus! {

/// Every tail extended by one leading word, leading words taken in order.
pub open spec fn prefix_each(firsts: Seq<u16>, tails: Seq<Seq<u16>>) -> Seq<Seq<u16>>
    decreases firsts.len(),
{
    if firsts.len() == 0 {
        Seq::empty()
    } else {
        tails.map_values(|t: Seq<u16>| seq![firsts[0]] + t) + prefix_each(firsts.drop_first(), tails)
    }
}

/// The points of the product of `lists`, in lexicographic order of positions.
pub open spec fn product_seq(lists: Seq<Seq<u16>>) -> Seq<Seq<u16>>
    decreases lists.len(),
{
    if lists.len() == 0 {
        seq![Seq::empty()]
    } else {
        prefix_each(lists[0], product_seq(lists.drop_first()))
    }
}

/// The number of points of the product of `lists`.
pub open spec fn product_size(lists: Seq<Seq<u16>>) -> nat
    decreases lists.len(),
{
    if lists.len() == 0 {
        1
    } else {
        lists[0].len() * product_size(lists.drop_first())
    }
}

pub proof fn lemma_prefix_each_len(firsts: Seq<u16>, tails: Seq<Seq<u16>>)
    ensures
        prefix_each(firsts, tails).len() == firsts.len() * tails.len(),
    decreases firsts.len(),
{
    if firsts.len() > 0 {
        lemma_prefix_each_len(firsts.drop_first(), tails);
        assert(firsts.len() * tails.len() == tails.len() + (firsts.len() - 1) * tails.len())
            by (nonlinear_arith);
    }
}

/// Splitting the leading words splits the extended tails the same way.
pub proof fn lemma_prefix_each_concat(a: Seq<u16>, b: Seq<u16>, tails: Seq<Seq<u16>>)
    ensures
        prefix_each(a + b, tails) == prefix_each(a, tails) + prefix_each(b, tails),
    decreases a.len(),
{
    if a.len() == 0 {
        assert(a + b =~= b);
        assert(prefix_each(a, tails) + prefix_each(b, tails) =~= prefix_each(b, tails));
    } else {
        assert((a + b).drop_first() =~= a.drop_first() + b);
        assert((a + b)[0] == a[0]);
        lemma_prefix_each_concat(a.drop_first(), b, tails);
        let head = tails.map_values(|t: Seq<u16>| seq![a[0]] + t);
        assert(head + (prefix_each(a.drop_first(), tails) + prefix_each(b, tails)) =~= (head
            + prefix_each(a.drop_first(), tails)) + prefix_each(b, tails));
    }
}

pub proof fn lemma_product_len(lists: Seq<Seq<u16>>)
    ensures
        product_seq(lists).len() == product_size(lists),
    decreases lists.len(),
{
    if lists.len() > 0 {
        lemma_product_len(lists.drop_first());
        lemma_prefix_each_len(lists[0], product_seq(lists.drop_first()));
    }
}

proof fn lemma_prefix_each_elems(firsts: Seq<u16>, tails: Seq<Seq<u16>>, n: nat)
    requires
        forall|j: int| 0 <= j < tails.len() ==> (#[trigger] tails[j]).len() == n,
    ensures
        forall|i: int|
            0 <= i < prefix_each(firsts, tails).len() ==> (#[trigger] prefix_each(firsts, tails)[i]).len()
                == n + 1,
    decreases firsts.len(),
{
    if firsts.len() > 0 {
        lemma_prefix_each_elems(firsts.drop_first(), tails, n);
        let head = tails.map_values(|t: Seq<u16>| seq![firsts[0]] + t);
        let rest = prefix_each(firsts.drop_first(), tails);
        assert forall|i: int| 0 <= i < (head + rest).len() implies (#[trigger] (head + rest)[i]).len()
            == n + 1 by {
            if i >= head.len() {
                assert((head + rest)[i] == rest[i - head.len()]);
            }
        }
    }
}

/// Every combination has one word per list.
pub proof fn lemma_product_elem_len(lists: Seq<Seq<u16>>)
    ensures
        forall|i: int|
            0 <= i < product_seq(lists).len() ==> (#[trigger] product_seq(lists)[i]).len()
                == lists.len(),
    decreases lists.len(),
{
    if lists.len() > 0 {
        lemma_product_elem_len(lists.drop_first());
        lemma_prefix_each_elems(lists[0], product_seq(lists.drop_first()), (lists.len() - 1) as nat);
    }
}

/// The view of nested vectors as nested sequences.
pub open spec fn lists_view(v: Seq<Vec<u16>>) -> Seq<Seq<u16>> {
    v.map_values(|x: Vec<u16>| x@)
}

/// A copy of a word list.
pub fn copy_words(v: &Vec<u16>) -> (r: Vec<u16>)
    ensures
        r@ == v@,
{
    let mut r: Vec<u16> = Vec::new();
    let mut i: usize = 0;
    while i < v.len()
        invariant
            0 <= i <= v@.len(),
            r@ == v@.take(i as int),
        decreases v@.len() - i,
    {
        r.push(v[i]);
        i = i + 1;
        assert(r@ =~= v@.take(i as int));
    }
    assert(v@.take(v@.len() as int) =~= v@);
    r
}

/// `itertools`' product iterator, held as an opaque value.
#[verifier::external_type_specification]
#[verifier::external_body]
#[verifier::reject_recursive_types(I)]
pub struct ExMultiProduct<I>(MultiProduct<I>) where I: Iterator + Clone, I::Item: Clone;

/// The combinations that a product iterator has still to yield.
pub uninterp spec fn pending_combinations(p: MultiProduct<std::vec::IntoIter<u16>>) -> Seq<Seq<u16>>;

/// Relies on `Itertools::multi_cartesian_product`: over one or more lists it
/// yields every combination in lexicographic order; over no list it yields none.
#[verifier::external_body]
pub(crate) fn start_product(lists: Vec<Vec<u16>>) -> (r: MultiProduct<std::vec::IntoIter<u16>>)
    ensures
        lists@.len() > 0 ==> pending_combinations(r) == product_seq(lists_view(lists@)),
        lists@.len() == 0 ==> pending_combinations(r) == Seq::<Seq<u16>>::empty(),
{
    lists.into_iter().map(|l| l.into_iter()).multi_cartesian_product()
}

/// Relies on `MultiProduct::next`: it hands out the next pending combination,
/// or nothing once none is pending.
#[verifier::external_body]
pub(crate) fn next_combination(p: &mut MultiProduct<std::vec::IntoIter<u16>>) -> (r: Option<Vec<u16>>)
    ensures
        pending_combinations(*old(p)).len() == 0 ==> r is None,
        pending_combinations(*old(p)).len() > 0 ==> r is Some && r->Some_0@ == pending_combinations(
            *old(p),
        )[0] && pending_combinations(*final(p)) == pending_combinations(*old(p)).drop_first(),
{
    p.next()
}

} // verus!
