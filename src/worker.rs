//! A worker's enumeration of its share of the search space.

use vstd::prelude::*;

use itertools::structs::MultiProduct;

use crate::product::{
    copy_words, lemma_product_elem_len, lemma_product_len, lists_view, next_combination,
    pending_combinations, product_seq, product_size, start_product,
};
use crate::space::{fits_counter, SpaceError, MNEMONIC_LEN};

verus! {

/// `base` with the words of `combo` written at the positions `idx`, one
/// after the other.
pub open spec fn fill(base: Seq<u16>, idx: Seq<usize>, combo: Seq<u16>) -> Seq<u16>
    decreases idx.len(),
{
    if idx.len() == 0 {
        base
    } else {
        fill(base, idx.drop_last(), combo.drop_last()).update(idx.last() as int, combo.last())
    }
}

/// Enumerates the combinations of its candidate lists in lexicographic
/// order, each written into the template at the unknown positions, and
/// counts them.
pub struct Worker {
    template: Vec<u16>,
    unknown_indexes: Vec<usize>,
    combos: MultiProduct<std::vec::IntoIter<u16>>,
    single: bool,
    exhausted: bool,
    stopped: bool,
    stop_at_first: bool,
    found: bool,
    tested: u64,
    all: Ghost<Seq<Seq<u16>>>,
}

impl Worker {
    /// Every combination the worker enumerates, in order.
    pub closed spec fn combinations(&self) -> Seq<Seq<u16>> {
        self.all@
    }

    /// The template the combinations are written into.
    pub closed spec fn base(&self) -> Seq<u16> {
        self.template@
    }

    /// The unknown positions, one per candidate list.
    pub closed spec fn positions(&self) -> Seq<usize> {
        self.unknown_indexes@
    }

    /// How many candidates have been handed out.
    pub closed spec fn tested_count(&self) -> nat {
        self.tested as nat
    }

    /// The worker hands out no more candidates.
    pub closed spec fn is_stopped(&self) -> bool {
        self.stopped
    }

    /// A match stops the worker.
    pub closed spec fn stops_at_first(&self) -> bool {
        self.stop_at_first
    }

    /// A match has been recorded.
    pub closed spec fn has_found(&self) -> bool {
        self.found
    }

    /// The candidate handed out as the `i`-th.
    pub open spec fn candidate(&self, i: int) -> Seq<u16> {
        fill(self.base(), self.positions(), self.combinations()[i])
    }

    pub closed spec fn wf(&self) -> bool {
        &&& self.template@.len() == MNEMONIC_LEN
        &&& forall|k: int|
            0 <= k < self.unknown_indexes@.len() ==> self.unknown_indexes@[k] < MNEMONIC_LEN
        &&& forall|i: int|
            0 <= i < self.all@.len() ==> (#[trigger] self.all@[i]).len()
                == self.unknown_indexes@.len()
        &&& self.tested <= self.all@.len() <= u64::MAX
        &&& self.single ==> self.all@ == seq![Seq::<u16>::empty()] && self.unknown_indexes@.len()
            == 0
        &&& self.single && !self.exhausted ==> self.tested == 0
        &&& !self.single && !self.exhausted ==> pending_combinations(self.combos) == self.all@.skip(
            self.tested as int,
        )
        &&& self.exhausted ==> self.tested == self.all@.len()
    }

    /// A worker over the given candidate lists, one per unknown position.
    /// Fails where the number of combinations exceeds `u64::MAX`.
    pub fn new(
        template: &Vec<u16>,
        unknown_indexes: &Vec<usize>,
        possibilities: Vec<Vec<u16>>,
        stop_at_first: bool,
    ) -> (r: Result<Worker, SpaceError>)
        requires
            template@.len() == MNEMONIC_LEN,
            unknown_indexes@.len() == possibilities@.len(),
            forall|k: int| 0 <= k < unknown_indexes@.len() ==> unknown_indexes@[k] < MNEMONIC_LEN,
        ensures
            product_size(lists_view(possibilities@)) > u64::MAX ==> r is Err && r->Err_0
                == SpaceError::ComplexityOverflow,
            product_size(lists_view(possibilities@)) <= u64::MAX ==> r is Ok && ({
                let w = r->Ok_0;
                &&& w.wf()
                &&& w.combinations() == product_seq(lists_view(possibilities@))
                &&& w.combinations().len() == product_size(lists_view(possibilities@))
                &&& w.base() == template@
                &&& w.positions() == unknown_indexes@
                &&& w.tested_count() == 0
                &&& !w.is_stopped()
                &&& !w.has_found()
                &&& w.stops_at_first() == stop_at_first
            }),
    {
        if !fits_counter(&possibilities) {
            return Err(SpaceError::ComplexityOverflow);
        }
        let ghost lists = lists_view(possibilities@);
        proof {
            lemma_product_len(lists);
            lemma_product_elem_len(lists);
        }
        let single = possibilities.len() == 0;
        let combos = start_product(possibilities);
        assert(product_seq(lists).skip(0) =~= product_seq(lists));
        if single {
            assert(lists =~= Seq::<Seq<u16>>::empty());
        }
        Ok(
            Worker {
                template: copy_words(template),
                unknown_indexes: copy_indexes(unknown_indexes),
                combos,
                single,
                exhausted: false,
                stopped: false,
                stop_at_first,
                found: false,
                tested: 0,
                all: Ghost(product_seq(lists)),
            },
        )
    }

    /// The number of candidates handed out so far.
    pub fn tested(&self) -> (r: u64)
        requires
            self.wf(),
        ensures
            r == self.tested_count(),
    {
        self.tested
    }

    /// Whether a match has been recorded.
    pub fn found(&self) -> (r: bool)
        ensures
            r == self.has_found(),
    {
        self.found
    }

    /// The next candidate mnemonic: the template with the next combination
    /// written into the unknown positions. Nothing once the worker has
    /// stopped or every combination has been handed out; then, unless
    /// stopped, the count equals the number of combinations.
    pub fn next_candidate(&mut self) -> (r: Option<Vec<u16>>)
        requires
            old(self).wf(),
        ensures
            final(self).wf(),
            final(self).combinations() == old(self).combinations(),
            final(self).base() == old(self).base(),
            final(self).positions() == old(self).positions(),
            final(self).is_stopped() == old(self).is_stopped(),
            final(self).stops_at_first() == old(self).stops_at_first(),
            final(self).has_found() == old(self).has_found(),
            r is Some <==> !old(self).is_stopped() && old(self).tested_count()
                < old(self).combinations().len(),
            r is Some ==> r->Some_0@ == old(self).candidate(old(self).tested_count() as int)
                && final(self).tested_count() == old(self).tested_count() + 1,
            r is None ==> final(self).tested_count() == old(self).tested_count(),
            r is None && !old(self).is_stopped() ==> final(self).tested_count()
                == final(self).combinations().len(),
    {
        if self.stopped || self.exhausted {
            return None;
        }
        if self.single {
            self.tested = 1;
            self.exhausted = true;
            let m = copy_words(&self.template);
            return Some(m);
        }
        proof {
            assert(self.all@.skip(self.tested as int).len() == self.all@.len() - self.tested);
        }
        match next_combination(&mut self.combos) {
            None => {
                self.exhausted = true;
                None
            },
            Some(c) => {
                let ghost t = self.tested as int;
                assert(c@ == self.all@[t]);
                assert(self.all@.skip(t).drop_first() =~= self.all@.skip(t + 1));
                self.tested = self.tested + 1;
                let m = fill_in(&self.template, &self.unknown_indexes, &c);
                Some(m)
            },
        }
    }

    /// Records a match on the last candidate. The worker stops where it
    /// stops at the first match; the result says whether it has stopped.
    pub fn record_match(&mut self) -> (stop: bool)
        requires
            old(self).wf(),
        ensures
            final(self).wf(),
            final(self).has_found(),
            final(self).is_stopped() == (old(self).is_stopped() || old(self).stops_at_first()),
            stop == final(self).is_stopped(),
            final(self).combinations() == old(self).combinations(),
            final(self).base() == old(self).base(),
            final(self).positions() == old(self).positions(),
            final(self).tested_count() == old(self).tested_count(),
            final(self).stops_at_first() == old(self).stops_at_first(),
    {
        self.found = true;
        if self.stop_at_first {
            self.stopped = true;
        }
        self.stopped
    }

    /// Stops the worker: it hands out no more candidates.
    pub fn stop(&mut self)
        requires
            old(self).wf(),
        ensures
            final(self).wf(),
            final(self).is_stopped(),
            final(self).combinations() == old(self).combinations(),
            final(self).base() == old(self).base(),
            final(self).positions() == old(self).positions(),
            final(self).tested_count() == old(self).tested_count(),
            final(self).stops_at_first() == old(self).stops_at_first(),
            final(self).has_found() == old(self).has_found(),
    {
        self.stopped = true;
    }
}

/// A copy of a list of positions.
fn copy_indexes(v: &Vec<usize>) -> (r: Vec<usize>)
    ensures
        r@ == v@,
{
    let mut r: Vec<usize> = Vec::new();
    let mut i: usize = 0;
    while i < v.len()
        invariant
            0 <= i <= v@.len(),
            r@ == v@.take(i as int),
        decreases v@.len() - i,
    {
        r.push(v[i]);
        i = i + 1;
        assert(r@ =~= v@.take(i as int));
    }
    assert(v@.take(v@.len() as int) =~= v@);
    r
}

/// The template with `combo[k]` written at position `idx[k]`, for each `k`.
pub fn fill_in(template: &Vec<u16>, idx: &Vec<usize>, combo: &Vec<u16>) -> (r: Vec<u16>)
    requires
        idx@.len() == combo@.len(),
        forall|k: int| 0 <= k < idx@.len() ==> idx@[k] < template@.len(),
    ensures
        r@ == fill(template@, idx@, combo@),
{
    let mut m = copy_words(template);
    let mut k: usize = 0;
    while k < idx.len()
        invariant
            idx@.len() == combo@.len(),
            forall|j: int| 0 <= j < idx@.len() ==> idx@[j] < template@.len(),
            0 <= k <= idx@.len(),
            m@ == fill(template@, idx@.take(k as int), combo@.take(k as int)),
            m@.len() == template@.len(),
        decreases idx@.len() - k,
    {
        assert(idx@.take(k + 1).drop_last() =~= idx@.take(k as int));
        assert(combo@.take(k + 1).drop_last() =~= combo@.take(k as int));
        m.set(idx[k], combo[k]);
        k = k + 1;
    }
    assert(idx@.take(idx@.len() as int) =~= idx@);
    assert(combo@.take(combo@.len() as int) =~= combo@);
    m
}

} // verus!
