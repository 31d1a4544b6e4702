//! Construction of the search space from a partially known mnemonic.

use vstd::prelude::*;

use crate::product::{copy_words, lists_view, product_size};

verus! {

/// Number of words in the wordlist; word indices are below it.
pub const WORDLIST_SIZE: u16 = 2048;

/// Number of words in a mnemonic.
pub const MNEMONIC_LEN: usize = 24;

/// What is known of one word position of the mnemonic.
pub enum TemplateSlot {
    /// The word is known.
    Word(u16),
    /// The word is one of these, listed without repetition.
    OneOf(Vec<u16>),
    /// Nothing is known of the word.
    Any,
}

/// Why a template cannot be searched.
#[derive(PartialEq, Eq, Structural, Debug, Clone, Copy)]
pub enum SpaceError {
    /// Not 24 slots, a word index out of the wordlist, or a candidate list
    /// that is empty or repeats a word.
    InvalidTemplate,
    /// The number of combinations does not fit the progress counter.
    ComplexityOverflow,
}

/// The candidates of every unknown slot, where those slots stand, and how
/// many combinations they make.
pub struct SearchSpace {
    /// A word index for every slot: the word of a known slot, the first
    /// candidate of an unknown one.
    pub template: Vec<u16>,
    /// The positions of the unknown slots, increasing.
    pub unknown_indexes: Vec<usize>,
    /// The candidates of each unknown slot, in the order of `unknown_indexes`.
    pub possibilities: Vec<Vec<u16>>,
    /// The product of the sizes of `possibilities`.
    pub complexity: u64,
}

/// All word indices, in order.
pub open spec fn all_words() -> Seq<u16> {
    Seq::new(WORDLIST_SIZE as nat, |i: int| i as u16)
}

/// The candidate words of a slot.
pub open spec fn slot_candidates(s: TemplateSlot) -> Seq<u16> {
    match s {
        TemplateSlot::Word(w) => seq![w],
        TemplateSlot::OneOf(v) => v@,
        TemplateSlot::Any => all_words(),
    }
}

pub open spec fn strictly_increasing(s: Seq<u16>) -> bool {
    forall|i: int, j: int| 0 <= i < j < s.len() ==> s[i] < s[j]
}

pub open spec fn slot_valid(s: TemplateSlot) -> bool {
    match s {
        TemplateSlot::Word(w) => w < WORDLIST_SIZE,
        TemplateSlot::OneOf(v) => v@.len() > 0 && v@.no_duplicates() && forall|i: int|
            0 <= i < v@.len() ==> v@[i] < WORDLIST_SIZE,
        TemplateSlot::Any => true,
    }
}

pub open spec fn template_valid(t: Seq<TemplateSlot>) -> bool {
    t.len() == MNEMONIC_LEN && forall|i: int| 0 <= i < t.len() ==> slot_valid(#[trigger] t[i])
}

/// A slot is unknown when more than one word can stand in it.
pub open spec fn slot_unknown(s: TemplateSlot) -> bool {
    slot_candidates(s).len() > 1
}

/// The unknown positions of `t`, in increasing order.
pub open spec fn unknown_positions(t: Seq<TemplateSlot>) -> Seq<usize>
    decreases t.len(),
{
    if t.len() == 0 {
        Seq::empty()
    } else {
        let before = unknown_positions(t.drop_last());
        if slot_unknown(t.last()) {
            before.push((t.len() - 1) as usize)
        } else {
            before
        }
    }
}

/// The candidate lists of the unknown positions `idx` of `t`.
pub open spec fn unknown_candidates(t: Seq<TemplateSlot>, idx: Seq<usize>) -> Seq<Seq<u16>> {
    idx.map_values(|i: usize| slot_candidates(t[i as int]))
}

/// The number of combinations of the template `t`: the product of the
/// sizes of its unknown slots' candidate lists.
pub open spec fn template_complexity(t: Seq<TemplateSlot>) -> nat {
    product_size(unknown_candidates(t, unknown_positions(t)))
}

/// `sp` is the search space of the template `t`.
pub open spec fn space_of(t: Seq<TemplateSlot>, sp: SearchSpace) -> bool {
    &&& sp.template@.len() == t.len()
    &&& forall|i: int| 0 <= i < t.len() ==> sp.template@[i] == slot_candidates(#[trigger] t[i])[0]
    &&& sp.unknown_indexes@ == unknown_positions(t)
    &&& lists_view(sp.possibilities@) == unknown_candidates(t, sp.unknown_indexes@)
    &&& sp.complexity == template_complexity(t)
}

impl SearchSpace {
    /// The candidate lists of the unknown slots.
    pub open spec fn lists(&self) -> Seq<Seq<u16>> {
        lists_view(self.possibilities@)
    }

    /// Template of 24 word indices, unknown positions in range and
    /// increasing, one non-empty candidate list without repetition per
    /// unknown position, and the complexity equal to the number of
    /// combinations.
    pub open spec fn wf(&self) -> bool {
        &&& self.template@.len() == MNEMONIC_LEN
        &&& self.unknown_indexes@.len() == self.possibilities@.len()
        &&& forall|k: int, l: int|
            0 <= k < l < self.unknown_indexes@.len() ==> self.unknown_indexes@[k]
                < self.unknown_indexes@[l]
        &&& forall|k: int|
            0 <= k < self.unknown_indexes@.len() ==> self.unknown_indexes@[k] < MNEMONIC_LEN
        &&& forall|k: int| 0 <= k < self.possibilities@.len() ==> self.possibilities@[k]@.len() > 0
        &&& forall|k: int|
            0 <= k < self.possibilities@.len() ==> self.possibilities@[k]@.no_duplicates()
        &&& self.complexity == product_size(self.lists())
    }
}

/// A strictly increasing list repeats no word.
pub proof fn lemma_increasing_no_duplicates(s: Seq<u16>)
    requires
        strictly_increasing(s),
    ensures
        s.no_duplicates(),
{
    assert forall|i: int, j: int| 0 <= i < s.len() && 0 <= j < s.len() && i != j implies s[i]
        != s[j] by {
        if i < j {
            assert(s[i] < s[j]);
        } else {
            assert(s[j] < s[i]);
        }
    }
}

/// Whether the slot names only words of the wordlist, and a candidate list
/// is non-empty and repeats no word.
pub fn slot_is_valid(s: &TemplateSlot) -> (r: bool)
    ensures
        r == slot_valid(*s),
{
    match s {
        TemplateSlot::Word(w) => *w < WORDLIST_SIZE,
        TemplateSlot::OneOf(v) => {
            if v.len() == 0 {
                return false;
            }
            let mut i: usize = 0;
            while i < v.len()
                invariant
                    *s == TemplateSlot::OneOf(*v),
                    0 <= i <= v@.len(),
                    forall|k: int| 0 <= k < i ==> v@[k] < WORDLIST_SIZE,
                    forall|k: int, l: int| 0 <= k < i && 0 <= l < i && k != l ==> v@[k] != v@[l],
                decreases v@.len() - i,
            {
                if v[i] >= WORDLIST_SIZE {
                    assert(v@[i as int] >= WORDLIST_SIZE);
                    return false;
                }
                let mut j: usize = 0;
                while j < i
                    invariant
                        *s == TemplateSlot::OneOf(*v),
                        0 <= j <= i < v@.len(),
                        forall|l: int| 0 <= l < j ==> v@[l] != v@[i as int],
                    decreases i - j,
                {
                    if v[j] == v[i] {
                        assert(!v@.no_duplicates()) by {
                            assert(v@[j as int] == v@[i as int]);
                        }
                        return false;
                    }
                    j = j + 1;
                }
                i = i + 1;
            }
            true
        },
        TemplateSlot::Any => true,
    }
}

/// The candidate words of a slot.
pub fn slot_words(s: &TemplateSlot) -> (r: Vec<u16>)
    ensures
        r@ == slot_candidates(*s),
{
    match s {
        TemplateSlot::Word(w) => vec![*w],
        TemplateSlot::OneOf(v) => copy_words(v),
        TemplateSlot::Any => {
            let mut r: Vec<u16> = Vec::new();
            let mut w: u16 = 0;
            while w < WORDLIST_SIZE
                invariant
                    0 <= w <= WORDLIST_SIZE,
                    r@ =~= all_words().take(w as int),
                decreases WORDLIST_SIZE - w,
            {
                r.push(w);
                w = w + 1;
                assert(r@ =~= all_words().take(w as int));
            }
            assert(all_words().take(WORDLIST_SIZE as int) =~= all_words());
            r
        },
    }
}

pub proof fn lemma_product_size_positive(lists: Seq<Seq<u16>>)
    requires
        forall|k: int| 0 <= k < lists.len() ==> (#[trigger] lists[k]).len() > 0,
    ensures
        product_size(lists) >= 1,
    decreases lists.len(),
{
    if lists.len() > 0 {
        lemma_product_size_positive(lists.drop_first());
        assert(lists[0].len() * product_size(lists.drop_first()) >= 1) by (nonlinear_arith)
            requires
                lists[0].len() >= 1,
                product_size(lists.drop_first()) >= 1,
        ;
    }
}

/// Where every list is non-empty, a suffix has no more combinations than the whole.
pub proof fn lemma_product_size_suffix(lists: Seq<Seq<u16>>, j: int)
    requires
        0 <= j <= lists.len(),
        forall|k: int| 0 <= k < lists.len() ==> (#[trigger] lists[k]).len() > 0,
    ensures
        product_size(lists.subrange(j, lists.len() as int)) <= product_size(lists),
    decreases j,
{
    if j == 0 {
        assert(lists.subrange(0, lists.len() as int) =~= lists);
    } else {
        let rest = lists.drop_first();
        lemma_product_size_suffix(rest, j - 1);
        assert(rest.subrange(j - 1, rest.len() as int) =~= lists.subrange(j, lists.len() as int));
        lemma_product_size_positive(rest);
        assert(product_size(rest) <= lists[0].len() * product_size(rest)) by (nonlinear_arith)
            requires
                lists[0].len() >= 1,
        ;
    }
}

pub proof fn lemma_product_size_zero(lists: Seq<Seq<u16>>, j: int)
    requires
        0 <= j < lists.len(),
        lists[j].len() == 0,
    ensures
        product_size(lists) == 0,
    decreases j,
{
    if j > 0 {
        assert(lists.drop_first()[j - 1] == lists[j]);
        lemma_product_size_zero(lists.drop_first(), j - 1);
        assert(lists[0].len() * product_size(lists.drop_first()) == 0) by (nonlinear_arith)
            requires
                product_size(lists.drop_first()) == 0,
        ;
    }
}

/// Whether the number of combinations of the candidate lists is at most
/// `u64::MAX`.
pub fn fits_counter(possibilities: &Vec<Vec<u16>>) -> (r: bool)
    ensures
        r == (product_size(lists_view(possibilities@)) <= u64::MAX),
{
    let mut i: usize = 0;
    while i < possibilities.len()
        invariant
            0 <= i <= possibilities@.len(),
            forall|k: int| 0 <= k < i ==> (#[trigger] possibilities@[k])@.len() > 0,
        decreases possibilities@.len() - i,
    {
        if possibilities[i].len() == 0 {
            proof {
                lemma_product_size_zero(lists_view(possibilities@), i as int);
            }
            return true;
        }
        i = i + 1;
    }
    proof {
        lemma_product_size_positive(lists_view(possibilities@));
    }
    complexity_of(possibilities) != 0
}

/// The number of combinations of the candidate lists, or `0` where that
/// number exceeds `u64::MAX`.
pub fn complexity_of(possibilities: &Vec<Vec<u16>>) -> (r: u64)
    requires
        forall|k: int| 0 <= k < possibilities@.len() ==> (#[trigger] possibilities@[k])@.len() > 0,
    ensures
        product_size(lists_view(possibilities@)) <= u64::MAX ==> r == product_size(
            lists_view(possibilities@),
        ),
        product_size(lists_view(possibilities@)) > u64::MAX ==> r == 0,
{
    let ghost lists = lists_view(possibilities@);
    let n = possibilities.len();
    let mut acc: u64 = 1;
    let mut i: usize = n;
    assert(lists.subrange(n as int, n as int) =~= Seq::<Seq<u16>>::empty());
    while i > 0
        invariant
            0 <= i <= n,
            n == possibilities@.len(),
            lists == lists_view(possibilities@),
            forall|k: int| 0 <= k < possibilities@.len() ==> (#[trigger] possibilities@[k])@.len() > 0,
            acc == product_size(lists.subrange(i as int, n as int)),
        decreases i,
    {
        let len = possibilities[i - 1].len() as u64;
        assert(lists.subrange(i - 1, n as int).drop_first() =~= lists.subrange(i as int, n as int));
        assert(lists.subrange(i - 1, n as int)[0] == lists[i - 1]);
        assert(lists[i - 1].len() == len);
        assert(product_size(lists.subrange(i - 1, n as int)) == len * product_size(
            lists.subrange(i as int, n as int),
        ));
        match acc.checked_mul(len) {
            Some(p) => {
                acc = p;
            },
            None => {
                proof {
                    lemma_product_size_suffix(lists, i - 1);
                }
                return 0;
            },
        }
        i = i - 1;
    }
    assert(lists.subrange(0, n as int) =~= lists);
    acc
}

/// Builds the search space of a template: the word of every slot, and the
/// positions, candidates and number of combinations of the unknown slots.
/// Fails on an invalid template, and on one whose number of combinations
/// exceeds `u64::MAX`.
pub fn build_search_space(template: &Vec<TemplateSlot>) -> (r: Result<SearchSpace, SpaceError>)
    ensures
        !template_valid(template@) ==> r is Err && r->Err_0 == SpaceError::InvalidTemplate,
        template_valid(template@) && template_complexity(template@) > u64::MAX ==> r is Err
            && r->Err_0 == SpaceError::ComplexityOverflow,
        template_valid(template@) && template_complexity(template@) <= u64::MAX ==> r is Ok
            && space_of(template@, r->Ok_0) && r->Ok_0.wf(),
{
    if template.len() != MNEMONIC_LEN {
        return Err(SpaceError::InvalidTemplate);
    }
    let mut i: usize = 0;
    while i < MNEMONIC_LEN
        invariant
            template@.len() == MNEMONIC_LEN,
            0 <= i <= MNEMONIC_LEN,
            forall|k: int| 0 <= k < i ==> slot_valid(#[trigger] template@[k]),
        decreases MNEMONIC_LEN - i,
    {
        if !slot_is_valid(&template[i]) {
            return Err(SpaceError::InvalidTemplate);
        }
        i = i + 1;
    }
    let ghost t = template@;
    let mut words: Vec<u16> = Vec::new();
    let mut unknown_indexes: Vec<usize> = Vec::new();
    let mut possibilities: Vec<Vec<u16>> = Vec::new();
    let mut i: usize = 0;
    while i < MNEMONIC_LEN
        invariant
            t == template@,
            template_valid(t),
            0 <= i <= MNEMONIC_LEN,
            words@.len() == i,
            forall|k: int| 0 <= k < i ==> words@[k] == slot_candidates(#[trigger] t[k])[0],
            unknown_indexes@ == unknown_positions(t.take(i as int)),
            forall|k: int| 0 <= k < unknown_indexes@.len() ==> unknown_indexes@[k] < i,
            forall|k: int, l: int|
                0 <= k < l < unknown_indexes@.len() ==> unknown_indexes@[k] < unknown_indexes@[l],
            lists_view(possibilities@) == unknown_candidates(t, unknown_indexes@),
            forall|k: int| 0 <= k < possibilities@.len() ==> (#[trigger] possibilities@[k])@.len() > 0,
            forall|k: int|
                0 <= k < possibilities@.len() ==> (#[trigger] possibilities@[k])@.no_duplicates(),
        decreases MNEMONIC_LEN - i,
    {
        let cands = slot_words(&template[i]);
        assert(cands@.no_duplicates()) by {
            if t[i as int] is Any {
                assert forall|a: int, b: int| 0 <= a < b < cands@.len() implies cands@[a]
                    < cands@[b] by {
                    assert(cands@[a] == a as u16);
                    assert(cands@[b] == b as u16);
                }
                lemma_increasing_no_duplicates(cands@);
            }
        }
        assert(slot_valid(t[i as int]));
        assert(cands@.len() > 0) by {
            if t[i as int] is Any {
                assert(all_words().len() == WORDLIST_SIZE);
            }
        }
        words.push(cands[0]);
        assert(t.take(i + 1).drop_last() =~= t.take(i as int));
        assert(t.take(i + 1).last() == t[i as int]);
        if cands.len() > 1 {
            let ghost before = unknown_indexes@;
            let ghost before_lists = lists_view(possibilities@);
            let ghost c = cands@;
            unknown_indexes.push(i);
            possibilities.push(cands);
            assert(lists_view(possibilities@) =~= before_lists.push(c));
            assert(unknown_candidates(t, unknown_indexes@) =~= unknown_candidates(t, before).push(
                slot_candidates(t[i as int]),
            ));
        }
        i = i + 1;
    }
    assert(t.take(MNEMONIC_LEN as int) =~= t);
    let complexity = complexity_of(&possibilities);
    proof {
        lemma_product_size_positive(lists_view(possibilities@));
    }
    if complexity == 0 {
        return Err(SpaceError::ComplexityOverflow);
    }
    Ok(SearchSpace { template: words, unknown_indexes, possibilities, complexity })
}

} // verus!
