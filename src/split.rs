//! Partitioning of the search space among workers.

use vstd::prelude::*;

use crate::config::ConfigError;
use crate::product::{
    copy_words, lemma_prefix_each_concat, lemma_product_len, lists_view, prefix_each, product_seq,
    product_size,
};
use crate::space::{SearchSpace, WORDLIST_SIZE};

verus! {

/// `n` workers split a full-wildcard slot into equal parts.
pub open spec fn divides_wordlist(n: int) -> bool {
    n > 0 && (WORDLIST_SIZE as int) % n == 0
}

/// The number of workers for `available` execution units: the largest
/// count from 2 to `available` that divides the wordlist size. Fails below
/// two units.
pub fn choose_worker_count(available: usize) -> (r: Result<usize, ConfigError>)
    ensures
        available < 2 ==> r == Err::<usize, ConfigError>(ConfigError::TooFewExecutionUnits),
        available >= 2 ==> r is Ok && 2 <= r->Ok_0 <= available && divides_wordlist(r->Ok_0 as int)
            && forall|k: int| r->Ok_0 < k <= available ==> !divides_wordlist(k),
{
    if available < 2 {
        return Err(ConfigError::TooFewExecutionUnits);
    }
    let mut n: usize = available;
    while n > 2 && (WORDLIST_SIZE as usize) % n != 0
        invariant
            2 <= n <= available,
            forall|k: int| n < k <= available ==> !divides_wordlist(k),
        decreases n,
    {
        n = n - 1;
    }
    assert(divides_wordlist(n as int)) by {
        if n == 2 {
            assert((WORDLIST_SIZE as int) % 2 == 0);
        }
    }
    Ok(n)
}

/// Size of part `k` when `len` items are dealt into `n` parts: the quotient,
/// plus one for each of the first `len % n` parts.
pub open spec fn part_size(len: int, n: int, k: int) -> int {
    len / n + if k < len % n {
        1int
    } else {
        0int
    }
}

/// Where part `k` starts.
pub open spec fn part_start(len: int, n: int, k: int) -> int {
    k * (len / n) + if k < len % n {
        k
    } else {
        len % n
    }
}

proof fn lemma_part_bounds(len: int, n: int, k: int)
    requires
        0 <= len,
        0 < n,
        0 <= k < n,
    ensures
        part_start(len, n, k) + part_size(len, n, k) == part_start(len, n, k + 1),
        0 <= part_start(len, n, k),
        0 <= part_size(len, n, k),
        part_start(len, n, k + 1) <= len,
        part_start(len, n, n) == len,
{
    let q = len / n;
    let r = len % n;
    assert(len == n * q + r) by (nonlinear_arith)
        requires
            q == len / n,
            r == len % n,
            n > 0,
    ;
    assert(0 <= r < n);
    assert(q >= 0) by (nonlinear_arith)
        requires
            q == len / n,
            n > 0,
            len >= 0,
    ;
    assert((k + 1) * q == k * q + q) by (nonlinear_arith);
    assert(k * q >= 0) by (nonlinear_arith)
        requires
            k >= 0,
            q >= 0,
    ;
    assert((k + 1) * q <= n * q) by (nonlinear_arith)
        requires
            k + 1 <= n,
            q >= 0,
    ;
}

/// Deals the candidates into `n` consecutive parts, as even as can be, the
/// larger parts first. The parts, joined in order, are the candidates.
pub fn split_candidates(cands: &Vec<u16>, n: usize) -> (parts: Vec<Vec<u16>>)
    requires
        n > 0,
    ensures
        parts@.len() == n,
        lists_view(parts@).flatten() == cands@,
        forall|k: int|
            0 <= k < n ==> (#[trigger] parts@[k])@.len() == part_size(cands@.len() as int, n as int, k),
{
    let len = cands.len();
    let q = len / n;
    let r = len % n;
    let mut parts: Vec<Vec<u16>> = Vec::new();
    let mut pos: usize = 0;
    let mut k: usize = 0;
    while k < n
        invariant
            0 < n,
            len == cands@.len(),
            q == len / n,
            r == len % n,
            0 <= k <= n,
            parts@.len() == k,
            pos as int == part_start(len as int, n as int, k as int),
            pos <= len,
            lists_view(parts@).flatten() == cands@.take(pos as int),
            forall|j: int|
                0 <= j < k ==> (#[trigger] parts@[j])@.len() == part_size(len as int, n as int, j),
        decreases n - k,
    {
        proof {
            lemma_part_bounds(len as int, n as int, k as int);
        }
        let size: usize = if k < r {
            q + 1
        } else {
            q
        };
        let mut part: Vec<u16> = Vec::new();
        let mut j: usize = 0;
        while j < size
            invariant
                pos + size <= len,
                len == cands@.len(),
                0 <= j <= size,
                part@ == cands@.subrange(pos as int, pos + j),
            decreases size - j,
        {
            part.push(cands[pos + j]);
            j = j + 1;
            assert(part@ =~= cands@.subrange(pos as int, pos + j));
        }
        let ghost before = lists_view(parts@);
        let ghost p = part@;
        parts.push(part);
        assert(lists_view(parts@) =~= before.push(p));
        proof {
            before.lemma_flatten_push(p);
        }
        assert(cands@.take(pos as int) + p =~= cands@.take(pos + size));
        pos = pos + size;
        k = k + 1;
    }
    proof {
        lemma_part_bounds(len as int, n as int, 0);
    }
    assert(cands@.take(len as int) =~= cands@);
    parts
}

/// The candidate lists of a worker: its own part of the first list, and all
/// of the others.
pub open spec fn partition_lists(part: Seq<u16>, lists: Seq<Seq<u16>>) -> Seq<Seq<u16>> {
    seq![part] + lists.drop_first()
}

/// `partitions` are the candidate lists of `n` workers over `lists`: with
/// no list, one partition of no list; otherwise one partition per worker,
/// each with its own part of the first list, the parts dealt evenly and,
/// joined in order, giving the first list back.
pub open spec fn splits_into(lists: Seq<Seq<u16>>, n: int, partitions: Seq<Vec<Vec<u16>>>) -> bool {
    &&& lists.len() == 0 ==> partitions.len() == 1 && partitions[0]@.len() == 0
    &&& lists.len() > 0 ==> partitions.len() == n && exists|parts: Seq<Seq<u16>>|
        parts.len() == n && parts.flatten() == lists[0] && forall|k: int|
            0 <= k < n ==> lists_view(#[trigger] partitions[k]@) == partition_lists(parts[k], lists)
                && parts[k].len() == part_size(lists[0].len() as int, n, k)
}

/// The candidate lists of `n` workers. Where there are unknown slots, each
/// worker gets one part of the first slot's candidates and all the
/// candidates of the others; where there is none, one worker gets the
/// single combination.
pub fn split_space(possibilities: &Vec<Vec<u16>>, n: usize) -> (r: Vec<Vec<Vec<u16>>>)
    requires
        n > 0,
    ensures
        splits_into(lists_view(possibilities@), n as int, r@),
{
    let mut r: Vec<Vec<Vec<u16>>> = Vec::new();
    if possibilities.len() == 0 {
        r.push(Vec::new());
        return r;
    }
    let ghost lists = lists_view(possibilities@);
    let parts = split_candidates(&possibilities[0], n);
    let mut k: usize = 0;
    while k < n
        invariant
            possibilities@.len() > 0,
            lists == lists_view(possibilities@),
            parts@.len() == n,
            0 <= k <= n,
            r@.len() == k,
            forall|j: int|
                0 <= j < k ==> lists_view(#[trigger] r@[j]@) == partition_lists(
                    parts@[j]@,
                    lists,
                ),
        decreases n - k,
    {
        let mut lists_k: Vec<Vec<u16>> = Vec::new();
        lists_k.push(copy_words(&parts[k]));
        let mut i: usize = 1;
        while i < possibilities.len()
            invariant
                possibilities@.len() > 0,
                lists == lists_view(possibilities@),
                1 <= i <= possibilities@.len(),
                k < parts@.len(),
                lists_view(lists_k@) == seq![parts@[k as int]@] + lists.subrange(1, i as int),
            decreases possibilities@.len() - i,
        {
            let ghost before = lists_view(lists_k@);
            let ghost c = possibilities@[i as int]@;
            lists_k.push(copy_words(&possibilities[i]));
            assert(lists_view(lists_k@) =~= before.push(c));
            assert(lists.subrange(1, i + 1) =~= lists.subrange(1, i as int).push(c));
            assert(lists_view(lists_k@) =~= seq![parts@[k as int]@] + lists.subrange(1, i + 1));
            i = i + 1;
        }
        assert(lists.subrange(1, lists.len() as int) =~= lists.drop_first());
        r.push(lists_k);
        k = k + 1;
    }
    assert(forall|k: int| 0 <= k < n ==> lists_view(parts@)[k] == parts@[k]@);
    assert(lists[0] == possibilities@[0]@);
    r
}

/// Dealing the first slot's candidates into parts deals the combinations
/// too: the workers' combinations, worker after worker, are exactly the
/// combinations of the whole space, each once and in the same order.
pub proof fn lemma_partitions_enumerate_space(lists: Seq<Seq<u16>>, parts: Seq<Seq<u16>>)
    requires
        lists.len() > 0,
        parts.flatten() == lists[0],
    ensures
        parts.map_values(|p: Seq<u16>| product_seq(partition_lists(p, lists))).flatten()
            == product_seq(lists),
    decreases parts.len(),
{
    let tails = product_seq(lists.drop_first());
    assert forall|p: Seq<u16>| product_seq(#[trigger] partition_lists(p, lists)) == prefix_each(
        p,
        tails,
    ) by {
        assert(partition_lists(p, lists).drop_first() =~= lists.drop_first());
    }
    lemma_prefix_each_over_parts(parts, tails);
    assert(parts.map_values(|p: Seq<u16>| product_seq(partition_lists(p, lists)))
        =~= parts.map_values(|p: Seq<u16>| prefix_each(p, tails)));
    assert(product_seq(lists) == prefix_each(lists[0], tails));
}

/// However many workers share a search space, the first unknown slot's
/// candidates are split among them exactly: a word is a candidate of that
/// slot iff it is in some worker's part, and no word is in two parts.
pub proof fn lemma_split_slot_covered_exactly(
    sp: SearchSpace,
    n: int,
    partitions: Seq<Vec<Vec<u16>>>,
)
    requires
        sp.wf(),
        sp.possibilities@.len() > 0,
        n >= 2,
        splits_into(sp.lists(), n, partitions),
    ensures
        partitions.len() == n,
        forall|k: int| 0 <= k < n ==> (#[trigger] partitions[k])@.len() > 0,
        forall|w: u16|
            sp.lists()[0].contains(w) <==> exists|k: int|
                0 <= k < n && #[trigger] partitions[k]@[0]@.contains(w),
        forall|k: int, l: int, w: u16|
            0 <= k < l < n && #[trigger] partitions[k]@[0]@.contains(w)
                ==> !#[trigger] partitions[l]@[0]@.contains(w),
{
    let lists = sp.lists();
    let parts = choose|parts: Seq<Seq<u16>>|
        parts.len() == n && parts.flatten() == lists[0] && forall|k: int|
            0 <= k < n ==> lists_view(#[trigger] partitions[k]@) == partition_lists(parts[k], lists)
                && parts[k].len() == part_size(lists[0].len() as int, n, k);
    assert forall|k: int| 0 <= k < n implies (#[trigger] partitions[k])@.len() > 0 && partitions[k]@[0]@
        == parts[k] by {
        assert(lists_view(partitions[k]@) == partition_lists(parts[k], lists));
        assert(lists_view(partitions[k]@)[0] == parts[k]);
    }
    assert(lists[0] == sp.possibilities@[0]@);
    lemma_parts_cover_exactly(lists[0], parts);
    assert forall|w: u16| lists[0].contains(w) <==> exists|k: int|
        0 <= k < n && #[trigger] partitions[k]@[0]@.contains(w) by {
        if lists[0].contains(w) {
            let k = choose|k: int| 0 <= k < parts.len() && #[trigger] parts[k].contains(w);
            assert(partitions[k]@[0]@ == parts[k]);
        }
        if exists|k: int| 0 <= k < n && #[trigger] partitions[k]@[0]@.contains(w) {
            let k = choose|k: int| 0 <= k < n && #[trigger] partitions[k]@[0]@.contains(w);
            assert(parts[k].contains(w));
        }
    }
}

/// Parts that, joined, give a list without repetition cover that list
/// exactly: a word is in the list iff it is in some part, and no word is in
/// two parts.
pub proof fn lemma_parts_cover_exactly(whole: Seq<u16>, parts: Seq<Seq<u16>>)
    requires
        parts.flatten() == whole,
        whole.no_duplicates(),
    ensures
        forall|w: u16|
            whole.contains(w) <==> exists|k: int| 0 <= k < parts.len() && #[trigger] parts[k].contains(w),
        forall|k: int, l: int, w: u16|
            0 <= k < l < parts.len() && #[trigger] parts[k].contains(w) ==> !#[trigger] parts[l].contains(
                w,
            ),
    decreases parts.len(),
{
    if parts.len() > 0 {
        let head = parts[0];
        let rest = parts.drop_first();
        let tail = rest.flatten();
        assert(whole == head + tail);
        assert(tail.no_duplicates()) by {
            assert forall|i: int, j: int| 0 <= i < tail.len() && 0 <= j < tail.len() && i != j implies tail[i]
                != tail[j] by {
                assert(tail[i] == whole[head.len() + i]);
                assert(tail[j] == whole[head.len() + j]);
            }
        }
        lemma_parts_cover_exactly(tail, rest);
        assert forall|w: u16| whole.contains(w) <==> exists|k: int|
            0 <= k < parts.len() && #[trigger] parts[k].contains(w) by {
            if whole.contains(w) {
                let i = choose|i: int| 0 <= i < whole.len() && whole[i] == w;
                if i < head.len() {
                    assert(head[i] == w);
                    assert(parts[0].contains(w));
                } else {
                    assert(tail[i - head.len()] == w);
                    assert(tail.contains(w));
                    let k = choose|k: int| 0 <= k < rest.len() && #[trigger] rest[k].contains(w);
                    assert(parts[k + 1] == rest[k]);
                }
            }
            if exists|k: int| 0 <= k < parts.len() && #[trigger] parts[k].contains(w) {
                let k = choose|k: int| 0 <= k < parts.len() && #[trigger] parts[k].contains(w);
                if k == 0 {
                    let i = choose|i: int| 0 <= i < head.len() && head[i] == w;
                    assert(whole[i] == w);
                } else {
                    assert(rest[k - 1] == parts[k]);
                    assert(tail.contains(w));
                    let i = choose|i: int| 0 <= i < tail.len() && tail[i] == w;
                    assert(whole[head.len() + i] == w);
                }
            }
        }
        assert forall|k: int, l: int, w: u16|
            0 <= k < l < parts.len() && #[trigger] parts[k].contains(w) implies !#[trigger] parts[l].contains(
                w,
            ) by {
            if k == 0 {
                if parts[l].contains(w) {
                    assert(rest[l - 1] == parts[l]);
                    assert(tail.contains(w));
                    let i = choose|i: int| 0 <= i < head.len() && head[i] == w;
                    let j = choose|j: int| 0 <= j < tail.len() && tail[j] == w;
                    assert(whole[i] == w);
                    assert(whole[head.len() + j] == w);
                }
            } else {
                assert(rest[k - 1] == parts[k]);
                assert(rest[l - 1] == parts[l]);
            }
        }
    }
}

/// The number of combinations of each worker's lists, added up.
pub open spec fn partition_sizes_sum(parts: Seq<Seq<u16>>, lists: Seq<Seq<u16>>) -> nat
    decreases parts.len(),
{
    if parts.len() == 0 {
        0
    } else {
        product_size(partition_lists(parts[0], lists)) + partition_sizes_sum(
            parts.drop_first(),
            lists,
        )
    }
}

/// The number of combinations of each partition, added up.
pub open spec fn partitions_total(partitions: Seq<Vec<Vec<u16>>>) -> nat
    decreases partitions.len(),
{
    if partitions.len() == 0 {
        0
    } else {
        product_size(lists_view(partitions[0]@)) + partitions_total(partitions.drop_first())
    }
}

/// Once every worker has gone through its partition, their counts add up
/// to the complexity of the search space.
pub proof fn lemma_run_count_is_complexity(
    sp: SearchSpace,
    n: int,
    partitions: Seq<Vec<Vec<u16>>>,
)
    requires
        sp.wf(),
        splits_into(sp.lists(), n, partitions),
    ensures
        partitions_total(partitions) == sp.complexity,
{
    let lists = sp.lists();
    if lists.len() == 0 {
        assert(partitions.drop_first().len() == 0);
        assert(lists_view(partitions[0]@) =~= Seq::<Seq<u16>>::empty());
        assert(lists =~= Seq::<Seq<u16>>::empty());
        assert(product_size(lists_view(partitions[0]@)) == 1);
        assert(partitions_total(partitions.drop_first()) == 0);
        assert(partitions_total(partitions) == 1);
    } else {
        let parts = choose|parts: Seq<Seq<u16>>|
            parts.len() == n && parts.flatten() == lists[0] && forall|k: int|
                0 <= k < n ==> lists_view(#[trigger] partitions[k]@) == partition_lists(
                    parts[k],
                    lists,
                ) && parts[k].len() == part_size(lists[0].len() as int, n, k);
        lemma_partition_counts_sum(lists, parts);
        lemma_totals_agree(partitions, parts, lists);
        assert(partitions_total(partitions) == product_size(lists));
    }
}

proof fn lemma_totals_agree(
    partitions: Seq<Vec<Vec<u16>>>,
    parts: Seq<Seq<u16>>,
    lists: Seq<Seq<u16>>,
)
    requires
        partitions.len() == parts.len(),
        forall|k: int|
            0 <= k < parts.len() ==> lists_view(#[trigger] partitions[k]@) == partition_lists(
                parts[k],
                lists,
            ),
    ensures
        partitions_total(partitions) == partition_sizes_sum(parts, lists),
    decreases parts.len(),
{
    if parts.len() > 0 {
        assert(lists_view(partitions[0]@) == partition_lists(parts[0], lists));
        assert forall|k: int| 0 <= k < parts.drop_first().len() implies lists_view(
            #[trigger] partitions.drop_first()[k]@,
        ) == partition_lists(parts.drop_first()[k], lists) by {
            assert(partitions.drop_first()[k] == partitions[k + 1]);
            assert(lists_view(partitions[k + 1]@) == partition_lists(parts[k + 1], lists));
        }
        lemma_totals_agree(partitions.drop_first(), parts.drop_first(), lists);
    }
}

/// The workers' counts, once every worker has gone through its partition,
/// add up to the number of combinations of the whole space.
pub proof fn lemma_partition_counts_sum(lists: Seq<Seq<u16>>, parts: Seq<Seq<u16>>)
    requires
        lists.len() > 0,
        parts.flatten() == lists[0],
    ensures
        partition_sizes_sum(parts, lists) == product_size(lists),
{
    lemma_partitions_enumerate_space(lists, parts);
    let seqs = parts.map_values(|p: Seq<u16>| product_seq(partition_lists(p, lists)));
    lemma_flatten_len_sum(seqs, parts, lists);
    lemma_product_len(lists);
}

proof fn lemma_flatten_len_sum(
    seqs: Seq<Seq<Seq<u16>>>,
    parts: Seq<Seq<u16>>,
    lists: Seq<Seq<u16>>,
)
    requires
        seqs == parts.map_values(|p: Seq<u16>| product_seq(partition_lists(p, lists))),
    ensures
        seqs.flatten().len() == partition_sizes_sum(parts, lists),
    decreases parts.len(),
{
    if parts.len() > 0 {
        let rest = parts.drop_first();
        assert(seqs.drop_first() =~= rest.map_values(
            |p: Seq<u16>| product_seq(partition_lists(p, lists)),
        ));
        lemma_flatten_len_sum(seqs.drop_first(), rest, lists);
        lemma_product_len(partition_lists(parts[0], lists));
    }
}

proof fn lemma_prefix_each_over_parts(parts: Seq<Seq<u16>>, tails: Seq<Seq<u16>>)
    ensures
        parts.map_values(|p: Seq<u16>| prefix_each(p, tails)).flatten() == prefix_each(
            parts.flatten(),
            tails,
        ),
    decreases parts.len(),
{
    if parts.len() > 0 {
        lemma_prefix_each_over_parts(parts.drop_first(), tails);
        lemma_prefix_each_concat(parts[0], parts.drop_first().flatten(), tails);
        assert(parts.map_values(|p: Seq<u16>| prefix_each(p, tails)).drop_first()
            =~= parts.drop_first().map_values(|p: Seq<u16>| prefix_each(p, tails)));
    } else {
        assert(prefix_each(Seq::<u16>::empty(), tails) =~= Seq::<Seq<u16>>::empty());
    }
}

} // verus!
