use vstd::prelude::*;
use vstd::arithmetic::power::lemma_pow0;
use vstd::arithmetic::power2::{
    lemma2_to64, lemma_pow2_pos, lemma_pow2_strictly_increases, lemma_pow2_unfold, pow2,
};
use vstd::multiset::group_multiset_axioms;
use vstd::seq_lib::{
    commutative_foldl, lemma_fold_left_permutation, to_multiset_build, to_multiset_remove,
    group_to_multiset_ensures,
};

use crate::bookkeeping::{
    pair_products, produce_case_1_outcome, products, sum_all_case_1_outcome,
    sum_all_case_2_outcome, sum_of,
};
use crate::error::VirgoError;
use crate::field::FieldImpl;

verus! {

/// `pi` lists each index of `0..n` exactly once.
pub open spec fn is_permutation(pi: Seq<int>, n: nat) -> bool {
    &&& pi.len() == n
    &&& forall|j: int| 0 <= j < n ==> 0 <= #[trigger] pi[j] < n
    &&& forall|i: int, j: int| 0 <= i < n && 0 <= j < n && i != j ==> pi[i] != pi[j]
    &&& forall|i: int| 0 <= i < n ==> #[trigger] pi.contains(i)
}

/// The elements of `s` in the order that `pi` lists their positions.
pub open spec fn permuted<A>(s: Seq<A>, pi: Seq<int>) -> Seq<A> {
    Seq::new(pi.len(), |j: int| s[pi[j]])
}

/// Listing the elements of a sequence in a permuted order keeps its multiset.
pub proof fn lemma_permuted_to_multiset<A>(s: Seq<A>, pi: Seq<int>)
    requires
        is_permutation(pi, s.len()),
    ensures
        permuted(s, pi).to_multiset() == s.to_multiset(),
    decreases s.len(),
{
    broadcast use group_multiset_axioms;
    broadcast use group_to_multiset_ensures;

    let n = s.len() as int;
    if n == 0 {
        assert(permuted(s, pi) =~= Seq::<A>::empty());
        assert(s =~= Seq::<A>::empty());
    } else {
        assert(pi.contains(n - 1));
        let k = choose|j: int| 0 <= j < n && #[trigger] pi[j] == n - 1;
        let s0 = s.drop_last();
        let pi0 = pi.remove(k);
        assert forall|i: int| 0 <= i < n - 1 implies #[trigger] pi0.contains(i) by {
            assert(pi.contains(i));
            let j = choose|j: int| 0 <= j < n && #[trigger] pi[j] == i;
            if j < k {
                assert(pi0[j] == i);
            } else {
                assert(pi0[j - 1] == i);
            }
        }
        assert forall|j: int| 0 <= j < n - 1 implies 0 <= #[trigger] pi0[j] < n - 1 by {
            if j < k {
                assert(pi0[j] == pi[j]);
            } else {
                assert(pi0[j] == pi[j + 1]);
            }
        }
        assert forall|i: int, j: int|
            0 <= i < n - 1 && 0 <= j < n - 1 && i != j implies pi0[i] != pi0[j] by {
            let i1 = if i < k { i } else { i + 1 };
            let j1 = if j < k { j } else { j + 1 };
            assert(pi0[i] == pi[i1] && pi0[j] == pi[j1]);
        }
        lemma_permuted_to_multiset(s0, pi0);
        let t = permuted(s, pi);
        assert(t.remove(k) =~= permuted(s0, pi0));
        to_multiset_remove(t, k);
        assert(t.to_multiset().count(t[k]) > 0);
        assert(t.to_multiset() =~= t.remove(k).to_multiset().insert(t[k]));
        assert(s0.push(s[n - 1]) =~= s);
        to_multiset_build(s0, s[n - 1]);
    }
}

/// Adding the same terms in any order gives the same sum.
pub proof fn lemma_summation_order_invariant(terms: Seq<int>, reordered: Seq<int>)
    requires
        reordered.to_multiset() == terms.to_multiset(),
    ensures
        sum_of(reordered) == sum_of(terms),
{
    let f = |acc: int, x: int| acc + x;
    assert(commutative_foldl(f));
    lemma_fold_left_permutation(terms, reordered, f, 0int);
}

/// The element that `sum_all_case_1` writes is the sum of the products added in
/// any order.
pub proof fn lemma_sum_all_case_1_order_free<F: FieldImpl>(
    t1: Seq<F>,
    t2: Seq<F>,
    before: Seq<F>,
    after: Seq<F>,
    n: u32,
    reordered: Seq<int>,
)
    requires
        sum_all_case_1_outcome(t1, t2, before, after, n, Ok::<(), VirgoError>(())),
        reordered.to_multiset() == products(t1, t2).to_multiset(),
    ensures
        after[0].val() == sum_of(reordered) % (F::modulus() as int),
{
    lemma_summation_order_invariant(products(t1, t2), reordered);
}

/// The element that `sum_all_case_2` writes is the sum of the pair products added
/// in any order.
pub proof fn lemma_sum_all_case_2_order_free<F: FieldImpl>(
    t: Seq<F>,
    before: Seq<F>,
    after: Seq<F>,
    n: u32,
    reordered: Seq<int>,
)
    requires
        sum_all_case_2_outcome(t, before, after, n, Ok::<(), VirgoError>(())),
        reordered.to_multiset() == pair_products(t).to_multiset(),
    ensures
        after[0].val() == sum_of(reordered) % (F::modulus() as int),
{
    lemma_summation_order_invariant(pair_products(t), reordered);
}

/// The element that `sum_all_case_1` writes is the sum of the products taken in
/// any order of the positions.
pub proof fn lemma_sum_all_case_1_any_index_order<F: FieldImpl>(
    t1: Seq<F>,
    t2: Seq<F>,
    before: Seq<F>,
    after: Seq<F>,
    n: u32,
    pi: Seq<int>,
)
    requires
        sum_all_case_1_outcome(t1, t2, before, after, n, Ok::<(), VirgoError>(())),
        is_permutation(pi, n as nat),
    ensures
        after[0].val() == sum_of(permuted(products(t1, t2), pi)) % (F::modulus() as int),
{
    lemma_permuted_to_multiset(products(t1, t2), pi);
    lemma_sum_all_case_1_order_free(t1, t2, before, after, n, permuted(products(t1, t2), pi));
}

/// Reordering the positions of both tables alike does not change what
/// `sum_all_case_1` writes.
pub proof fn lemma_sum_all_case_1_permuted_tables<F: FieldImpl>(
    t1: Seq<F>,
    t2: Seq<F>,
    pi: Seq<int>,
    before: Seq<F>,
    after: Seq<F>,
    before_p: Seq<F>,
    after_p: Seq<F>,
    n: u32,
)
    requires
        is_permutation(pi, n as nat),
        sum_all_case_1_outcome(t1, t2, before, after, n, Ok::<(), VirgoError>(())),
        sum_all_case_1_outcome(
            permuted(t1, pi),
            permuted(t2, pi),
            before_p,
            after_p,
            n,
            Ok::<(), VirgoError>(()),
        ),
    ensures
        after_p[0].val() == after[0].val(),
{
    assert(products(permuted(t1, pi), permuted(t2, pi)) =~= permuted(products(t1, t2), pi));
    lemma_sum_all_case_1_any_index_order(t1, t2, before, after, n, pi);
}

/// The table whose adjacent pairs are those of `t`, in the order that `sigma`
/// lists the pairs.
pub open spec fn pairs_permuted<F>(t: Seq<F>, sigma: Seq<int>) -> Seq<F> {
    Seq::new(2 * sigma.len(), |i: int| t[2 * sigma[i / 2] + i % 2])
}

/// The element that `sum_all_case_2` writes is the sum of the pair products taken
/// in any order of the pairs.
pub proof fn lemma_sum_all_case_2_any_index_order<F: FieldImpl>(
    t: Seq<F>,
    before: Seq<F>,
    after: Seq<F>,
    n: u32,
    sigma: Seq<int>,
)
    requires
        sum_all_case_2_outcome(t, before, after, n, Ok::<(), VirgoError>(())),
        is_permutation(sigma, (n / 2) as nat),
    ensures
        after[0].val() == sum_of(permuted(pair_products(t), sigma)) % (F::modulus() as int),
{
    lemma_permuted_to_multiset(pair_products(t), sigma);
    lemma_sum_all_case_2_order_free(t, before, after, n, permuted(pair_products(t), sigma));
}

/// Reordering the adjacent pairs of a table does not change what `sum_all_case_2`
/// writes.
pub proof fn lemma_sum_all_case_2_permuted_pairs<F: FieldImpl>(
    t: Seq<F>,
    sigma: Seq<int>,
    before: Seq<F>,
    after: Seq<F>,
    before_p: Seq<F>,
    after_p: Seq<F>,
    n: u32,
)
    requires
        is_permutation(sigma, (n / 2) as nat),
        sum_all_case_2_outcome(t, before, after, n, Ok::<(), VirgoError>(())),
        sum_all_case_2_outcome(
            pairs_permuted(t, sigma),
            before_p,
            after_p,
            n,
            Ok::<(), VirgoError>(()),
        ),
    ensures
        after_p[0].val() == after[0].val(),
{
    let u = pairs_permuted(t, sigma);
    assert forall|j: int| 0 <= j < sigma.len() implies #[trigger] pair_products(u)[j]
        == permuted(pair_products(t), sigma)[j] by {
        assert((2 * j) / 2 == j && (2 * j) % 2 == 0);
        assert((2 * j + 1) / 2 == j && (2 * j + 1) % 2 == 1);
    }
    assert(pair_products(u) =~= permuted(pair_products(t), sigma));
    lemma_sum_all_case_2_any_index_order(t, before, after, n, sigma);
}

/// Folding tables of `2^m` elements, `m >= 1`, into an output of `2^(m-1)`
/// elements always succeeds and leaves a table of `2^(m-1)` elements.
pub proof fn lemma_fold_power_of_two_succeeds<F: FieldImpl>(
    t1: Seq<F>,
    t2: Seq<F>,
    before: Seq<F>,
    after: Seq<F>,
    n: u32,
    m: nat,
    r: Result<(), VirgoError>,
)
    requires
        m >= 1,
        n as nat == pow2(m),
        t1.len() == n,
        t2.len() == n,
        before.len() == pow2((m - 1) as nat),
        produce_case_1_outcome(t1, t2, before, after, n, r),
    ensures
        r == Ok::<(), VirgoError>(()),
        after.len() == pow2((m - 1) as nat),
{
    lemma_pow2_unfold(m);
    lemma_pow2_pos((m - 1) as nat);
}

/// The outcome of the `j`-th fold of a chain: `tables[j]` folded with
/// `companions[j]` into an output that held `outputs_before[j]` and now holds
/// `tables[j + 1]`.
pub open spec fn fold_step<F: FieldImpl>(
    tables: Seq<Seq<F>>,
    companions: Seq<Seq<F>>,
    outputs_before: Seq<Seq<F>>,
    results: Seq<Result<(), VirgoError>>,
    j: int,
) -> bool {
    &&& companions[j].len() == tables[j].len()
    &&& outputs_before[j].len() == tables[j].len() / 2
    &&& produce_case_1_outcome(
        tables[j],
        companions[j],
        outputs_before[j],
        tables[j + 1],
        tables[j].len() as u32,
        results[j],
    )
}

/// The first `j` folds of a chain that starts from `2^k` elements all succeed,
/// and leave `2^(k - j)` elements.
proof fn lemma_fold_chain_prefix<F: FieldImpl>(
    k: nat,
    tables: Seq<Seq<F>>,
    companions: Seq<Seq<F>>,
    outputs_before: Seq<Seq<F>>,
    results: Seq<Result<(), VirgoError>>,
    j: nat,
)
    requires
        k <= 31,
        j <= k,
        tables.len() == k + 1,
        companions.len() == k,
        outputs_before.len() == k,
        results.len() == k,
        tables[0].len() == pow2(k),
        forall|i: int|
            0 <= i < k ==> #[trigger] fold_step(tables, companions, outputs_before, results, i),
    ensures
        tables[j as int].len() == pow2((k - j) as nat),
        forall|i: int| 0 <= i < j ==> #[trigger] results[i] == Ok::<(), VirgoError>(()),
    decreases j,
{
    if j > 0 {
        let p = (j - 1) as nat;
        lemma_fold_chain_prefix(k, tables, companions, outputs_before, results, p);
        let m = (k - p) as nat;
        assert(fold_step(tables, companions, outputs_before, results, p as int));
        lemma2_to64();
        if m < 31 {
            lemma_pow2_strictly_increases(m, 31);
        }
        let n = tables[p as int].len() as u32;
        assert(n as nat == pow2(m));
        lemma_fold_power_of_two_succeeds(
            tables[p as int],
            companions[p as int],
            outputs_before[p as int],
            tables[j as int],
            n,
            m,
            results[p as int],
        );
    }
}

/// Folding a table of `2^k` elements `k` times in a row, each time with a
/// companion table of the same length into an output of half that length,
/// succeeds at every step, halves the size each time, and ends at one element.
pub proof fn lemma_fold_chain_terminates<F: FieldImpl>(
    k: nat,
    tables: Seq<Seq<F>>,
    companions: Seq<Seq<F>>,
    outputs_before: Seq<Seq<F>>,
    results: Seq<Result<(), VirgoError>>,
)
    requires
        k <= 31,
        tables.len() == k + 1,
        companions.len() == k,
        outputs_before.len() == k,
        results.len() == k,
        tables[0].len() == pow2(k),
        forall|i: int|
            0 <= i < k ==> #[trigger] fold_step(tables, companions, outputs_before, results, i),
    ensures
        forall|i: int| 0 <= i < k ==> #[trigger] results[i] == Ok::<(), VirgoError>(()),
        forall|i: int| 0 <= i <= k ==> #[trigger] tables[i].len() == pow2((k - i) as nat),
        forall|i: int| 0 <= i < k ==> #[trigger] tables[i].len() >= 2,
        tables[k as int].len() == 1,
{
    lemma_fold_chain_prefix(k, tables, companions, outputs_before, results, k);
    assert forall|i: int| 0 <= i <= k implies #[trigger] tables[i].len() == pow2(
        (k - i) as nat,
    ) by {
        lemma_fold_chain_prefix(k, tables, companions, outputs_before, results, i as nat);
    }
    assert forall|i: int| 0 <= i < k implies #[trigger] tables[i].len() >= 2 by {
        lemma_fold_chain_prefix(k, tables, companions, outputs_before, results, i as nat);
        lemma_pow2_unfold((k - i) as nat);
        lemma_pow2_pos((k - i - 1) as nat);
    }
    lemma_pow0(2);
}

} // verus!
