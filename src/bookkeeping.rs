use vstd::prelude::*;
use vstd::arithmetic::div_mod::{lemma_add_mod_noop, lemma_small_mod};

use crate::buffer::Buffer;
use crate::error::VirgoError;
use crate::field::FieldImpl;

verus! {

/// The integer sum of `terms`, added from the first term to the last.
pub open spec fn sum_of(terms: Seq<int>) -> int {
    terms.fold_left(0int, |acc: int, x: int| acc + x)
}

/// The products `a[i] * b[i]` of the canonical values, one for each position of `a`.
pub open spec fn products<F: FieldImpl>(a: Seq<F>, b: Seq<F>) -> Seq<int> {
    Seq::new(a.len(), |i: int| (a[i].val() * b[i].val()) as int)
}

/// The products `t[2i] * t[2i+1]` of adjacent pairs of canonical values.
pub open spec fn pair_products<F: FieldImpl>(t: Seq<F>) -> Seq<int> {
    Seq::new(t.len() / 2, |i: int| (t[2 * i].val() * t[2 * i + 1].val()) as int)
}

/// Entry `i` of the folded table: `a[2i] * b[2i+1] + a[2i+1] * b[2i]`, over the integers.
pub open spec fn fold_entry<F: FieldImpl>(a: Seq<F>, b: Seq<F>, i: int) -> int {
    (a[2 * i].val() * b[2 * i + 1].val() + a[2 * i + 1].val() * b[2 * i].val()) as int
}

/// Whether `sum_all_case_1` accepts its lengths.
pub open spec fn sum_all_case_1_accepts(len1: nat, len2: nat, out_len: nat, n: u32) -> bool {
    n > 0 && len1 == n && len2 == n && out_len >= 1
}

/// Whether `sum_all_case_2` accepts its lengths.
pub open spec fn sum_all_case_2_accepts(len: nat, out_len: nat, n: u32) -> bool {
    n > 0 && n % 2 == 0 && len == n && out_len >= 1
}

/// Whether `produce_case_1` accepts its lengths.
pub open spec fn produce_case_1_accepts(len1: nat, len2: nat, out_len: nat, n: u32) -> bool {
    n >= 2 && n % 2 == 0 && len1 == n && len2 == n && out_len == n / 2
}

/// What `sum_all_case_1` does: the inner product of the tables, reduced into the
/// field, becomes the first output element and the others stay; on bad lengths
/// nothing changes.
pub open spec fn sum_all_case_1_outcome<F: FieldImpl>(
    t1: Seq<F>,
    t2: Seq<F>,
    before: Seq<F>,
    after: Seq<F>,
    n: u32,
    r: Result<(), VirgoError>,
) -> bool {
    if sum_all_case_1_accepts(t1.len(), t2.len(), before.len(), n) {
        &&& r == Ok::<(), VirgoError>(())
        &&& after.len() == before.len()
        &&& after[0].val() == sum_of(products(t1, t2)) % (F::modulus() as int)
        &&& forall|j: int| 1 <= j < after.len() ==> #[trigger] after[j] == before[j]
    } else {
        r == Err::<(), VirgoError>(VirgoError::LengthMismatch) && after == before
    }
}

/// What `sum_all_case_2` does: the sum of the adjacent-pair products, reduced into
/// the field, becomes the first output element and the others stay; on bad lengths
/// nothing changes.
pub open spec fn sum_all_case_2_outcome<F: FieldImpl>(
    t: Seq<F>,
    before: Seq<F>,
    after: Seq<F>,
    n: u32,
    r: Result<(), VirgoError>,
) -> bool {
    if sum_all_case_2_accepts(t.len(), before.len(), n) {
        &&& r == Ok::<(), VirgoError>(())
        &&& after.len() == before.len()
        &&& after[0].val() == sum_of(pair_products(t)) % (F::modulus() as int)
        &&& forall|j: int| 1 <= j < after.len() ==> #[trigger] after[j] == before[j]
    } else {
        r == Err::<(), VirgoError>(VirgoError::LengthMismatch) && after == before
    }
}

/// What `produce_case_1` does: the output becomes the folded table of `n / 2`
/// elements; on bad lengths nothing changes.
pub open spec fn produce_case_1_outcome<F: FieldImpl>(
    t1: Seq<F>,
    t2: Seq<F>,
    before: Seq<F>,
    after: Seq<F>,
    n: u32,
    r: Result<(), VirgoError>,
) -> bool {
    if produce_case_1_accepts(t1.len(), t2.len(), before.len(), n) {
        &&& r == Ok::<(), VirgoError>(())
        &&& after.len() == n / 2
        &&& forall|i: int|
            0 <= i < n / 2 ==> #[trigger] after[i].val() == fold_entry(t1, t2, i) % (F::modulus() as int)
    } else {
        r == Err::<(), VirgoError>(VirgoError::LengthMismatch) && after == before
    }
}

/// Adding one more term to a prefix sum.
pub proof fn lemma_sum_of_take_step(terms: Seq<int>, i: int)
    requires
        0 <= i < terms.len(),
    ensures
        sum_of(terms.take(i + 1)) == sum_of(terms.take(i)) + terms[i],
{
    assert(terms.take(i + 1).drop_last() =~= terms.take(i));
}

/// Reducing a running sum after each term gives the reduced sum.
proof fn lemma_accumulate<F: FieldImpl>(acc: F, s: int, term: int, t: F, next: F)
    requires
        acc.val() == s % (F::modulus() as int),
        t.val() == term % (F::modulus() as int),
        next.val() == (acc.val() + t.val()) % F::modulus(),
    ensures
        next.val() == (s + term) % (F::modulus() as int),
{
    F::lemma_val_bound(acc);
    lemma_add_mod_noop(s, term, F::modulus() as int);
}

/// Writes the inner product `sum of table1[i] * table2[i]` over `i < n` to
/// `result[0]`, which must exist; the rest of `result` is left as it is.
pub fn sum_all_case_1<F: FieldImpl>(
    table1: &Buffer<F>,
    table2: &Buffer<F>,
    result: &mut Buffer<F>,
    n: u32,
) -> (r: Result<(), VirgoError>)
    ensures
        sum_all_case_1_outcome(table1@, table2@, old(result)@, final(result)@, n, r),
        final(result).spec_residency() == old(result).spec_residency(),
{
    let len = n as usize;
    if n == 0 || table1.len() != len || table2.len() != len || result.len() == 0 {
        return Err(VirgoError::LengthMismatch);
    }
    let a = table1.as_slice();
    let b = table2.as_slice();
    let ghost terms = products(table1@, table2@);
    let mut acc = F::zero();
    proof {
        F::lemma_val_bound(acc);
        lemma_small_mod(0, F::modulus());
        assert(terms.take(0) =~= Seq::<int>::empty());
    }
    let mut i: usize = 0;
    while i < len
        invariant
            i <= len,
            len == n,
            a@ == table1@,
            b@ == table2@,
            a@.len() == len,
            b@.len() == len,
            terms == products(table1@, table2@),
            acc.val() == sum_of(terms.take(i as int)) % (F::modulus() as int),
        decreases len - i,
    {
        let p = a[i].mul(&b[i]);
        let next = acc.add(&p);
        proof {
            lemma_sum_of_take_step(terms, i as int);
            lemma_accumulate(acc, sum_of(terms.take(i as int)), terms[i as int], p, next);
        }
        acc = next;
        i = i + 1;
    }
    proof {
        assert(terms.take(len as int) =~= terms);
    }
    let _ = result.write(0, acc);
    Ok(())
}

/// Writes the sum of the adjacent-pair products `table[2i] * table[2i+1]` over
/// `i < n / 2` to `result[0]`, which must exist; the rest of `result` is left as it is.
pub fn sum_all_case_2<F: FieldImpl>(table: &Buffer<F>, result: &mut Buffer<F>, n: u32) -> (r:
    Result<(), VirgoError>)
    ensures
        sum_all_case_2_outcome(table@, old(result)@, final(result)@, n, r),
        final(result).spec_residency() == old(result).spec_residency(),
{
    let len = n as usize;
    if n == 0 || n % 2 != 0 || table.len() != len || result.len() == 0 {
        return Err(VirgoError::LengthMismatch);
    }
    let a = table.as_slice();
    let half = len / 2;
    let ghost terms = pair_products(table@);
    let mut acc = F::zero();
    proof {
        F::lemma_val_bound(acc);
        lemma_small_mod(0, F::modulus());
        assert(terms.take(0) =~= Seq::<int>::empty());
    }
    let mut i: usize = 0;
    while i < half
        invariant
            i <= half,
            half == len / 2,
            len == n,
            len % 2 == 0,
            a@ == table@,
            a@.len() == len,
            terms == pair_products(table@),
            acc.val() == sum_of(terms.take(i as int)) % (F::modulus() as int),
        decreases half - i,
    {
        let p = a[2 * i].mul(&a[2 * i + 1]);
        let next = acc.add(&p);
        proof {
            lemma_sum_of_take_step(terms, i as int);
            lemma_accumulate(acc, sum_of(terms.take(i as int)), terms[i as int], p, next);
        }
        acc = next;
        i = i + 1;
    }
    proof {
        assert(terms.take(half as int) =~= terms);
    }
    let _ = result.write(0, acc);
    Ok(())
}

/// Writes the folded table `table1[2i] * table2[2i+1] + table1[2i+1] * table2[2i]`,
/// for `i < n / 2`, to `result`.
pub fn produce_case_1<F: FieldImpl>(
    table1: &Buffer<F>,
    table2: &Buffer<F>,
    result: &mut Buffer<F>,
    n: u32,
) -> (r: Result<(), VirgoError>)
    ensures
        produce_case_1_outcome(table1@, table2@, old(result)@, final(result)@, n, r),
        final(result).spec_residency() == old(result).spec_residency(),
{
    let len = n as usize;
    if n < 2 || n % 2 != 0 || table1.len() != len || table2.len() != len || result.len() != len
        / 2 {
        return Err(VirgoError::LengthMismatch);
    }
    let a = table1.as_slice();
    let b = table2.as_slice();
    let half = len / 2;
    let mut i: usize = 0;
    while i < half
        invariant
            i <= half,
            half == len / 2,
            len == n,
            len % 2 == 0,
            a@ == table1@,
            b@ == table2@,
            a@.len() == len,
            b@.len() == len,
            result@.len() == half,
            result.spec_residency() == old(result).spec_residency(),
            forall|j: int|
                0 <= j < i ==> #[trigger] result@[j].val() == fold_entry(table1@, table2@, j)
                    % (F::modulus() as int),
        decreases half - i,
    {
        let x = a[2 * i].mul(&b[2 * i + 1]);
        let y = a[2 * i + 1].mul(&b[2 * i]);
        let e = x.add(&y);
        proof {
            let m = F::modulus() as int;
            F::lemma_val_bound(x);
            lemma_add_mod_noop(
                (a@[2 * i as int].val() * b@[2 * i + 1].val()) as int,
                (a@[2 * i + 1].val() * b@[2 * i as int].val()) as int,
                m,
            );
        }
        let _ = result.write(i, e);
        i = i + 1;
    }
    Ok(())
}

} // verus!
