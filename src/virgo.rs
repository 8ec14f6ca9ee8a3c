use vstd::prelude::*;

use crate::bookkeeping::{
    produce_case_1, produce_case_1_outcome, sum_all_case_1, sum_all_case_1_outcome,
    sum_all_case_2, sum_all_case_2_outcome,
};
use crate::buffer::Buffer;
use crate::error::VirgoError;
use crate::field::{FieldImpl, PrimeField};

verus! {

/// The binding of the bookkeeping-table reductions for one field. Each field type
/// has exactly one; calling the generic entry points for a field without one does
/// not compile.
pub trait Virgo: FieldImpl {
    fn bk_sum_all_case_1(
        table1: &Buffer<Self>,
        table2: &Buffer<Self>,
        result: &mut Buffer<Self>,
        n: u32,
    ) -> (r: Result<(), VirgoError>)
        ensures
            sum_all_case_1_outcome(table1@, table2@, old(result)@, final(result)@, n, r),
            final(result).spec_residency() == old(result).spec_residency(),
    ;

    fn bk_sum_all_case_2(table: &Buffer<Self>, result: &mut Buffer<Self>, n: u32) -> (r: Result<
        (),
        VirgoError,
    >)
        ensures
            sum_all_case_2_outcome(table@, old(result)@, final(result)@, n, r),
            final(result).spec_residency() == old(result).spec_residency(),
    ;

    fn bk_produce_case_1(
        table1: &Buffer<Self>,
        table2: &Buffer<Self>,
        result: &mut Buffer<Self>,
        n: u32,
    ) -> (r: Result<(), VirgoError>)
        ensures
            produce_case_1_outcome(table1@, table2@, old(result)@, final(result)@, n, r),
            final(result).spec_residency() == old(result).spec_residency(),
    ;
}

impl<const P: u64> Virgo for PrimeField<P> {
    fn bk_sum_all_case_1(
        table1: &Buffer<Self>,
        table2: &Buffer<Self>,
        result: &mut Buffer<Self>,
        n: u32,
    ) -> (r: Result<(), VirgoError>) {
        sum_all_case_1(table1, table2, result, n)
    }

    fn bk_sum_all_case_2(table: &Buffer<Self>, result: &mut Buffer<Self>, n: u32) -> (r: Result<
        (),
        VirgoError,
    >) {
        sum_all_case_2(table, result, n)
    }

    fn bk_produce_case_1(
        table1: &Buffer<Self>,
        table2: &Buffer<Self>,
        result: &mut Buffer<Self>,
        n: u32,
    ) -> (r: Result<(), VirgoError>) {
        produce_case_1(table1, table2, result, n)
    }
}

/// Inner product of two tables of `n` elements, written to `result[0]`, through
/// the binding of the field `F`.
pub fn bk_sum_all_case_1<F: Virgo>(
    table1: &Buffer<F>,
    table2: &Buffer<F>,
    result: &mut Buffer<F>,
    n: u32,
) -> (r: Result<(), VirgoError>)
    ensures
        sum_all_case_1_outcome(table1@, table2@, old(result)@, final(result)@, n, r),
        final(result).spec_residency() == old(result).spec_residency(),
{
    F::bk_sum_all_case_1(table1, table2, result, n)
}

/// Sum of the adjacent-pair products of a table of `n` elements, written to
/// `result[0]`, through the binding of the field `F`.
pub fn bk_sum_all_case_2<F: Virgo>(table: &Buffer<F>, result: &mut Buffer<F>, n: u32) -> (r:
    Result<(), VirgoError>)
    ensures
        sum_all_case_2_outcome(table@, old(result)@, final(result)@, n, r),
        final(result).spec_residency() == old(result).spec_residency(),
{
    F::bk_sum_all_case_2(table, result, n)
}

/// Fold of two tables of `n` elements into `result`, of `n / 2` elements, through
/// the binding of the field `F`.
pub fn bk_produce_case_1<F: Virgo>(
    table1: &Buffer<F>,
    table2: &Buffer<F>,
    result: &mut Buffer<F>,
    n: u32,
) -> (r: Result<(), VirgoError>)
    ensures
        produce_case_1_outcome(table1@, table2@, old(result)@, final(result)@, n, r),
        final(result).spec_residency() == old(result).spec_residency(),
{
    F::bk_produce_case_1(table1, table2, result, n)
}

} // verus!
