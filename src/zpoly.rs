//! The grand-product (Z) sequences that a table commits to, one per lookup and challenge.

use vstd::prelude::*;
use crate::field::{Felt, fmul, modulus, lemma_fmul_one};
use crate::column::{Column, table_wf, height, row_wf};
use crate::challenge::{GrandProductChallenge, combine_spec};
use crate::error::CtlError;

verus! {

/// Every combination of `cols` is well formed and reads columns below `width`.
pub open spec fn columns_ok(cols: Seq<Column>, width: int) -> bool {
    forall|k: int| 0 <= k < cols.len() ==> (#[trigger] cols[k]).wf() && cols[k].fits(width)
}

/// The filter, if any, is well formed and reads columns below `width`.
pub open spec fn filter_ok(filter: Option<Column>, width: int) -> bool {
    filter matches Some(f) ==> f.wf() && f.fits(width)
}

/// The payload values of `cols` at row `i` of `table`.
pub open spec fn payload(table: Seq<Vec<Felt>>, cols: Seq<Column>, i: int) -> Seq<Felt> {
    Seq::new(cols.len(), |k: int| Felt { value: cols[k].table_value(table, i) as u64 })
}

/// The filter's value at row `i`; without a filter every row is selected.
pub open spec fn filter_value(table: Seq<Vec<Felt>>, filter: Option<Column>, i: int) -> int {
    match filter {
        Some(f) => f.table_value(table, i),
        None => 1,
    }
}

/// The filter is 0 or 1 at row `i`.
pub open spec fn binary_at(table: Seq<Vec<Felt>>, filter: Option<Column>, i: int) -> bool {
    filter_value(table, filter, i) == 0 || filter_value(table, filter, i) == 1
}

/// The filter is 0 or 1 at every row.
pub open spec fn binary_filter(table: Seq<Vec<Felt>>, filter: Option<Column>) -> bool {
    forall|i: int| 0 <= i < height(table) ==> binary_at(table, filter, i)
}

/// What row `i` contributes to the product: the combined payload where the filter is 1,
/// and 1 elsewhere.
pub open spec fn select(
    table: Seq<Vec<Felt>>,
    cols: Seq<Column>,
    filter: Option<Column>,
    ch: GrandProductChallenge<Felt>,
    i: int,
) -> int {
    if filter_value(table, filter, i) == 1 {
        combine_spec(ch, payload(table, cols, i))
    } else {
        1
    }
}

/// Z at row `i`: the product of `select` over rows `i` to the last.
pub open spec fn z_at(
    table: Seq<Vec<Felt>>,
    cols: Seq<Column>,
    filter: Option<Column>,
    ch: GrandProductChallenge<Felt>,
    i: int,
) -> int
    decreases height(table) - i,
{
    if i >= height(table) - 1 {
        select(table, cols, filter, ch, i)
    } else {
        fmul(z_at(table, cols, filter, ch, i + 1), select(table, cols, filter, ch, i))
    }
}

pub proof fn lemma_z_canonical(
    table: Seq<Vec<Felt>>,
    cols: Seq<Column>,
    filter: Option<Column>,
    ch: GrandProductChallenge<Felt>,
    i: int,
)
    ensures
        0 <= z_at(table, cols, filter, ch, i) < modulus(),
    decreases height(table) - i,
{
    if i < height(table) - 1 {
        lemma_z_canonical(table, cols, filter, ch, i + 1);
    }
}

/// The payload of row `i`, evaluated.
fn eval_payload(trace: &[Vec<Felt>], columns: &[Column], i: usize) -> (r: Vec<Felt>)
    requires
        table_wf(trace@),
        i < height(trace@),
        columns_ok(columns@, trace@.len() as int),
    ensures
        r@ == payload(trace@, columns@, i as int),
        row_wf(r@),
{
    let mut r: Vec<Felt> = Vec::new();
    let mut k: usize = 0;
    while k < columns.len()
        invariant
            k <= columns@.len(),
            table_wf(trace@),
            i < height(trace@),
            columns_ok(columns@, trace@.len() as int),
            r@ =~= payload(trace@, columns@.subrange(0, k as int), i as int),
            row_wf(r@),
        decreases columns@.len() - k,
    {
        let x = columns[k].eval_table(trace, i);
        r.push(x);
        k = k + 1;
        assert(r@ =~= payload(trace@, columns@.subrange(0, k as int), i as int));
    }
    assert(columns@.subrange(0, columns@.len() as int) =~= columns@);
    r
}

/// The filter's value at row `i`.
fn eval_filter(trace: &[Vec<Felt>], filter_column: &Option<Column>, i: usize) -> (r: Felt)
    requires
        table_wf(trace@),
        i < height(trace@),
        filter_ok(*filter_column, trace@.len() as int),
    ensures
        r.wf(),
        r@ == filter_value(trace@, *filter_column, i as int),
{
    match filter_column {
        Some(column) => column.eval_table(trace, i),
        None => Felt::one(),
    }
}

/// Builds the Z sequence of one table for one challenge: walking from the last row up,
/// the running product takes in the combined payload of each row whose filter is 1.
/// Fails at the lowest row from the end whose filter is neither 0 nor 1.
pub fn partial_products(
    trace: &[Vec<Felt>],
    columns: &[Column],
    filter_column: &Option<Column>,
    challenge: GrandProductChallenge<Felt>,
) -> (r: Result<Vec<Felt>, CtlError>)
    requires
        table_wf(trace@),
        columns_ok(columns@, trace@.len() as int),
        filter_ok(*filter_column, trace@.len() as int),
        challenge.wf(),
    ensures
        match r {
            Ok(z) => {
                &&& binary_filter(trace@, *filter_column)
                &&& z@.len() == height(trace@)
                &&& row_wf(z@)
                &&& forall|i: int| 0 <= i < height(trace@)
                    ==> (#[trigger] z@[i])@ == z_at(trace@, columns@, *filter_column, challenge, i)
            },
            Err(e) => e matches CtlError::NonBinaryFilter { row } && {
                &&& row < height(trace@)
                &&& !binary_at(trace@, *filter_column, row as int)
                &&& forall|j: int| row < j < height(trace@) ==> binary_at(trace@, *filter_column, j)
            },
        },
{
    let ghost t = trace@;
    let ghost cols = columns@;
    let ghost filt = *filter_column;
    let h = trace[0].len();
    let mut prod = Felt::one();
    let mut rev: Vec<Felt> = Vec::new();
    let mut i: usize = h;
    while i > 0
        invariant
            i <= h,
            h == height(t),
            t == trace@,
            cols == columns@,
            filt == *filter_column,
            table_wf(t),
            columns_ok(cols, t.len() as int),
            filter_ok(filt, t.len() as int),
            challenge.wf(),
            rev@.len() == h - i,
            prod.wf(),
            i < h ==> prod@ == z_at(t, cols, filt, challenge, i as int),
            i == h ==> prod@ == 1,
            forall|k: int| 0 <= k < h - i ==> (#[trigger] rev@[k])@ == z_at(t, cols, filt, challenge, h - 1 - k),
            row_wf(rev@),
            forall|j: int| i <= j < h ==> binary_at(t, filt, j),
        decreases i,
    {
        let row = i - 1;
        let f = eval_filter(trace, filter_column, row);
        if f.is_one() {
            let evals = eval_payload(trace, columns, row);
            let c = challenge.combine(&evals);
            proof {
                if i < h {
                    lemma_z_canonical(t, cols, filt, challenge, i as int);
                } else {
                    lemma_fmul_one(c@);
                }
                assert(c@ == select(t, cols, filt, challenge, row as int));
            }
            prod = prod.mul(c);
        } else if f.is_zero() {
            proof {
                if i < h {
                    lemma_z_canonical(t, cols, filt, challenge, i as int);
                    lemma_fmul_one(prod@);
                }
                assert(select(t, cols, filt, challenge, row as int) == 1);
            }
        } else {
            return Err(CtlError::NonBinaryFilter { row });
        }
        assert(prod@ == z_at(t, cols, filt, challenge, row as int));
        rev.push(prod);
        i = row;
    }
    let mut z: Vec<Felt> = Vec::new();
    let mut k: usize = 0;
    while k < h
        invariant
            k <= h,
            h == height(t),
            t == trace@,
            rev@.len() == h,
            row_wf(rev@),
            forall|m: int| 0 <= m < h ==> (#[trigger] rev@[m])@ == z_at(t, cols, filt, challenge, h - 1 - m),
            z@.len() == k,
            row_wf(z@),
            forall|m: int| 0 <= m < k ==> (#[trigger] z@[m])@ == z_at(t, cols, filt, challenge, m),
        decreases h - k,
    {
        let x = rev[h - 1 - k];
        z.push(x);
        k = k + 1;
    }
    Ok(z)
}

} // verus!
