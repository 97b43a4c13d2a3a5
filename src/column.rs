//! Affine combinations of trace columns over the current row and the next row.

use vstd::prelude::*;
use crate::field::{Felt, fadd, fmul, modulus};

verus! {

/// `Σ coeff · row[idx]` over the pairs of `lc`, summed from the first pair on.
pub open spec fn lc_eval(lc: Seq<(usize, Felt)>, row: Seq<Felt>) -> int
    decreases lc.len(),
{
    if lc.len() == 0 {
        0
    } else {
        fadd(lc_eval(lc.drop_last(), row), fmul(row[lc.last().0 as int]@, lc.last().1@))
    }
}

/// No column index occurs twice in `lc`.
pub open spec fn distinct_indices(lc: Seq<(usize, Felt)>) -> bool {
    forall|i: int, j: int| 0 <= i < lc.len() && 0 <= j < lc.len() && i != j ==> lc[i].0 != lc[j].0
}

/// Every coefficient of `lc` is in canonical form.
pub open spec fn coeffs_wf(lc: Seq<(usize, Felt)>) -> bool {
    forall|i: int| 0 <= i < lc.len() ==> (#[trigger] lc[i]).1.wf()
}

/// Every index of `lc` is below `width`.
pub open spec fn indices_below(lc: Seq<(usize, Felt)>, width: int) -> bool {
    forall|i: int| 0 <= i < lc.len() ==> ((#[trigger] lc[i]).0 as int) < width
}

/// Every element of `row` is in canonical form.
pub open spec fn row_wf(row: Seq<Felt>) -> bool {
    forall|i: int| 0 <= i < row.len() ==> (#[trigger] row[i]).wf()
}

/// A row of zeros of the given width.
pub open spec fn zero_row(width: int) -> Seq<Felt> {
    Seq::new(width as nat, |i: int| Felt { value: 0 })
}

/// Row `row` of a column-major table.
pub open spec fn table_row(table: Seq<Vec<Felt>>, row: int) -> Seq<Felt> {
    Seq::new(table.len(), |c: int| table[c]@[row])
}

/// The number of rows of a column-major table (that of its first column).
pub open spec fn height(table: Seq<Vec<Felt>>) -> int {
    table[0]@.len() as int
}

/// A column-major table: at least one column, all of one height (possibly no rows),
/// every value canonical.
pub open spec fn table_wf(table: Seq<Vec<Felt>>) -> bool {
    &&& table.len() > 0
    &&& forall|c: int| 0 <= c < table.len() ==> (#[trigger] table[c])@.len() == height(table)
    &&& forall|c: int, r: int|
        0 <= c < table.len() && 0 <= r < height(table) ==> (#[trigger] table[c]@[r]).wf()
}

/// The row after `row`, or a row of zeros after the last row.
pub open spec fn next_table_row(table: Seq<Vec<Felt>>, row: int) -> Seq<Felt> {
    if row + 1 < height(table) {
        table_row(table, row + 1)
    } else {
        zero_row(table.len() as int)
    }
}

/// An affine combination of the columns of the current row and of the next row.
#[derive(Clone, Debug)]
pub struct Column {
    pub linear_combination: Vec<(usize, Felt)>,
    pub next_row_linear_combination: Vec<(usize, Felt)>,
    pub constant: Felt,
}

impl Column {
    /// Indices unique within each row's list, all values canonical.
    pub open spec fn wf(&self) -> bool {
        &&& distinct_indices(self.linear_combination@)
        &&& distinct_indices(self.next_row_linear_combination@)
        &&& coeffs_wf(self.linear_combination@)
        &&& coeffs_wf(self.next_row_linear_combination@)
        &&& self.constant.wf()
    }

    /// Every column index that the combination reads is below `width`.
    pub open spec fn fits(&self, width: int) -> bool {
        &&& indices_below(self.linear_combination@, width)
        &&& indices_below(self.next_row_linear_combination@, width)
    }

    /// The value of the combination on the current row `cur` and next row `next`.
    pub open spec fn value(&self, cur: Seq<Felt>, next: Seq<Felt>) -> int {
        fadd(
            fadd(lc_eval(self.linear_combination@, cur), lc_eval(self.next_row_linear_combination@, next)),
            self.constant@,
        )
    }

    /// The value of the combination on the current row alone.
    pub open spec fn value_cur(&self, cur: Seq<Felt>) -> int {
        fadd(lc_eval(self.linear_combination@, cur), self.constant@)
    }

    /// The value at row `row` of a column-major table, the row after the last one being zeros.
    pub open spec fn table_value(&self, table: Seq<Vec<Felt>>, row: int) -> int {
        self.value(table_row(table, row), next_table_row(table, row))
    }

    /// `self` and `o` are the same combination.
    pub open spec fn same(&self, o: &Column) -> bool {
        &&& self.linear_combination@ == o.linear_combination@
        &&& self.next_row_linear_combination@ == o.next_row_linear_combination@
        &&& self.constant == o.constant
    }
}

/// `base^n` in the field.
pub open spec fn fpow(base: int, n: nat) -> int
    decreases n,
{
    if n == 0 {
        1
    } else {
        fmul(fpow(base, (n - 1) as nat), base)
    }
}

/// No index occurs twice in `cs`.
pub open spec fn distinct(cs: Seq<usize>) -> bool {
    forall|i: int, j: int| 0 <= i < cs.len() && 0 <= j < cs.len() && i != j ==> cs[i] != cs[j]
}

/// The pairs `(cs[i], base^i)`.
pub open spec fn weighted(cs: Seq<usize>, base: int) -> Seq<(usize, Felt)> {
    Seq::new(cs.len(), |i: int| (cs[i], Felt { value: fpow(base, i as nat) as u64 }))
}

/// The pairs `(cs[i], 1)`.
pub open spec fn unit_weighted(cs: Seq<usize>) -> Seq<(usize, Felt)> {
    Seq::new(cs.len(), |i: int| (cs[i], Felt { value: 1 }))
}

/// Any result of the field operations is canonical.
pub proof fn lemma_fadd_canonical(a: int, b: int)
    ensures
        0 <= fadd(a, b) < modulus(),
{
}

/// A combination read on a row of zeros is zero.
pub proof fn lemma_lc_eval_zero_row(lc: Seq<(usize, Felt)>, width: int)
    requires
        indices_below(lc, width),
    ensures
        lc_eval(lc, zero_row(width)) == 0,
    decreases lc.len(),
{
    if lc.len() > 0 {
        let init = lc.drop_last();
        assert(indices_below(init, width)) by {
            assert forall|i: int| 0 <= i < init.len() implies ((#[trigger] init[i]).0 as int) < width by {
                assert(init[i] == lc[i]);
            }
        }
        lemma_lc_eval_zero_row(init, width);
        let (c, f) = lc.last();
        assert(lc.last() == lc[lc.len() - 1]);
        assert(zero_row(width)[c as int]@ == 0);
        assert(0 * f@ == 0);
    }
}

/// Evaluates `lc` on `row`.
fn eval_lc(lc: &Vec<(usize, Felt)>, row: &[Felt]) -> (r: Felt)
    requires
        coeffs_wf(lc@),
        indices_below(lc@, row@.len() as int),
        row_wf(row@),
    ensures
        r.wf(),
        r@ == lc_eval(lc@, row@),
{
    let mut acc = Felt::zero();
    let mut i: usize = 0;
    while i < lc.len()
        invariant
            i <= lc@.len(),
            coeffs_wf(lc@),
            indices_below(lc@, row@.len() as int),
            row_wf(row@),
            acc.wf(),
            acc@ == lc_eval(lc@.subrange(0, i as int), row@),
        decreases lc@.len() - i,
    {
        let (c, f) = lc[i];
        assert(lc@[i as int].0 < row@.len());
        assert(lc@[i as int].1.wf());
        acc = acc.add(row[c].mul(f));
        assert(lc@.subrange(0, i + 1).drop_last() =~= lc@.subrange(0, i as int));
        i = i + 1;
    }
    assert(lc@.subrange(0, lc@.len() as int) =~= lc@);
    acc
}

/// Evaluates `lc` on row `row` of a column-major table.
fn eval_lc_table(lc: &Vec<(usize, Felt)>, table: &[Vec<Felt>], row: usize) -> (r: Felt)
    requires
        table_wf(table@),
        row < height(table@),
        coeffs_wf(lc@),
        indices_below(lc@, table@.len() as int),
    ensures
        r.wf(),
        r@ == lc_eval(lc@, table_row(table@, row as int)),
{
    let ghost cur = table_row(table@, row as int);
    let mut acc = Felt::zero();
    let mut i: usize = 0;
    while i < lc.len()
        invariant
            i <= lc@.len(),
            table_wf(table@),
            row < height(table@),
            coeffs_wf(lc@),
            indices_below(lc@, table@.len() as int),
            cur == table_row(table@, row as int),
            acc.wf(),
            acc@ == lc_eval(lc@.subrange(0, i as int), cur),
        decreases lc@.len() - i,
    {
        let (c, f) = lc[i];
        assert(lc@[i as int].0 < table@.len());
        assert(lc@[i as int].1.wf());
        assert(table@[c as int]@.len() == height(table@));
        let x = table[c][row];
        assert(x == cur[c as int]);
        acc = acc.add(x.mul(f));
        assert(lc@.subrange(0, i + 1).drop_last() =~= lc@.subrange(0, i as int));
        i = i + 1;
    }
    assert(lc@.subrange(0, lc@.len() as int) =~= lc@);
    acc
}

/// The pairs `(cs[i], base^i)`, built with a running power.
fn weighted_pairs(cs: &[usize], base: Felt) -> (r: Vec<(usize, Felt)>)
    requires
        base.wf(),
    ensures
        r@ == weighted(cs@, base@),
        coeffs_wf(r@),
{
    let mut r: Vec<(usize, Felt)> = Vec::new();
    let mut p = Felt::one();
    let mut i: usize = 0;
    while i < cs.len()
        invariant
            i <= cs@.len(),
            base.wf(),
            p.wf(),
            p@ == fpow(base@, i as nat),
            r@ =~= weighted(cs@.subrange(0, i as int), base@),
            coeffs_wf(r@),
        decreases cs@.len() - i,
    {
        r.push((cs[i], p));
        p = p.mul(base);
        i = i + 1;
        assert(r@ =~= weighted(cs@.subrange(0, i as int), base@));
    }
    assert(cs@.subrange(0, cs@.len() as int) =~= cs@);
    r
}

/// `le_bits` and `le_bytes` share their distinctness argument.
proof fn lemma_weighted_distinct(cs: Seq<usize>, base: int)
    requires
        distinct(cs),
    ensures
        distinct_indices(weighted(cs, base)),
        distinct_indices(unit_weighted(cs)),
{
}

/// A copy of a list of pairs.
fn copy_pairs(v: &Vec<(usize, Felt)>) -> (r: Vec<(usize, Felt)>)
    ensures
        r@ == v@,
{
    let mut r: Vec<(usize, Felt)> = Vec::new();
    let mut i: usize = 0;
    while i < v.len()
        invariant
            i <= v@.len(),
            r@ =~= v@.subrange(0, i as int),
        decreases v@.len() - i,
    {
        r.push(v[i]);
        i = i + 1;
        assert(r@ =~= v@.subrange(0, i as int));
    }
    assert(v@.subrange(0, v@.len() as int) =~= v@);
    r
}

impl Column {
    /// A copy of the combination.
    pub fn duplicate(&self) -> (r: Column)
        ensures
            r.same(self),
    {
        Column {
            linear_combination: copy_pairs(&self.linear_combination),
            next_row_linear_combination: copy_pairs(&self.next_row_linear_combination),
            constant: self.constant,
        }
    }

    /// `c_0 + 2·c_1 + … + 2^n·c_n` over the little-endian bit columns `cs`.
    pub fn le_bits(cs: &[usize]) -> (r: Column)
        requires
            cs@.len() > 0,
            distinct(cs@),
        ensures
            r.wf(),
            r.linear_combination@ == weighted(cs@, 2),
            r.next_row_linear_combination@.len() == 0,
            r.constant@ == 0,
    {
        let two = Felt { value: 2 };
        let v = weighted_pairs(cs, two);
        proof { lemma_weighted_distinct(cs@, 2); }
        Column::linear_combination(v)
    }

    /// `c_0 + 256·c_1 + … + 256^n·c_n` over the little-endian byte columns `cs`.
    pub fn le_bytes(cs: &[usize]) -> (r: Column)
        requires
            cs@.len() > 0,
            distinct(cs@),
        ensures
            r.wf(),
            r.linear_combination@ == weighted(cs@, 256),
            r.next_row_linear_combination@.len() == 0,
            r.constant@ == 0,
    {
        let b = Felt { value: 256 };
        let v = weighted_pairs(cs, b);
        proof { lemma_weighted_distinct(cs@, 256); }
        Column::linear_combination(v)
    }

    /// The sum of the current-row columns `cs`.
    pub fn sum(cs: &[usize]) -> (r: Column)
        requires
            cs@.len() > 0,
            distinct(cs@),
        ensures
            r.wf(),
            r.linear_combination@ == unit_weighted(cs@),
            r.next_row_linear_combination@.len() == 0,
            r.constant@ == 0,
    {
        let mut v: Vec<(usize, Felt)> = Vec::new();
        let mut i: usize = 0;
        while i < cs.len()
            invariant
                i <= cs@.len(),
                v@ =~= unit_weighted(cs@.subrange(0, i as int)),
            decreases cs@.len() - i,
        {
            v.push((cs[i], Felt::one()));
            i = i + 1;
            assert(v@ =~= unit_weighted(cs@.subrange(0, i as int)));
        }
        assert(cs@.subrange(0, cs@.len() as int) =~= cs@);
        proof { lemma_weighted_distinct(cs@, 1); }
        Column::linear_combination(v)
    }

    /// A single column of the current row.
    pub fn single(c: usize) -> (r: Column)
        ensures
            r.wf(),
            r.linear_combination@ == seq![(c, Felt { value: 1 })],
            r.next_row_linear_combination@.len() == 0,
            r.constant@ == 0,
    {
        Column {
            linear_combination: vec![(c, Felt::one())],
            next_row_linear_combination: Vec::new(),
            constant: Felt::zero(),
        }
    }

    /// A single column of the next row.
    pub fn single_next_row(c: usize) -> (r: Column)
        ensures
            r.wf(),
            r.linear_combination@.len() == 0,
            r.next_row_linear_combination@ == seq![(c, Felt { value: 1 })],
            r.constant@ == 0,
    {
        Column {
            linear_combination: Vec::new(),
            next_row_linear_combination: vec![(c, Felt::one())],
            constant: Felt::zero(),
        }
    }

    /// One single current-row column for each index of `cs`, in order.
    pub fn singles(cs: &[usize]) -> (r: Vec<Column>)
        ensures
            r@.len() == cs@.len(),
            forall|i: int| 0 <= i < cs@.len() ==> {
                &&& (#[trigger] r@[i]).wf()
                &&& r@[i].linear_combination@ == seq![(cs@[i], Felt { value: 1 })]
                &&& r@[i].next_row_linear_combination@.len() == 0
                &&& r@[i].constant@ == 0
            },
    {
        let mut r: Vec<Column> = Vec::new();
        let mut i: usize = 0;
        while i < cs.len()
            invariant
                i <= cs@.len(),
                r@.len() == i,
                forall|k: int| 0 <= k < i ==> {
                    &&& (#[trigger] r@[k]).wf()
                    &&& r@[k].linear_combination@ == seq![(cs@[k], Felt { value: 1 })]
                    &&& r@[k].next_row_linear_combination@.len() == 0
                    &&& r@[k].constant@ == 0
                },
            decreases cs@.len() - i,
        {
            r.push(Column::single(cs[i]));
            i = i + 1;
        }
        r
    }

    /// One single next-row column for each index of `cs`, in order.
    pub fn singles_next_row(cs: &[usize]) -> (r: Vec<Column>)
        ensures
            r@.len() == cs@.len(),
            forall|i: int| 0 <= i < cs@.len() ==> {
                &&& (#[trigger] r@[i]).wf()
                &&& r@[i].linear_combination@.len() == 0
                &&& r@[i].next_row_linear_combination@ == seq![(cs@[i], Felt { value: 1 })]
                &&& r@[i].constant@ == 0
            },
    {
        let mut r: Vec<Column> = Vec::new();
        let mut i: usize = 0;
        while i < cs.len()
            invariant
                i <= cs@.len(),
                r@.len() == i,
                forall|k: int| 0 <= k < i ==> {
                    &&& (#[trigger] r@[k]).wf()
                    &&& r@[k].linear_combination@.len() == 0
                    &&& r@[k].next_row_linear_combination@ == seq![(cs@[k], Felt { value: 1 })]
                    &&& r@[k].constant@ == 0
                },
            decreases cs@.len() - i,
        {
            r.push(Column::single_next_row(cs[i]));
            i = i + 1;
        }
        r
    }

    /// The constant combination `constant`.
    pub fn constant(constant: Felt) -> (r: Column)
        requires
            constant.wf(),
        ensures
            r.wf(),
            r.linear_combination@.len() == 0,
            r.next_row_linear_combination@.len() == 0,
            r.constant == constant,
    {
        Column { linear_combination: Vec::new(), next_row_linear_combination: Vec::new(), constant }
    }

    /// The constant combination 0.
    pub fn zero() -> (r: Column)
        ensures
            r.wf(),
            r.linear_combination@.len() == 0,
            r.next_row_linear_combination@.len() == 0,
            r.constant@ == 0,
    {
        Column::constant(Felt::zero())
    }

    /// The constant combination 1.
    pub fn one() -> (r: Column)
        ensures
            r.wf(),
            r.linear_combination@.len() == 0,
            r.next_row_linear_combination@.len() == 0,
            r.constant@ == 1,
    {
        Column::constant(Felt::one())
    }

    /// The combination `Σ coeff · row[idx] + constant` over the current row.
    pub fn linear_combination_with_constant(v: Vec<(usize, Felt)>, constant: Felt) -> (r: Column)
        requires
            v@.len() > 0,
            distinct_indices(v@),
            coeffs_wf(v@),
            constant.wf(),
        ensures
            r.wf(),
            r.linear_combination@ == v@,
            r.next_row_linear_combination@.len() == 0,
            r.constant == constant,
    {
        Column { linear_combination: v, next_row_linear_combination: Vec::new(), constant }
    }

    /// The combination of `v` over the current row and `next_row_v` over the next row,
    /// plus `constant`.
    pub fn linear_combination_and_next_row_with_constant(
        v: Vec<(usize, Felt)>,
        next_row_v: Vec<(usize, Felt)>,
        constant: Felt,
    ) -> (r: Column)
        requires
            v@.len() > 0 || next_row_v@.len() > 0,
            distinct_indices(v@),
            distinct_indices(next_row_v@),
            coeffs_wf(v@),
            coeffs_wf(next_row_v@),
            constant.wf(),
        ensures
            r.wf(),
            r.linear_combination@ == v@,
            r.next_row_linear_combination@ == next_row_v@,
            r.constant == constant,
    {
        Column { linear_combination: v, next_row_linear_combination: next_row_v, constant }
    }

    /// The combination `Σ coeff · row[idx]` over the current row.
    pub fn linear_combination(v: Vec<(usize, Felt)>) -> (r: Column)
        requires
            v@.len() > 0,
            distinct_indices(v@),
            coeffs_wf(v@),
        ensures
            r.wf(),
            r.linear_combination@ == v@,
            r.next_row_linear_combination@.len() == 0,
            r.constant@ == 0,
    {
        Column::linear_combination_with_constant(v, Felt::zero())
    }

    /// The value of the combination on the current row `v`; the next-row terms are not read.
    pub fn eval(&self, v: &[Felt]) -> (r: Felt)
        requires
            self.wf(),
            indices_below(self.linear_combination@, v@.len() as int),
            row_wf(v@),
        ensures
            r.wf(),
            r@ == self.value_cur(v@),
    {
        eval_lc(&self.linear_combination, v).add(self.constant)
    }

    /// The value of the combination on the current row `v` and the next row `next_v`.
    pub fn eval_with_next(&self, v: &[Felt], next_v: &[Felt]) -> (r: Felt)
        requires
            self.wf(),
            indices_below(self.linear_combination@, v@.len() as int),
            indices_below(self.next_row_linear_combination@, next_v@.len() as int),
            row_wf(v@),
            row_wf(next_v@),
        ensures
            r.wf(),
            r@ == self.value(v@, next_v@),
    {
        let a = eval_lc(&self.linear_combination, v);
        let b = eval_lc(&self.next_row_linear_combination, next_v);
        a.add(b).add(self.constant)
    }

    /// The value at row `row` of a column-major table; after the last row the next row
    /// reads as zeros.
    pub fn eval_table(&self, table: &[Vec<Felt>], row: usize) -> (r: Felt)
        requires
            self.wf(),
            self.fits(table@.len() as int),
            table_wf(table@),
            row < height(table@),
        ensures
            r.wf(),
            r@ == self.table_value(table@, row as int),
    {
        let a = eval_lc_table(&self.linear_combination, table, row);
        let h = table[0].len();
        let b = if self.next_row_linear_combination.len() > 0 && row < h - 1 {
            eval_lc_table(&self.next_row_linear_combination, table, row + 1)
        } else {
            proof {
                if self.next_row_linear_combination@.len() > 0 {
                    lemma_lc_eval_zero_row(self.next_row_linear_combination@, table@.len() as int);
                }
            }
            Felt::zero()
        };
        a.add(b).add(self.constant)
    }
}

/// Copies of a list of combinations.
pub fn duplicate_columns(cols: &[Column]) -> (r: Vec<Column>)
    ensures
        r@.len() == cols@.len(),
        forall|k: int| 0 <= k < cols@.len() ==> (#[trigger] r@[k]).same(&cols@[k]),
{
    let mut r: Vec<Column> = Vec::new();
    let mut i: usize = 0;
    while i < cols.len()
        invariant
            i <= cols@.len(),
            r@.len() == i,
            forall|k: int| 0 <= k < i ==> (#[trigger] r@[k]).same(&cols@[k]),
        decreases cols@.len() - i,
    {
        r.push(cols[i].duplicate());
        i = i + 1;
    }
    r
}

/// A copy of an optional combination.
pub fn duplicate_filter(f: &Option<Column>) -> (r: Option<Column>)
    ensures
        same_filter(r, *f),
{
    match f {
        Some(c) => Some(c.duplicate()),
        None => None,
    }
}

/// Both filters are absent, or both are present and the same combination.
pub open spec fn same_filter(a: Option<Column>, b: Option<Column>) -> bool {
    match (a, b) {
        (Some(x), Some(y)) => x.same(&y),
        (None, None) => true,
        _ => false,
    }
}

} // verus!
