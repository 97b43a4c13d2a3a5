//! The two constraints that tie a committed Z sequence to the rows it multiplies:
//! a boundary constraint on the last row and a transition constraint between rows.

use vstd::prelude::*;
use crate::field::{Felt, fadd, fmul, fsub};
use crate::column::{Column, row_wf};
use crate::challenge::{GrandProductChallenge, combine_spec};
use crate::challenge::GrandProductChallengeSet;
use crate::table::{CrossTableLookup, Table, NUM_TABLES, uses_total, occurrences};
use crate::cross_check::{lookup_base, looking_pos, looked_pos};
use crate::error::CtlError;

verus! {

/// What the verifier knows of one Z sequence: its openings at a point and at the point's
/// successor, the challenge, and the combinations that fed it.
pub struct CtlCheckVars<'a, V, C> {
    pub local_z: V,
    pub next_z: V,
    pub challenges: GrandProductChallenge<C>,
    pub columns: &'a [Column],
    pub filter_column: &'a Option<Column>,
}

/// Every combination is well formed and reads only columns below `width`, on both rows.
pub open spec fn vars_fit(cols: Seq<Column>, filter: Option<Column>, width: int) -> bool {
    &&& forall|k: int| 0 <= k < cols.len() ==> (#[trigger] cols[k]).wf() && cols[k].fits(width)
    &&& filter matches Some(f) ==> f.wf() && f.fits(width)
}

impl<'a> CtlCheckVars<'a, Felt, Felt> {
    pub open spec fn wf(&self, width: int) -> bool {
        &&& self.local_z.wf()
        &&& self.next_z.wf()
        &&& self.challenges.wf()
        &&& vars_fit(self.columns@, *self.filter_column, width)
    }
}

/// The payload values of `cols` on the rows `cur` and `next`.
pub open spec fn frame_payload(cols: Seq<Column>, cur: Seq<Felt>, next: Seq<Felt>) -> Seq<Felt> {
    Seq::new(cols.len(), |k: int| Felt { value: cols[k].value(cur, next) as u64 })
}

/// The filter's value on the rows `cur` and `next`; 1 without a filter.
pub open spec fn frame_filter(filter: Option<Column>, cur: Seq<Felt>, next: Seq<Felt>) -> int {
    match filter {
        Some(f) => f.value(cur, next),
        None => 1,
    }
}

/// `filter · combined + 1 − filter`.
pub open spec fn select_expr(filter: int, combined: int) -> int {
    fsub(fadd(fmul(filter, combined), 1), filter)
}

/// The selected value of the frame: the combined payload where the filter is 1, 1 where it is 0.
pub open spec fn frame_select(
    cols: Seq<Column>,
    filter: Option<Column>,
    ch: GrandProductChallenge<Felt>,
    cur: Seq<Felt>,
    next: Seq<Felt>,
) -> int {
    select_expr(frame_filter(filter, cur, next), combine_spec(ch, frame_payload(cols, cur, next)))
}

/// The boundary residual `local_z − select`, which must vanish on the last row.
pub open spec fn last_row_residual(local_z: int, select: int) -> int {
    fsub(local_z, select)
}

/// The transition residual `next_z · select − local_z`, which must vanish on every other row.
pub open spec fn transition_residual(local_z: int, next_z: int, select: int) -> int {
    fsub(fmul(next_z, select), local_z)
}

/// The pair of residuals of one Z sequence on the frame `cur`, `next`.
pub open spec fn residuals(v: CtlCheckVars<Felt, Felt>, cur: Seq<Felt>, next: Seq<Felt>) -> (int, int) {
    let s = frame_select(v.columns@, *v.filter_column, v.challenges, cur, next);
    (last_row_residual(v.local_z@, s), transition_residual(v.local_z@, v.next_z@, s))
}

fn frame_values(cols: &[Column], local_values: &[Felt], next_values: &[Felt]) -> (r: Vec<Felt>)
    requires
        forall|k: int| 0 <= k < cols@.len() ==> (#[trigger] cols@[k]).wf() && cols@[k].fits(local_values@.len() as int),
        local_values@.len() == next_values@.len(),
        row_wf(local_values@),
        row_wf(next_values@),
    ensures
        r@ == frame_payload(cols@, local_values@, next_values@),
        row_wf(r@),
{
    let mut r: Vec<Felt> = Vec::new();
    let mut k: usize = 0;
    while k < cols.len()
        invariant
            k <= cols@.len(),
            forall|m: int| 0 <= m < cols@.len() ==> (#[trigger] cols@[m]).wf() && cols@[m].fits(local_values@.len() as int),
            local_values@.len() == next_values@.len(),
            row_wf(local_values@),
            row_wf(next_values@),
            r@ =~= frame_payload(cols@.subrange(0, k as int), local_values@, next_values@),
            row_wf(r@),
        decreases cols@.len() - k,
    {
        let x = cols[k].eval_with_next(local_values, next_values);
        r.push(x);
        k = k + 1;
        assert(r@ =~= frame_payload(cols@.subrange(0, k as int), local_values@, next_values@));
    }
    assert(cols@.subrange(0, cols@.len() as int) =~= cols@);
    r
}

/// The residuals `(last row, transition)` of each Z sequence of a table on the frame of
/// rows `local_values`, `next_values`: the boundary one must vanish on the last row,
/// the transition one on every other row.
pub fn eval_cross_table_lookup_checks(
    local_values: &[Felt],
    next_values: &[Felt],
    ctl_vars: &[CtlCheckVars<Felt, Felt>],
) -> (r: Vec<(Felt, Felt)>)
    requires
        local_values@.len() == next_values@.len(),
        row_wf(local_values@),
        row_wf(next_values@),
        forall|i: int| 0 <= i < ctl_vars@.len() ==> (#[trigger] ctl_vars@[i]).wf(local_values@.len() as int),
    ensures
        r@.len() == ctl_vars@.len(),
        forall|i: int| 0 <= i < ctl_vars@.len() ==> {
            &&& (#[trigger] r@[i]).0.wf()
            &&& r@[i].1.wf()
            &&& (r@[i].0@, r@[i].1@) == residuals(ctl_vars@[i], local_values@, next_values@)
        },
{
    let mut r: Vec<(Felt, Felt)> = Vec::new();
    let mut i: usize = 0;
    while i < ctl_vars.len()
        invariant
            i <= ctl_vars@.len(),
            local_values@.len() == next_values@.len(),
            row_wf(local_values@),
            row_wf(next_values@),
            forall|m: int| 0 <= m < ctl_vars@.len() ==> (#[trigger] ctl_vars@[m]).wf(local_values@.len() as int),
            r@.len() == i,
            forall|m: int| 0 <= m < i ==> {
                &&& (#[trigger] r@[m]).0.wf()
                &&& r@[m].1.wf()
                &&& (r@[m].0@, r@[m].1@) == residuals(ctl_vars@[m], local_values@, next_values@)
            },
        decreases ctl_vars@.len() - i,
    {
        let v = &ctl_vars[i];
        let evals = frame_values(v.columns, local_values, next_values);
        let combined = v.challenges.combine(&evals);
        let local_filter = match v.filter_column {
            Some(column) => column.eval_with_next(local_values, next_values),
            None => Felt::one(),
        };
        let select = local_filter.mul(combined).add(Felt::one()).sub(local_filter);
        let last = v.local_z.sub(select);
        let transition = v.next_z.mul(select).sub(v.local_z);
        r.push((last, transition));
        i = i + 1;
    }
    r
}

/// `v` is what the verifier knows of the Z sequence at position `p` of the table's
/// openings, past the `skip` openings that belong to other arguments.
pub open spec fn vars_at<V, C>(
    v: CtlCheckVars<V, C>,
    aux: Seq<V>,
    aux_next: Seq<V>,
    skip: int,
    p: int,
    ch: GrandProductChallenge<C>,
    tw: crate::table::TableWithColumns,
) -> bool {
    &&& v.local_z == aux[skip + p]
    &&& v.next_z == aux_next[skip + p]
    &&& v.challenges == ch
    &&& v.columns@ == tw.columns@
    &&& *v.filter_column == tw.filter_column
}

/// The openings of table `t`, past `skip`, are one per challenge for each place of `t`
/// in the lookups, at both points.
pub open spec fn openings_count_ok<V>(
    aux: Seq<V>,
    aux_next: Seq<V>,
    skip: int,
    ctls: Seq<CrossTableLookup>,
    nc: int,
    t: Table,
) -> bool {
    &&& aux.len() == aux_next.len()
    &&& skip <= aux.len()
    &&& aux.len() - skip == nc * uses_total(ctls, t)
}

/// The entries of `out` sit at the positions of their lookups, challenges and tables.
pub open spec fn check_vars_ok<V, C>(
    aux: Seq<V>,
    aux_next: Seq<V>,
    skip: int,
    ctls: Seq<CrossTableLookup>,
    chs: Seq<GrandProductChallenge<C>>,
    t: Table,
    out: Seq<CtlCheckVars<V, C>>,
) -> bool {
    let nc = chs.len() as int;
    &&& out.len() == nc * uses_total(ctls, t)
    &&& forall|k: int, c: int, j: int|
        0 <= k < ctls.len() && 0 <= c < nc && 0 <= j < ctls[k].looking_tables@.len()
            && ctls[k].looking_tables@[j].table == t ==> {
            let p = #[trigger] looking_pos(ctls, k, c, j, nc);
            &&& 0 <= p < out.len()
            &&& vars_at(out[p], aux, aux_next, skip, p, chs[c], ctls[k].looking_tables@[j])
        }
    &&& forall|k: int, c: int|
        0 <= k < ctls.len() && 0 <= c < nc && ctls[k].looked_table.table == t ==> {
            let p = #[trigger] looked_pos(ctls, k, c, nc);
            &&& 0 <= p < out.len()
            &&& vars_at(out[p], aux, aux_next, skip, p, chs[c], ctls[k].looked_table)
        }
}

impl<'a, V: Copy, C: Copy> CtlCheckVars<'a, V, C> {
    /// Reads the Z openings of table `table` from its auxiliary openings at a point
    /// (`auxiliary_polys`) and its successor (`auxiliary_polys_next`), past the first
    /// `num_lookup_columns`, in the order lookup, challenge, looking tables, looked table.
    /// Fails unless the openings are exactly as many as the lookups need.
    pub fn from_proof(
        table: Table,
        auxiliary_polys: &[V],
        auxiliary_polys_next: &[V],
        num_lookup_columns: usize,
        cross_table_lookups: &'a [CrossTableLookup],
        ctl_challenges: &GrandProductChallengeSet<C>,
    ) -> (r: Result<Vec<CtlCheckVars<'a, V, C>>, CtlError>)
        requires
            uses_total(cross_table_lookups@, table) * ctl_challenges.challenges@.len() <= usize::MAX,
        ensures
            openings_count_ok(
                auxiliary_polys@,
                auxiliary_polys_next@,
                num_lookup_columns as int,
                cross_table_lookups@,
                ctl_challenges.challenges@.len() as int,
                table,
            ) <==> r is Ok,
            r matches Err(e) ==> e == (CtlError::OpeningCount { table }),
            r matches Ok(v) ==> check_vars_ok(
                auxiliary_polys@,
                auxiliary_polys_next@,
                num_lookup_columns as int,
                cross_table_lookups@,
                ctl_challenges.challenges@,
                table,
                v@,
            ),
    {
        let ghost ctls = cross_table_lookups@;
        let ghost chs = ctl_challenges.challenges@;
        let ghost aux = auxiliary_polys@;
        let ghost auxn = auxiliary_polys_next@;
        let ghost skip = num_lookup_columns as int;
        let nch = ctl_challenges.challenges.len();
        let ghost nc = nch as int;
        let expected = CrossTableLookup::num_ctl_zs(cross_table_lookups, table, nch);
        assert(uses_total(ctls, table) * nc == nc * uses_total(ctls, table)) by (nonlinear_arith);
        if auxiliary_polys.len() != auxiliary_polys_next.len() || auxiliary_polys.len() < num_lookup_columns
            || auxiliary_polys.len() - num_lookup_columns != expected {
            return Err(CtlError::OpeningCount { table });
        }
        let t = table;
        let mut out: Vec<CtlCheckVars<'a, V, C>> = Vec::new();
        assert(ctls.subrange(0, 0) =~= Seq::<CrossTableLookup>::empty());
        assert(nc * 0 == 0);
        let mut k: usize = 0;
        while k < cross_table_lookups.len()
            invariant
                k <= ctls.len(),
                ctls == cross_table_lookups@,
                chs == ctl_challenges.challenges@,
                nc == nch,
                nc == chs.len(),
                aux == auxiliary_polys@,
                auxn == auxiliary_polys_next@,
                skip == num_lookup_columns,
                openings_count_ok(aux, auxn, skip, ctls, nc, t),
                out@.len() == lookup_base(ctls, k as int, t, nc),
                forall|kk: int, cc: int, jj: int|
                    0 <= kk < ctls.len() && 0 <= cc < nc && 0 <= jj < ctls[kk].looking_tables@.len()
                        && ctls[kk].looking_tables@[jj].table == t && kk < k ==> {
                        let p = #[trigger] looking_pos(ctls, kk, cc, jj, nc);
                        &&& 0 <= p < out@.len()
                        &&& vars_at(out@[p], aux, auxn, skip, p, chs[cc], ctls[kk].looking_tables@[jj])
                    },
                forall|kk: int, cc: int|
                    0 <= kk < ctls.len() && 0 <= cc < nc && ctls[kk].looked_table.table == t && kk < k ==> {
                        let p = #[trigger] looked_pos(ctls, kk, cc, nc);
                        &&& 0 <= p < out@.len()
                        &&& vars_at(out@[p], aux, auxn, skip, p, chs[cc], ctls[kk].looked_table)
                    },
            decreases ctls.len() - k,
        {
            let ctl = &cross_table_lookups[k];
            let ghost looking = ctl.looking_tables@;
            proof {
                crate::cross_check::lemma_base_step(ctls, k as int, t, nc);
            }
            let mut c: usize = 0;
            while c < nch
                invariant
                    k < ctls.len(),
                    c <= nch,
                    *ctl == ctls[k as int],
                    looking == ctl.looking_tables@,
                    ctls == cross_table_lookups@,
                    chs == ctl_challenges.challenges@,
                    nc == nch,
                    nc == chs.len(),
                    aux == auxiliary_polys@,
                    auxn == auxiliary_polys_next@,
                    skip == num_lookup_columns,
                    openings_count_ok(aux, auxn, skip, ctls, nc, t),
                    lookup_base(ctls, k + 1, t, nc) == lookup_base(ctls, k as int, t, nc) + nc * ctl.uses(t),
                    lookup_base(ctls, k + 1, t, nc) <= nc * uses_total(ctls, t),
                    out@.len() == lookup_base(ctls, k as int, t, nc) + c * ctl.uses(t),
                    forall|kk: int, cc: int, jj: int|
                        0 <= kk < ctls.len() && 0 <= cc < nc && 0 <= jj < ctls[kk].looking_tables@.len()
                            && ctls[kk].looking_tables@[jj].table == t && (kk < k || (kk == k && cc < c)) ==> {
                            let p = #[trigger] looking_pos(ctls, kk, cc, jj, nc);
                            &&& 0 <= p < out@.len()
                            &&& vars_at(out@[p], aux, auxn, skip, p, chs[cc], ctls[kk].looking_tables@[jj])
                        },
                    forall|kk: int, cc: int|
                        0 <= kk < ctls.len() && 0 <= cc < nc && ctls[kk].looked_table.table == t && (kk < k || (kk == k
                            && cc < c)) ==> {
                            let p = #[trigger] looked_pos(ctls, kk, cc, nc);
                            &&& 0 <= p < out@.len()
                            &&& vars_at(out@[p], aux, auxn, skip, p, chs[cc], ctls[kk].looked_table)
                        },
                decreases nch - c,
            {
                let ch = ctl_challenges.challenges[c];
                let mut j: usize = 0;
                while j < ctl.looking_tables.len()
                    invariant
                        k < ctls.len(),
                        c < nch,
                        j <= looking.len(),
                        *ctl == ctls[k as int],
                        looking == ctl.looking_tables@,
                        ctls == cross_table_lookups@,
                        chs == ctl_challenges.challenges@,
                        ch == chs[c as int],
                        nc == nch,
                        nc == chs.len(),
                        aux == auxiliary_polys@,
                        auxn == auxiliary_polys_next@,
                        skip == num_lookup_columns,
                        openings_count_ok(aux, auxn, skip, ctls, nc, t),
                        lookup_base(ctls, k + 1, t, nc) == lookup_base(ctls, k as int, t, nc) + nc * ctl.uses(t),
                        lookup_base(ctls, k + 1, t, nc) <= nc * uses_total(ctls, t),
                        out@.len() == lookup_base(ctls, k as int, t, nc) + c * ctl.uses(t) + occurrences(
                            looking.subrange(0, j as int),
                            t,
                        ),
                        forall|kk: int, cc: int, jj: int|
                            0 <= kk < ctls.len() && 0 <= cc < nc && 0 <= jj < ctls[kk].looking_tables@.len()
                                && ctls[kk].looking_tables@[jj].table == t && (kk < k || (kk == k && cc < c) || (kk
                                == k && cc == c && jj < j)) ==> {
                                let p = #[trigger] looking_pos(ctls, kk, cc, jj, nc);
                                &&& 0 <= p < out@.len()
                                &&& vars_at(out@[p], aux, auxn, skip, p, chs[cc], ctls[kk].looking_tables@[jj])
                            },
                        forall|kk: int, cc: int|
                            0 <= kk < ctls.len() && 0 <= cc < nc && ctls[kk].looked_table.table == t && (kk < k || (
                            kk == k && cc < c)) ==> {
                                let p = #[trigger] looked_pos(ctls, kk, cc, nc);
                                &&& 0 <= p < out@.len()
                                &&& vars_at(out@[p], aux, auxn, skip, p, chs[cc], ctls[kk].looked_table)
                            },
                    decreases looking.len() - j,
                {
                    assert(looking.subrange(0, j + 1).drop_last() =~= looking.subrange(0, j as int));
                    let tw = &ctl.looking_tables[j];
                    if tw.table == t {
                        proof {
                            crate::table::lemma_occurrences_prefix(looking, t, j + 1);
                            crate::cross_check::lemma_round_bound(
                                lookup_base(ctls, k as int, t, nc),
                                c as int,
                                ctl.uses(t) as int,
                                nc,
                            );
                        }
                        let p = out.len();
                        assert(occurrences(looking.subrange(0, j + 1), t) <= occurrences(looking, t));
                        assert(p + 1 <= lookup_base(ctls, k as int, t, nc) + (c + 1) * ctl.uses(t));
                        assert(lookup_base(ctls, k as int, t, nc) + (c + 1) * ctl.uses(t) <= lookup_base(ctls, k + 1, t, nc));
                        let n = auxiliary_polys.len();
                        assert(num_lookup_columns + p < n);
                        let v = CtlCheckVars {
                            local_z: auxiliary_polys[num_lookup_columns + p],
                            next_z: auxiliary_polys_next[num_lookup_columns + p],
                            challenges: ch,
                            columns: tw.columns.as_slice(),
                            filter_column: &tw.filter_column,
                        };
                        out.push(v);
                        assert(looking_pos(ctls, k as int, c as int, j as int, nc) == p);
                    }
                    j = j + 1;
                }
                assert(looking.subrange(0, looking.len() as int) =~= looking);
                let tw = &ctl.looked_table;
                if tw.table == t {
                    proof {
                        crate::cross_check::lemma_round_bound(
                            lookup_base(ctls, k as int, t, nc),
                            c as int,
                            ctl.uses(t) as int,
                            nc,
                        );
                    }
                    let p = out.len();
                    assert(p + 1 <= lookup_base(ctls, k as int, t, nc) + (c + 1) * ctl.uses(t));
                    assert(lookup_base(ctls, k as int, t, nc) + (c + 1) * ctl.uses(t) <= lookup_base(ctls, k + 1, t, nc));
                    let n = auxiliary_polys.len();
                    assert(num_lookup_columns + p < n);
                    let v = CtlCheckVars {
                        local_z: auxiliary_polys[num_lookup_columns + p],
                        next_z: auxiliary_polys_next[num_lookup_columns + p],
                        challenges: ch,
                        columns: tw.columns.as_slice(),
                        filter_column: &tw.filter_column,
                    };
                    out.push(v);
                    assert(looked_pos(ctls, k as int, c as int, nc) == p);
                }
                assert((c + 1) * ctl.uses(t) == c * ctl.uses(t) + ctl.uses(t)) by (nonlinear_arith);
                c = c + 1;
            }
            k = k + 1;
        }
        assert(ctls.subrange(0, ctls.len() as int) =~= ctls);
        Ok(out)
    }
}

impl<'a, V: Copy, C: Copy> CtlCheckVars<'a, V, C> {
    /// `from_proof` for every table, in proof-layout order: `auxiliary_polys[t]` and
    /// `auxiliary_polys_next[t]` are table `t`'s openings, of which the first
    /// `num_lookup_columns[t]` belong to other arguments.
    pub fn from_proofs(
        auxiliary_polys: &Vec<Vec<V>>,
        auxiliary_polys_next: &Vec<Vec<V>>,
        cross_table_lookups: &'a [CrossTableLookup],
        ctl_challenges: &GrandProductChallengeSet<C>,
        num_lookup_columns: &Vec<usize>,
    ) -> (r: Result<Vec<Vec<CtlCheckVars<'a, V, C>>>, CtlError>)
        requires
            auxiliary_polys@.len() == NUM_TABLES,
            auxiliary_polys_next@.len() == NUM_TABLES,
            num_lookup_columns@.len() == NUM_TABLES,
            forall|t: int|
                0 <= t < NUM_TABLES ==> uses_total(cross_table_lookups@, #[trigger] Table::at(t))
                    * ctl_challenges.challenges@.len() <= usize::MAX,
        ensures
            r is Ok <==> forall|t: int| 0 <= t < NUM_TABLES ==> openings_count_ok(
                (#[trigger] auxiliary_polys@[t])@,
                auxiliary_polys_next@[t]@,
                num_lookup_columns@[t] as int,
                cross_table_lookups@,
                ctl_challenges.challenges@.len() as int,
                Table::at(t),
            ),
            r matches Ok(v) ==> v@.len() == NUM_TABLES && forall|t: int| 0 <= t < NUM_TABLES ==> check_vars_ok(
                auxiliary_polys@[t]@,
                auxiliary_polys_next@[t]@,
                num_lookup_columns@[t] as int,
                cross_table_lookups@,
                ctl_challenges.challenges@,
                Table::at(t),
                (#[trigger] v@[t])@,
            ),
    {
        let mut v: Vec<Vec<CtlCheckVars<'a, V, C>>> = Vec::new();
        let mut t: usize = 0;
        while t < NUM_TABLES
            invariant
                t <= NUM_TABLES,
                auxiliary_polys@.len() == NUM_TABLES,
                auxiliary_polys_next@.len() == NUM_TABLES,
                num_lookup_columns@.len() == NUM_TABLES,
                forall|i: int|
                    0 <= i < NUM_TABLES ==> uses_total(cross_table_lookups@, #[trigger] Table::at(i))
                        * ctl_challenges.challenges@.len() <= usize::MAX,
                v@.len() == t,
                forall|i: int| 0 <= i < t ==> openings_count_ok(
                    (#[trigger] auxiliary_polys@[i])@,
                    auxiliary_polys_next@[i]@,
                    num_lookup_columns@[i] as int,
                    cross_table_lookups@,
                    ctl_challenges.challenges@.len() as int,
                    Table::at(i),
                ),
                forall|i: int| 0 <= i < t ==> check_vars_ok(
                    auxiliary_polys@[i]@,
                    auxiliary_polys_next@[i]@,
                    num_lookup_columns@[i] as int,
                    cross_table_lookups@,
                    ctl_challenges.challenges@,
                    Table::at(i),
                    (#[trigger] v@[i])@,
                ),
            decreases NUM_TABLES - t,
        {
            let table = Table::from_index(t);
            let vars = CtlCheckVars::from_proof(
                table,
                auxiliary_polys[t].as_slice(),
                auxiliary_polys_next[t].as_slice(),
                num_lookup_columns[t],
                cross_table_lookups,
                ctl_challenges,
            );
            match vars {
                Ok(vars) => {
                    v.push(vars);
                },
                Err(e) => {
                    return Err(e);
                },
            }
            t = t + 1;
        }
        Ok(v)
    }
}

} // verus!
