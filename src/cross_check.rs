//! The verifier's side: the first-row Z openings of the looking tables, times the extra
//! looking products, must equal the looked table's opening, lookup by lookup and challenge
//! by challenge.

use vstd::prelude::*;
use crate::field::{Felt, fmul};
use crate::column::row_wf;
use crate::table::{CrossTableLookup, Table, NUM_TABLES, uses_total, occurrences,
    lemma_uses_total_prefix, lemma_occurrences_prefix};
use crate::error::CtlError;

verus! {

/// Where the openings of table `t` for lookup `k` start: past `nc` openings for each
/// place that `t` takes in the earlier lookups.
pub open spec fn lookup_base(ctls: Seq<CrossTableLookup>, k: int, t: Table, nc: int) -> int {
    nc * uses_total(ctls.subrange(0, k), t)
}

/// The position, in its table's openings, of looking table `j` of lookup `k` for challenge `c`.
pub open spec fn looking_pos(ctls: Seq<CrossTableLookup>, k: int, c: int, j: int, nc: int) -> int {
    let ctl = ctls[k];
    let t = ctl.looking_tables@[j].table;
    lookup_base(ctls, k, t, nc) + c * ctl.uses(t) + occurrences(ctl.looking_tables@.subrange(0, j), t)
}

/// The position, in its table's openings, of the looked table of lookup `k` for challenge `c`.
pub open spec fn looked_pos(ctls: Seq<CrossTableLookup>, k: int, c: int, nc: int) -> int {
    let ctl = ctls[k];
    let t = ctl.looked_table.table;
    lookup_base(ctls, k, t, nc) + c * ctl.uses(t) + occurrences(ctl.looking_tables@, t)
}

/// The product of the openings of the first `j` looking tables of lookup `k`, challenge `c`.
pub open spec fn looking_product(
    ctls: Seq<CrossTableLookup>,
    zs: Seq<Vec<Felt>>,
    k: int,
    c: int,
    j: int,
    nc: int,
) -> int
    decreases j,
{
    if j <= 0 {
        1
    } else {
        let t = ctls[k].looking_tables@[j - 1].table;
        fmul(looking_product(ctls, zs, k, c, j - 1, nc), zs[t.idx()]@[looking_pos(ctls, k, c, j - 1, nc)]@)
    }
}

/// Lookup `k` holds for challenge `c`: the looking openings times the extra product equal
/// the looked opening.
pub open spec fn lookup_holds(
    ctls: Seq<CrossTableLookup>,
    zs: Seq<Vec<Felt>>,
    extra: Seq<Vec<Felt>>,
    k: int,
    c: int,
    nc: int,
) -> bool {
    let ctl = ctls[k];
    let t = ctl.looked_table.table;
    fmul(looking_product(ctls, zs, k, c, ctl.looking_tables@.len() as int, nc), extra[t.idx()]@[c]@)
        == zs[t.idx()]@[looked_pos(ctls, k, c, nc)]@
}

/// Table `t` has one opening per challenge for each place it takes in the lookups.
pub open spec fn count_ok(ctls: Seq<CrossTableLookup>, zs: Seq<Vec<Felt>>, nc: int, t: int) -> bool {
    zs[t]@.len() == nc * uses_total(ctls, Table::at(t))
}

pub open spec fn counts_ok(ctls: Seq<CrossTableLookup>, zs: Seq<Vec<Felt>>, nc: int) -> bool {
    forall|t: int| 0 <= t < NUM_TABLES ==> count_ok(ctls, zs, nc, t)
}

/// Every lookup holds for every challenge.
pub open spec fn all_hold(
    ctls: Seq<CrossTableLookup>,
    zs: Seq<Vec<Felt>>,
    extra: Seq<Vec<Felt>>,
    nc: int,
) -> bool {
    forall|k: int, c: int| 0 <= k < ctls.len() && 0 <= c < nc ==> lookup_holds(ctls, zs, extra, k, c, nc)
}

pub proof fn lemma_base_step(ctls: Seq<CrossTableLookup>, k: int, t: Table, nc: int)
    requires
        0 <= k < ctls.len(),
        nc >= 0,
    ensures
        lookup_base(ctls, k + 1, t, nc) == lookup_base(ctls, k, t, nc) + nc * ctls[k].uses(t),
        lookup_base(ctls, k + 1, t, nc) <= nc * uses_total(ctls, t),
{
    assert(ctls.subrange(0, k + 1).drop_last() =~= ctls.subrange(0, k));
    lemma_uses_total_prefix(ctls, t, k + 1);
    let a = uses_total(ctls.subrange(0, k), t);
    let b = uses_total(ctls.subrange(0, k + 1), t);
    let u = ctls[k].uses(t) as int;
    assert(nc * b == nc * a + nc * u) by (nonlinear_arith)
        requires
            b == a + u,
    ;
    assert(nc * b <= nc * uses_total(ctls, t)) by (nonlinear_arith)
        requires
            b <= uses_total(ctls, t),
            nc >= 0,
    ;
}

pub proof fn lemma_round_bound(base: int, c: int, u: int, nc: int)
    requires
        0 <= c < nc,
        u >= 0,
    ensures
        base + c * u + u == base + (c + 1) * u,
        base + (c + 1) * u <= base + nc * u,
{
    assert((c + 1) * u == c * u + u) by (nonlinear_arith);
    assert((c + 1) * u <= nc * u) by (nonlinear_arith)
        requires
            c + 1 <= nc,
            u >= 0,
    ;
}

/// Checks every lookup against the first-row Z openings `ctl_zs_first` (one list per
/// table, in the order the prover made them: lookup, then challenge, then looking tables
/// and the looked table) and the extra looking products (one list per looked table, one
/// term per challenge).
pub fn verify_cross_table_lookups(
    cross_table_lookups: &[CrossTableLookup],
    ctl_zs_first: &Vec<Vec<Felt>>,
    ctl_extra_looking_products: &Vec<Vec<Felt>>,
    num_challenges: usize,
) -> (r: Result<(), CtlError>)
    requires
        ctl_zs_first@.len() == NUM_TABLES,
        ctl_extra_looking_products@.len() == NUM_TABLES,
        forall|t: int| 0 <= t < NUM_TABLES ==> row_wf((#[trigger] ctl_zs_first@[t])@),
        forall|t: int| 0 <= t < NUM_TABLES ==> row_wf((#[trigger] ctl_extra_looking_products@[t])@),
        forall|k: int|
            0 <= k < cross_table_lookups@.len() ==> ctl_extra_looking_products@[(#[trigger] cross_table_lookups@[k]).looked_table.table.idx()]@.len()
                >= num_challenges,
        forall|t: int|
            0 <= t < NUM_TABLES ==> uses_total(cross_table_lookups@, #[trigger] Table::at(t)) * num_challenges
                <= usize::MAX,
    ensures
        !counts_ok(cross_table_lookups@, ctl_zs_first@, num_challenges as int) <==> r matches Err(
            CtlError::OpeningCount { .. },
        ),
        r matches Err(CtlError::OpeningCount { table }) ==> !count_ok(
            cross_table_lookups@,
            ctl_zs_first@,
            num_challenges as int,
            table.idx(),
        ),
        counts_ok(cross_table_lookups@, ctl_zs_first@, num_challenges as int) ==> (r is Ok <==> all_hold(
            cross_table_lookups@,
            ctl_zs_first@,
            ctl_extra_looking_products@,
            num_challenges as int,
        )),
        r matches Err(CtlError::LookupMismatch { index }) ==> {
            &&& index < cross_table_lookups@.len()
            &&& exists|c: int|
                0 <= c < num_challenges && !lookup_holds(
                    cross_table_lookups@,
                    ctl_zs_first@,
                    ctl_extra_looking_products@,
                    index as int,
                    c,
                    num_challenges as int,
                )
            &&& forall|k: int, c: int|
                0 <= k < index && 0 <= c < num_challenges ==> lookup_holds(
                    cross_table_lookups@,
                    ctl_zs_first@,
                    ctl_extra_looking_products@,
                    k,
                    c,
                    num_challenges as int,
                )
        },
        !(r matches Err(CtlError::NonBinaryFilter { .. })),
{
    let ghost ctls = cross_table_lookups@;
    let ghost zs = ctl_zs_first@;
    let ghost extra = ctl_extra_looking_products@;
    let ghost nc = num_challenges as int;
    let mut t: usize = 0;
    while t < NUM_TABLES
        invariant
            t <= NUM_TABLES,
            ctls == cross_table_lookups@,
            zs == ctl_zs_first@,
            zs.len() == NUM_TABLES,
            nc == num_challenges,
            forall|i: int| 0 <= i < NUM_TABLES ==> uses_total(ctls, #[trigger] Table::at(i)) * num_challenges
                <= usize::MAX,
            forall|i: int| 0 <= i < t ==> count_ok(ctls, zs, nc, i),
        decreases NUM_TABLES - t,
    {
        let table = Table::from_index(t);
        let expected = CrossTableLookup::num_ctl_zs(cross_table_lookups, table, num_challenges);
        assert(uses_total(ctls, table) * nc == nc * uses_total(ctls, table)) by (nonlinear_arith);
        if ctl_zs_first[t].len() != expected {
            assert(!count_ok(ctls, zs, nc, t as int));
            return Err(CtlError::OpeningCount { table });
        }
        t = t + 1;
    }
    let mut cursor: Vec<usize> = vec![0usize, 0, 0, 0, 0, 0, 0];
    assert(forall|i: int| 0 <= i < NUM_TABLES ==> cursor@[i] == lookup_base(ctls, 0, Table::at(i), nc)) by {
        assert forall|i: int| 0 <= i < NUM_TABLES implies cursor@[i] == lookup_base(ctls, 0, Table::at(i), nc) by {
            assert(ctls.subrange(0, 0) =~= Seq::<CrossTableLookup>::empty());
            assert(uses_total(ctls.subrange(0, 0), Table::at(i)) == 0);
            assert(nc * 0 == 0);
        }
    }
    let mut k: usize = 0;
    while k < cross_table_lookups.len()
        invariant
            k <= ctls.len(),
            ctls == cross_table_lookups@,
            zs == ctl_zs_first@,
            extra == ctl_extra_looking_products@,
            zs.len() == NUM_TABLES,
            extra.len() == NUM_TABLES,
            nc == num_challenges,
            counts_ok(ctls, zs, nc),
            forall|i: int| 0 <= i < NUM_TABLES ==> row_wf((#[trigger] zs[i])@),
            forall|i: int| 0 <= i < NUM_TABLES ==> row_wf((#[trigger] extra[i])@),
            forall|kk: int| 0 <= kk < ctls.len() ==> extra[(#[trigger] ctls[kk]).looked_table.table.idx()]@.len() >= num_challenges,
            cursor@.len() == NUM_TABLES,
            forall|i: int| 0 <= i < NUM_TABLES ==> cursor@[i] == lookup_base(ctls, k as int, Table::at(i), nc),
            forall|kk: int, c: int| 0 <= kk < k && 0 <= c < nc ==> lookup_holds(ctls, zs, extra, kk, c, nc),
        decreases ctls.len() - k,
    {
        let ctl = &cross_table_lookups[k];
        let looked = ctl.looked_table.table.index();
        let ghost lt = ctl.looked_table.table;
        let ghost looking = ctl.looking_tables@;
        let mut c: usize = 0;
        while c < num_challenges
            invariant
                k < ctls.len(),
                c <= num_challenges,
                *ctl == ctls[k as int],
                looking == ctl.looking_tables@,
                lt == ctl.looked_table.table,
                looked == lt.idx(),
                ctls == cross_table_lookups@,
                zs == ctl_zs_first@,
                extra == ctl_extra_looking_products@,
                zs.len() == NUM_TABLES,
                extra.len() == NUM_TABLES,
                nc == num_challenges,
                counts_ok(ctls, zs, nc),
                forall|i: int| 0 <= i < NUM_TABLES ==> row_wf((#[trigger] zs[i])@),
                forall|i: int| 0 <= i < NUM_TABLES ==> row_wf((#[trigger] extra[i])@),
                forall|kk: int| 0 <= kk < ctls.len() ==> extra[(#[trigger] ctls[kk]).looked_table.table.idx()]@.len() >= num_challenges,
                cursor@.len() == NUM_TABLES,
                forall|i: int| 0 <= i < NUM_TABLES ==> cursor@[i] == lookup_base(ctls, k as int, Table::at(i), nc)
                    + c * ctl.uses(Table::at(i)),
                forall|kk: int, cc: int| 0 <= kk < k && 0 <= cc < nc ==> lookup_holds(ctls, zs, extra, kk, cc, nc),
                forall|cc: int| 0 <= cc < c ==> lookup_holds(ctls, zs, extra, k as int, cc, nc),
            decreases num_challenges - c,
        {
            let mut prod = Felt::one();
            let mut j: usize = 0;
            while j < ctl.looking_tables.len()
                invariant
                    k < ctls.len(),
                    c < num_challenges,
                    j <= looking.len(),
                    *ctl == ctls[k as int],
                    looking == ctl.looking_tables@,
                    ctls == cross_table_lookups@,
                    zs == ctl_zs_first@,
                    zs.len() == NUM_TABLES,
                    nc == num_challenges,
                    counts_ok(ctls, zs, nc),
                    forall|i: int| 0 <= i < NUM_TABLES ==> row_wf((#[trigger] zs[i])@),
                    cursor@.len() == NUM_TABLES,
                    forall|i: int| 0 <= i < NUM_TABLES ==> cursor@[i] == lookup_base(ctls, k as int, Table::at(i), nc)
                        + c * ctl.uses(Table::at(i)) + occurrences(looking.subrange(0, j as int), Table::at(i)),
                    prod.wf(),
                    prod@ == looking_product(ctls, zs, k as int, c as int, j as int, nc),
                decreases looking.len() - j,
            {
                let tw = ctl.looking_tables[j].table;
                let ti = tw.index();
                proof {
                    tw.lemma_at_idx();
                    let base = lookup_base(ctls, k as int, tw, nc);
                    let u = ctl.uses(tw) as int;
                    assert(looking.subrange(0, j + 1).drop_last() =~= looking.subrange(0, j as int));
                    lemma_occurrences_prefix(looking, tw, j + 1);
                    lemma_base_step(ctls, k as int, tw, nc);
                    lemma_round_bound(base, c as int, u, nc);
                    assert(count_ok(ctls, zs, nc, ti as int));
                }
                let pos = cursor[ti];
                let n = ctl_zs_first[ti].len();
                assert(pos < n);
                let x = ctl_zs_first[ti][pos];
                prod = prod.mul(x);
                cursor.set(ti, pos + 1);
                proof {
                    assert forall|i: int| 0 <= i < NUM_TABLES implies cursor@[i] == lookup_base(ctls, k as int, Table::at(i), nc)
                        + c * ctl.uses(Table::at(i)) + occurrences(looking.subrange(0, j + 1), Table::at(i)) by {
                        assert(looking.subrange(0, j + 1).drop_last() =~= looking.subrange(0, j as int));
                        if i != ti {
                            assert(Table::at(i) != tw);
                        }
                    }
                }
                j = j + 1;
            }
            assert(looking.subrange(0, looking.len() as int) =~= looking);
            let e = ctl_extra_looking_products[looked][c];
            let lhs = prod.mul(e);
            proof {
                lt.lemma_at_idx();
                let base = lookup_base(ctls, k as int, lt, nc);
                let u = ctl.uses(lt) as int;
                lemma_base_step(ctls, k as int, lt, nc);
                lemma_round_bound(base, c as int, u, nc);
                assert(count_ok(ctls, zs, nc, looked as int));
            }
            let pos = cursor[looked];
            let n = ctl_zs_first[looked].len();
            assert(pos < n);
            let rhs = ctl_zs_first[looked][pos];
            cursor.set(looked, pos + 1);
            proof {
                assert forall|i: int| 0 <= i < NUM_TABLES implies cursor@[i] == lookup_base(ctls, k as int, Table::at(i), nc)
                    + (c + 1) * ctl.uses(Table::at(i)) by {
                    let ti = Table::at(i);
                    let u = ctl.uses(ti) as int;
                    assert((c + 1) * u == c * u + u) by (nonlinear_arith);
                    if i != looked {
                        assert(ti != lt);
                    }
                }
            }
            if !lhs.eq(rhs) {
                assert(!lookup_holds(ctls, zs, extra, k as int, c as int, nc));
                assert(exists|cc: int| 0 <= cc < nc && !lookup_holds(ctls, zs, extra, k as int, cc, nc));
                return Err(CtlError::LookupMismatch { index: k });
            }
            c = c + 1;
        }
        proof {
            assert forall|i: int| 0 <= i < NUM_TABLES implies cursor@[i] == lookup_base(ctls, k + 1, Table::at(i), nc) by {
                lemma_base_step(ctls, k as int, Table::at(i), nc);
                assert(nc * ctl.uses(Table::at(i)) == c * ctl.uses(Table::at(i)));
            }
        }
        k = k + 1;
    }
    Ok(())
}

} // verus!
