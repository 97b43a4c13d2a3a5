//! The prover's side: every Z sequence that each table commits to, with what is needed
//! to evaluate its constraints later.

use vstd::prelude::*;
use crate::field::Felt;
use crate::column::{Column, height, same_filter, duplicate_columns, duplicate_filter};
use crate::challenge::{GrandProductChallenge, GrandProductChallengeSet};
use crate::table::{CrossTableLookup, Table, TableWithColumns, NUM_TABLES, uses_total, occurrences};
use crate::zpoly::{partial_products, z_at, binary_at};
use crate::cross_check::{lookup_base, looking_pos, looked_pos};
use crate::oracle::lookup_fits;
use crate::error::CtlError;

verus! {

/// One Z sequence: its values, the challenge it was built with, and copies of the
/// combinations that fed it.
pub struct CtlZData {
    pub z: Vec<Felt>,
    pub challenge: GrandProductChallenge<Felt>,
    pub columns: Vec<Column>,
    pub filter_column: Option<Column>,
}

/// All the Z sequences of one table.
pub struct CtlData {
    pub zs_columns: Vec<CtlZData>,
}

impl CtlData {
    /// The number of Z sequences.
    pub fn len(&self) -> (r: usize)
        ensures
            r == self.zs_columns@.len(),
    {
        self.zs_columns.len()
    }

    /// Whether there are no Z sequences.
    pub fn is_empty(&self) -> (r: bool)
        ensures
            r == (self.zs_columns@.len() == 0),
    {
        self.zs_columns.len() == 0
    }

    /// Copies of all the Z sequences, in order.
    pub fn z_polys(&self) -> (r: Vec<Vec<Felt>>)
        ensures
            r@.len() == self.zs_columns@.len(),
            forall|i: int| 0 <= i < r@.len() ==> (#[trigger] r@[i])@ == self.zs_columns@[i].z@,
    {
        let mut r: Vec<Vec<Felt>> = Vec::new();
        let mut i: usize = 0;
        while i < self.zs_columns.len()
            invariant
                i <= self.zs_columns@.len(),
                r@.len() == i,
                forall|m: int| 0 <= m < i ==> (#[trigger] r@[m])@ == self.zs_columns@[m].z@,
            decreases self.zs_columns@.len() - i,
        {
            let z = &self.zs_columns[i].z;
            let mut c: Vec<Felt> = Vec::new();
            let mut k: usize = 0;
            while k < z.len()
                invariant
                    k <= z@.len(),
                    c@ =~= z@.subrange(0, k as int),
                decreases z@.len() - k,
            {
                c.push(z[k]);
                k = k + 1;
                assert(c@ =~= z@.subrange(0, k as int));
            }
            assert(z@.subrange(0, z@.len() as int) =~= z@);
            r.push(c);
            i = i + 1;
        }
        r
    }
}

/// `zd` is the Z sequence of `tw` on `trace` for challenge `ch`.
pub open spec fn zdata_matches(
    trace: Seq<Vec<Felt>>,
    tw: TableWithColumns,
    ch: GrandProductChallenge<Felt>,
    zd: CtlZData,
) -> bool {
    &&& zd.challenge == ch
    &&& zd.z@.len() == height(trace)
    &&& forall|i: int| 0 <= i < height(trace) ==> (#[trigger] zd.z@[i])@ == z_at(trace, tw.columns@, tw.filter_column, ch, i)
    &&& zd.columns@.len() == tw.columns@.len()
    &&& forall|m: int| 0 <= m < tw.columns@.len() ==> (#[trigger] zd.columns@[m]).same(&tw.columns@[m])
    &&& same_filter(zd.filter_column, tw.filter_column)
}

/// The entry of looking table `j` of lookup `k` for challenge `c` is in its place.
pub open spec fn looking_ok(
    traces: Seq<Vec<Vec<Felt>>>,
    ctls: Seq<CrossTableLookup>,
    chs: Seq<GrandProductChallenge<Felt>>,
    zs: Seq<CtlZData>,
    k: int,
    c: int,
    j: int,
) -> bool {
    let tw = ctls[k].looking_tables@[j];
    let p = looking_pos(ctls, k, c, j, chs.len() as int);
    &&& 0 <= p < zs.len()
    &&& zdata_matches(traces[tw.table.idx()]@, tw, chs[c], zs[p])
}

/// The entry of the looked table of lookup `k` for challenge `c` is in its place.
pub open spec fn looked_ok(
    traces: Seq<Vec<Vec<Felt>>>,
    ctls: Seq<CrossTableLookup>,
    chs: Seq<GrandProductChallenge<Felt>>,
    zs: Seq<CtlZData>,
    k: int,
    c: int,
) -> bool {
    let tw = ctls[k].looked_table;
    let p = looked_pos(ctls, k, c, chs.len() as int);
    &&& 0 <= p < zs.len()
    &&& zdata_matches(traces[tw.table.idx()]@, tw, chs[c], zs[p])
}

/// The Z sequences of table `t`, in the order lookup, challenge, looking tables, looked table.
pub open spec fn table_data_ok(
    traces: Seq<Vec<Vec<Felt>>>,
    ctls: Seq<CrossTableLookup>,
    chs: Seq<GrandProductChallenge<Felt>>,
    t: Table,
    zs: Seq<CtlZData>,
) -> bool {
    &&& zs.len() == chs.len() * uses_total(ctls, t)
    &&& forall|k: int, c: int, j: int|
        0 <= k < ctls.len() && 0 <= c < chs.len() && 0 <= j < ctls[k].looking_tables@.len()
            && ctls[k].looking_tables@[j].table == t ==> #[trigger] looking_ok(traces, ctls, chs, zs, k, c, j)
    &&& forall|k: int, c: int|
        0 <= k < ctls.len() && 0 <= c < chs.len() && ctls[k].looked_table.table == t ==> #[trigger] looked_ok(
            traces,
            ctls,
            chs,
            zs,
            k,
            c,
        )
}

/// Some table of some lookup has a filter that is not 0/1 at `row`.
pub open spec fn some_bad_filter(traces: Seq<Vec<Vec<Felt>>>, ctls: Seq<CrossTableLookup>, row: int) -> bool {
    exists|k: int| 0 <= k < ctls.len() && {
        let ctl = #[trigger] ctls[k];
        let bad = |tw: TableWithColumns|
            0 <= row < height(traces[tw.table.idx()]@) && !binary_at(traces[tw.table.idx()]@, tw.filter_column, row);
        bad(ctl.looked_table) || exists|j: int| 0 <= j < ctl.looking_tables@.len() && bad(#[trigger] ctl.looking_tables@[j])
    }
}

proof fn lemma_push_keeps(
    traces: Seq<Vec<Vec<Felt>>>,
    ctls: Seq<CrossTableLookup>,
    chs: Seq<GrandProductChallenge<Felt>>,
    zs: Seq<CtlZData>,
    x: CtlZData,
)
    ensures
        forall|k: int, c: int, j: int|
            looking_ok(traces, ctls, chs, zs, k, c, j) ==> #[trigger] looking_ok(traces, ctls, chs, zs.push(x), k, c, j),
        forall|k: int, c: int|
            looked_ok(traces, ctls, chs, zs, k, c) ==> #[trigger] looked_ok(traces, ctls, chs, zs.push(x), k, c),
{
    assert forall|k: int, c: int, j: int|
        looking_ok(traces, ctls, chs, zs, k, c, j) implies #[trigger] looking_ok(traces, ctls, chs, zs.push(x), k, c, j) by {
        let p = looking_pos(ctls, k, c, j, chs.len() as int);
        assert(zs.push(x)[p] == zs[p]);
    }
    assert forall|k: int, c: int|
        looked_ok(traces, ctls, chs, zs, k, c) implies #[trigger] looked_ok(traces, ctls, chs, zs.push(x), k, c) by {
        let p = looked_pos(ctls, k, c, chs.len() as int);
        assert(zs.push(x)[p] == zs[p]);
    }
}

/// The Z data of `tw` for challenge `ch`.
fn build_entry(
    traces: &Vec<Vec<Vec<Felt>>>,
    tw: &TableWithColumns,
    ch: GrandProductChallenge<Felt>,
) -> (r: Result<CtlZData, CtlError>)
    requires
        traces@.len() == NUM_TABLES,
        crate::oracle::table_fits(traces@, *tw),
        ch.wf(),
    ensures
        r matches Ok(zd) ==> zdata_matches(traces@[tw.table.idx()]@, *tw, ch, zd),
        r matches Err(e) ==> e matches CtlError::NonBinaryFilter { row } && row < height(traces@[tw.table.idx()]@)
            && !binary_at(
            traces@[tw.table.idx()]@,
            tw.filter_column,
            row as int,
        ),
{
    let trace = &traces[tw.table.index()];
    let z = partial_products(trace.as_slice(), tw.columns.as_slice(), &tw.filter_column, ch)?;
    Ok(CtlZData {
        z,
        challenge: ch,
        columns: duplicate_columns(tw.columns.as_slice()),
        filter_column: duplicate_filter(&tw.filter_column),
    })
}

/// Builds, in order, the Z sequences that table `t` commits to.
pub fn table_ctl_data(
    traces: &Vec<Vec<Vec<Felt>>>,
    cross_table_lookups: &[CrossTableLookup],
    ctl_challenges: &GrandProductChallengeSet<Felt>,
    t: Table,
) -> (r: Result<CtlData, CtlError>)
    requires
        traces@.len() == NUM_TABLES,
        ctl_challenges.wf(),
        forall|k: int| 0 <= k < cross_table_lookups@.len() ==> lookup_fits(traces@, #[trigger] cross_table_lookups@[k]),
    ensures
        r matches Ok(d) ==> table_data_ok(traces@, cross_table_lookups@, ctl_challenges.challenges@, t, d.zs_columns@),
        r matches Err(e) ==> e matches CtlError::NonBinaryFilter { row } && some_bad_filter(
            traces@,
            cross_table_lookups@,
            row as int,
        ),
{
    let ghost ctls = cross_table_lookups@;
    let ghost chs = ctl_challenges.challenges@;
    let ghost tr = traces@;
    let ghost nc = chs.len() as int;
    let nch = ctl_challenges.challenges.len();
    let mut zs: Vec<CtlZData> = Vec::new();
    assert(ctls.subrange(0, 0) =~= Seq::<CrossTableLookup>::empty());
    assert(nc * 0 == 0);
    let mut k: usize = 0;
    while k < cross_table_lookups.len()
        invariant
            k <= ctls.len(),
            ctls == cross_table_lookups@,
            chs == ctl_challenges.challenges@,
            tr == traces@,
            tr.len() == NUM_TABLES,
            nc == nch,
            nc == chs.len(),
            ctl_challenges.wf(),
            forall|kk: int| 0 <= kk < ctls.len() ==> lookup_fits(tr, #[trigger] ctls[kk]),
            zs@.len() == lookup_base(ctls, k as int, t, nc),
            forall|kk: int, cc: int, jj: int|
                0 <= kk < ctls.len() && 0 <= cc < nc && 0 <= jj < ctls[kk].looking_tables@.len()
                    && ctls[kk].looking_tables@[jj].table == t && kk < k ==> #[trigger] looking_ok(tr, ctls, chs, zs@, kk, cc, jj),
            forall|kk: int, cc: int|
                0 <= kk < ctls.len() && 0 <= cc < nc && ctls[kk].looked_table.table == t && kk < k
                    ==> #[trigger] looked_ok(tr, ctls, chs, zs@, kk, cc),
        decreases ctls.len() - k,
    {
        let ctl = &cross_table_lookups[k];
        let ghost looking = ctl.looking_tables@;
        let mut c: usize = 0;
        while c < nch
            invariant
                k < ctls.len(),
                c <= nch,
                *ctl == ctls[k as int],
                looking == ctl.looking_tables@,
                ctls == cross_table_lookups@,
                chs == ctl_challenges.challenges@,
                tr == traces@,
                tr.len() == NUM_TABLES,
                nc == nch,
                nc == chs.len(),
                ctl_challenges.wf(),
                forall|kk: int| 0 <= kk < ctls.len() ==> lookup_fits(tr, #[trigger] ctls[kk]),
                zs@.len() == lookup_base(ctls, k as int, t, nc) + c * ctl.uses(t),
                forall|kk: int, cc: int, jj: int|
                    0 <= kk < ctls.len() && 0 <= cc < nc && 0 <= jj < ctls[kk].looking_tables@.len()
                        && ctls[kk].looking_tables@[jj].table == t && (kk < k || (kk == k && cc < c))
                        ==> #[trigger] looking_ok(tr, ctls, chs, zs@, kk, cc, jj),
                forall|kk: int, cc: int|
                    0 <= kk < ctls.len() && 0 <= cc < nc && ctls[kk].looked_table.table == t && (kk < k || (kk == k
                        && cc < c)) ==> #[trigger] looked_ok(tr, ctls, chs, zs@, kk, cc),
            decreases nch - c,
        {
            let ch = ctl_challenges.challenges[c];
            let mut j: usize = 0;
            while j < ctl.looking_tables.len()
                invariant
                    k < ctls.len(),
                    c < nch,
                    j <= looking.len(),
                    *ctl == ctls[k as int],
                    looking == ctl.looking_tables@,
                    ctls == cross_table_lookups@,
                    chs == ctl_challenges.challenges@,
                    ch == chs[c as int],
                    tr == traces@,
                    tr.len() == NUM_TABLES,
                    nc == nch,
                    nc == chs.len(),
                    ctl_challenges.wf(),
                    forall|kk: int| 0 <= kk < ctls.len() ==> lookup_fits(tr, #[trigger] ctls[kk]),
                    zs@.len() == lookup_base(ctls, k as int, t, nc) + c * ctl.uses(t) + occurrences(
                        looking.subrange(0, j as int),
                        t,
                    ),
                    forall|kk: int, cc: int, jj: int|
                        0 <= kk < ctls.len() && 0 <= cc < nc && 0 <= jj < ctls[kk].looking_tables@.len()
                            && ctls[kk].looking_tables@[jj].table == t && (kk < k || (kk == k && cc < c) || (kk == k
                            && cc == c && jj < j)) ==> #[trigger] looking_ok(tr, ctls, chs, zs@, kk, cc, jj),
                    forall|kk: int, cc: int|
                        0 <= kk < ctls.len() && 0 <= cc < nc && ctls[kk].looked_table.table == t && (kk < k || (kk
                            == k && cc < c)) ==> #[trigger] looked_ok(tr, ctls, chs, zs@, kk, cc),
                decreases looking.len() - j,
            {
                assert(looking.subrange(0, j + 1).drop_last() =~= looking.subrange(0, j as int));
                let tw = &ctl.looking_tables[j];
                if tw.table == t {
                    assert(crate::oracle::table_fits(tr, looking[j as int]));
                    assert(chs[c as int].wf());
                    let zd = match build_entry(traces, tw, ch) {
                        Ok(zd) => zd,
                        Err(e) => {
                            assert(some_bad_filter(tr, ctls, e->row as int)) by {
                                assert(ctls[k as int].looking_tables@[j as int] == *tw);
                            }
                            return Err(e);
                        },
                    };
                    proof { lemma_push_keeps(tr, ctls, chs, zs@, zd); }
                    zs.push(zd);
                    assert(looking_ok(tr, ctls, chs, zs@, k as int, c as int, j as int));
                }
                j = j + 1;
            }
            assert(looking.subrange(0, looking.len() as int) =~= looking);
            let tw = &ctl.looked_table;
            if tw.table == t {
                assert(chs[c as int].wf());
                let zd = match build_entry(traces, tw, ch) {
                    Ok(zd) => zd,
                    Err(e) => {
                        return Err(e);
                    },
                };
                proof { lemma_push_keeps(tr, ctls, chs, zs@, zd); }
                zs.push(zd);
                assert(looked_ok(tr, ctls, chs, zs@, k as int, c as int));
            }
            assert((c + 1) * ctl.uses(t) == c * ctl.uses(t) + ctl.uses(t)) by (nonlinear_arith);
            c = c + 1;
        }
        proof {
            crate::cross_check::lemma_base_step(ctls, k as int, t, nc);
        }
        k = k + 1;
    }
    assert(ctls.subrange(0, ctls.len() as int) =~= ctls);
    Ok(CtlData { zs_columns: zs })
}

/// Builds the Z sequences of every table: for each lookup and each challenge, one for
/// each looking table and one for the looked table, each filed under its own table.
pub fn cross_table_lookup_data(
    traces: &Vec<Vec<Vec<Felt>>>,
    cross_table_lookups: &[CrossTableLookup],
    ctl_challenges: &GrandProductChallengeSet<Felt>,
) -> (r: Result<Vec<CtlData>, CtlError>)
    requires
        traces@.len() == NUM_TABLES,
        ctl_challenges.wf(),
        forall|k: int| 0 <= k < cross_table_lookups@.len() ==> lookup_fits(traces@, #[trigger] cross_table_lookups@[k]),
    ensures
        r matches Ok(v) ==> v@.len() == NUM_TABLES && forall|t: int| 0 <= t < NUM_TABLES ==> table_data_ok(
            traces@,
            cross_table_lookups@,
            ctl_challenges.challenges@,
            Table::at(t),
            (#[trigger] v@[t]).zs_columns@,
        ),
        r matches Err(e) ==> e matches CtlError::NonBinaryFilter { row } && some_bad_filter(
            traces@,
            cross_table_lookups@,
            row as int,
        ),
{
    let mut v: Vec<CtlData> = Vec::new();
    let mut t: usize = 0;
    while t < NUM_TABLES
        invariant
            t <= NUM_TABLES,
            traces@.len() == NUM_TABLES,
            ctl_challenges.wf(),
            forall|k: int| 0 <= k < cross_table_lookups@.len() ==> lookup_fits(traces@, #[trigger] cross_table_lookups@[k]),
            v@.len() == t,
            forall|i: int| 0 <= i < t ==> table_data_ok(
                traces@,
                cross_table_lookups@,
                ctl_challenges.challenges@,
                Table::at(i),
                (#[trigger] v@[i]).zs_columns@,
            ),
        decreases NUM_TABLES - t,
    {
        let d = table_ctl_data(traces, cross_table_lookups, ctl_challenges, Table::from_index(t))?;
        v.push(d);
        t = t + 1;
    }
    Ok(v)
}

} // verus!
