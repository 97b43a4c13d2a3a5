//! A direct multiset check over raw traces: the meaning that the grand-product argument
//! is built to enforce, with no randomness involved.

use vstd::prelude::*;
use crate::field::Felt;
use crate::column::{table_wf, height};
use crate::table::{CrossTableLookup, Table, TableWithColumns, NUM_TABLES};
use crate::zpoly::{payload, filter_value, binary_at, columns_ok, filter_ok};

verus! {

/// Why the traces do not satisfy a lookup.
#[derive(Clone, Debug, PartialEq, Eq)]
pub enum OracleError {
    /// The filter of a table of this kind is neither 0 nor 1 at this row.
    NonBinaryFilter { table: Table, row: usize },
    /// In lookup `lookup`, `row` appears as many times as `looking_locations` on the
    /// looking side and as `looked_locations` on the looked side, and these differ.
    Mismatch {
        lookup: usize,
        row: Vec<Felt>,
        looking_locations: Vec<(Table, usize)>,
        looked_locations: Vec<(Table, usize)>,
    },
}

/// The payload rows of the first `n` rows of `trace` whose filter is 1, in row order.
pub open spec fn filtered_rows(trace: Seq<Vec<Felt>>, tw: TableWithColumns, n: int) -> Seq<Seq<Felt>>
    decreases n,
{
    if n <= 0 {
        Seq::empty()
    } else {
        let prev = filtered_rows(trace, tw, n - 1);
        if filter_value(trace, tw.filter_column, n - 1) == 1 {
            prev.push(payload(trace, tw.columns@, n - 1))
        } else {
            prev
        }
    }
}

/// The filtered payload rows of all of `tables`, table after table.
pub open spec fn rows_of(traces: Seq<Vec<Vec<Felt>>>, tables: Seq<TableWithColumns>) -> Seq<Seq<Felt>>
    decreases tables.len(),
{
    if tables.len() == 0 {
        Seq::empty()
    } else {
        let tw = tables.last();
        let trace = traces[tw.table.idx()]@;
        rows_of(traces, tables.drop_last()) + filtered_rows(trace, tw, height(trace))
    }
}

/// How many times `x` occurs in `s`.
pub open spec fn count_of(s: Seq<Seq<Felt>>, x: Seq<Felt>) -> nat
    decreases s.len(),
{
    if s.len() == 0 {
        0
    } else {
        count_of(s.drop_last(), x) + if s.last() == x { 1nat } else { 0nat }
    }
}

/// The lookup takes in the extra looking rows: those that look into the memory table.
pub open spec fn takes_extra(ctl: CrossTableLookup) -> bool {
    ctl.looked_table.table == Table::Memory
}

/// The looking side of a lookup, extra rows included where they belong.
pub open spec fn looking_side(
    traces: Seq<Vec<Vec<Felt>>>,
    ctl: CrossTableLookup,
    extra: Seq<Seq<Felt>>,
) -> Seq<Seq<Felt>> {
    rows_of(traces, ctl.looking_tables@) + if takes_extra(ctl) { extra } else { Seq::empty() }
}

/// The looked side of a lookup.
pub open spec fn looked_side(traces: Seq<Vec<Vec<Felt>>>, ctl: CrossTableLookup) -> Seq<Seq<Felt>> {
    rows_of(traces, seq![ctl.looked_table])
}

/// Both sides of the lookup hold every row the same number of times.
pub open spec fn consistent(
    traces: Seq<Vec<Vec<Felt>>>,
    ctl: CrossTableLookup,
    extra: Seq<Seq<Felt>>,
) -> bool {
    forall|x: Seq<Felt>| count_of(looking_side(traces, ctl, extra), x) == count_of(
        looked_side(traces, ctl),
        x,
    )
}

/// The filter of `tw` is 0 or 1 on every row of its trace.
pub open spec fn table_binary(traces: Seq<Vec<Vec<Felt>>>, tw: TableWithColumns) -> bool {
    let trace = traces[tw.table.idx()]@;
    forall|i: int| 0 <= i < height(trace) ==> binary_at(trace, tw.filter_column, i)
}

/// Every table of the lookup has a 0/1 filter.
pub open spec fn lookup_binary(traces: Seq<Vec<Vec<Felt>>>, ctl: CrossTableLookup) -> bool {
    &&& table_binary(traces, ctl.looked_table)
    &&& forall|j: int| 0 <= j < ctl.looking_tables@.len() ==> table_binary(traces, #[trigger] ctl.looking_tables@[j])
}

/// The table's trace is well formed and its combinations read only its columns.
pub open spec fn table_fits(traces: Seq<Vec<Vec<Felt>>>, tw: TableWithColumns) -> bool {
    let trace = traces[tw.table.idx()]@;
    &&& table_wf(trace)
    &&& columns_ok(tw.columns@, trace.len() as int)
    &&& filter_ok(tw.filter_column, trace.len() as int)
}

pub open spec fn lookup_fits(traces: Seq<Vec<Vec<Felt>>>, ctl: CrossTableLookup) -> bool {
    &&& table_fits(traces, ctl.looked_table)
    &&& forall|j: int| 0 <= j < ctl.looking_tables@.len() ==> table_fits(traces, #[trigger] ctl.looking_tables@[j])
}

/// A table of `ctl`, looking or looked, is of kind `t` and its filter is not 0/1 at `row`.
pub open spec fn bad_filter_in(traces: Seq<Vec<Vec<Felt>>>, ctl: CrossTableLookup, t: Table, row: int) -> bool {
    let bad = |tw: TableWithColumns|
        tw.table == t && 0 <= row < height(traces[t.idx()]@) && !binary_at(traces[t.idx()]@, tw.filter_column, row);
    bad(ctl.looked_table) || exists|j: int| 0 <= j < ctl.looking_tables@.len() && bad(#[trigger] ctl.looking_tables@[j])
}

/// A row that is counted occurs.
pub proof fn lemma_count_positive(s: Seq<Seq<Felt>>, x: Seq<Felt>)
    requires
        count_of(s, x) > 0,
    ensures
        exists|i: int| 0 <= i < s.len() && s[i] == x,
    decreases s.len(),
{
    if s.last() != x {
        lemma_count_positive(s.drop_last(), x);
        let i = choose|i: int| 0 <= i < s.drop_last().len() && s.drop_last()[i] == x;
        assert(s[i] == x);
    } else {
        assert(s[s.len() - 1] == x);
    }
}

/// Whether two rows are equal.
fn same_row(a: &Vec<Felt>, b: &Vec<Felt>) -> (r: bool)
    ensures
        r == (a@ == b@),
{
    if a.len() != b.len() {
        return false;
    }
    let mut i: usize = 0;
    while i < a.len()
        invariant
            i <= a@.len(),
            a@.len() == b@.len(),
            forall|k: int| 0 <= k < i ==> a@[k] == b@[k],
        decreases a@.len() - i,
    {
        if a[i].value != b[i].value {
            assert(a@[i as int] != b@[i as int]);
            return false;
        }
        i = i + 1;
    }
    assert(a@ =~= b@);
    true
}

/// A copy of a row.
fn copy_row(a: &Vec<Felt>) -> (r: Vec<Felt>)
    ensures
        r@ == a@,
{
    let mut r: Vec<Felt> = Vec::new();
    let mut i: usize = 0;
    while i < a.len()
        invariant
            i <= a@.len(),
            r@ =~= a@.subrange(0, i as int),
        decreases a@.len() - i,
    {
        r.push(a[i]);
        i = i + 1;
        assert(r@ =~= a@.subrange(0, i as int));
    }
    assert(a@.subrange(0, a@.len() as int) =~= a@);
    r
}

/// The views of a list of rows.
pub open spec fn views(rows: Seq<Vec<Felt>>) -> Seq<Seq<Felt>> {
    Seq::new(rows.len(), |i: int| rows[i]@)
}

/// How many rows of `rows` equal `x`, and the locations of those rows.
fn count_with_locations(rows: &Vec<Vec<Felt>>, locs: &Vec<(Table, usize)>, x: &Vec<Felt>) -> (r: (
    usize,
    Vec<(Table, usize)>,
))
    requires
        locs@.len() == rows@.len(),
    ensures
        r.0 == count_of(views(rows@), x@),
        r.1@.len() == r.0,
{
    let mut n: usize = 0;
    let mut found: Vec<(Table, usize)> = Vec::new();
    let mut i: usize = 0;
    while i < rows.len()
        invariant
            i <= rows@.len(),
            locs@.len() == rows@.len(),
            n == count_of(views(rows@).subrange(0, i as int), x@),
            found@.len() == n,
            n <= i,
        decreases rows@.len() - i,
    {
        assert(views(rows@).subrange(0, i + 1).drop_last() =~= views(rows@).subrange(0, i as int));
        if same_row(&rows[i], x) {
            n = n + 1;
            found.push(locs[i]);
        }
        i = i + 1;
    }
    assert(views(rows@).subrange(0, rows@.len() as int) =~= views(rows@));
    (n, found)
}

/// Appends the filtered payload rows of `tw` to `rows`, with their locations.
fn collect_rows(
    traces: &Vec<Vec<Vec<Felt>>>,
    tw: &TableWithColumns,
    rows: &mut Vec<Vec<Felt>>,
    locs: &mut Vec<(Table, usize)>,
) -> (r: Result<(), OracleError>)
    requires
        traces@.len() == NUM_TABLES,
        table_fits(traces@, *tw),
        old(locs)@.len() == old(rows)@.len(),
    ensures
        final(locs)@.len() == final(rows)@.len(),
        r is Ok ==> table_binary(traces@, *tw) && views(final(rows)@) == views(old(rows)@) + filtered_rows(
            traces@[tw.table.idx()]@,
            *tw,
            height(traces@[tw.table.idx()]@),
        ),
        r matches Err(e) ==> e matches OracleError::NonBinaryFilter { table, row } && table == tw.table
            && row < height(traces@[tw.table.idx()]@) && !binary_at(
            traces@[tw.table.idx()]@,
            tw.filter_column,
            row as int,
        ),
{
    let ti = tw.table.index();
    let trace = &traces[ti];
    let ghost t = trace@;
    let ghost start = views(rows@);
    let h = trace[0].len();
    let mut i: usize = 0;
    while i < h
        invariant
            i <= h,
            h == height(t),
            t == trace@,
            t == traces@[tw.table.idx()]@,
            table_wf(t),
            columns_ok(tw.columns@, t.len() as int),
            filter_ok(tw.filter_column, t.len() as int),
            locs@.len() == rows@.len(),
            views(rows@) =~= start + filtered_rows(t, *tw, i as int),
            forall|j: int| 0 <= j < i ==> binary_at(t, tw.filter_column, j),
        decreases h - i,
    {
        let f = match &tw.filter_column {
            Some(column) => column.eval_table(trace.as_slice(), i),
            None => Felt::one(),
        };
        assert(f@ == filter_value(t, tw.filter_column, i as int));
        if f.is_one() {
            let mut row: Vec<Felt> = Vec::new();
            let mut k: usize = 0;
            while k < tw.columns.len()
                invariant
                    k <= tw.columns@.len(),
                    i < h,
                    h == height(t),
                    t == trace@,
                    table_wf(t),
                    columns_ok(tw.columns@, t.len() as int),
                    row@ =~= payload(t, tw.columns@.subrange(0, k as int), i as int),
                decreases tw.columns@.len() - k,
            {
                let x = tw.columns[k].eval_table(trace.as_slice(), i);
                row.push(x);
                k = k + 1;
                assert(row@ =~= payload(t, tw.columns@.subrange(0, k as int), i as int));
            }
            assert(tw.columns@.subrange(0, tw.columns@.len() as int) =~= tw.columns@);
            let ghost before = rows@;
            rows.push(row);
            locs.push((tw.table, i));
            assert(views(rows@) =~= views(before).push(row@));
            assert(filtered_rows(t, *tw, i + 1) == filtered_rows(t, *tw, i as int).push(payload(t, tw.columns@, i as int)));
        } else if !f.is_zero() {
            return Err(OracleError::NonBinaryFilter { table: tw.table, row: i });
        }
        i = i + 1;
    }
    Ok(())
}

/// Compares both sides of lookup number `ctl_index` as multisets of payload rows. The
/// extra looking rows join the looking side where the looked table is the memory table.
pub fn check_ctl(
    traces: &Vec<Vec<Vec<Felt>>>,
    ctl: &CrossTableLookup,
    ctl_index: usize,
    extra_memory_looking_values: &Vec<Vec<Felt>>,
) -> (r: Result<(), OracleError>)
    requires
        traces@.len() == NUM_TABLES,
        lookup_fits(traces@, *ctl),
    ensures
        r is Ok ==> lookup_binary(traces@, *ctl) && consistent(traces@, *ctl, views(extra_memory_looking_values@),
        ),
        r matches Err(OracleError::NonBinaryFilter { table, row }) ==> bad_filter_in(
            traces@,
            *ctl,
            table,
            row as int,
        ),
        r matches Err(OracleError::Mismatch { lookup, row, looking_locations, looked_locations }) ==> {
            &&& lookup == ctl_index
            &&& count_of(looking_side(traces@, *ctl, views(extra_memory_looking_values@)), row@)
                != count_of(looked_side(traces@, *ctl), row@)
            &&& looking_locations@.len() == count_of(
                looking_side(traces@, *ctl, views(extra_memory_looking_values@)),
                row@,
            )
            &&& looked_locations@.len() == count_of(looked_side(traces@, *ctl), row@)
        },
{
    let ghost tr = traces@;
    let ghost looking = ctl.looking_tables@;
    let ghost extra = views(extra_memory_looking_values@);
    let mut lrows: Vec<Vec<Felt>> = Vec::new();
    let mut llocs: Vec<(Table, usize)> = Vec::new();
    let mut j: usize = 0;
    while j < ctl.looking_tables.len()
        invariant
            j <= looking.len(),
            looking == ctl.looking_tables@,
            tr == traces@,
            tr.len() == NUM_TABLES,
            lookup_fits(tr, *ctl),
            llocs@.len() == lrows@.len(),
            views(lrows@) == rows_of(tr, looking.subrange(0, j as int)),
            forall|m: int| 0 <= m < j ==> table_binary(tr, #[trigger] looking[m]),
        decreases looking.len() - j,
    {
        assert(table_fits(tr, looking[j as int]));
        match collect_rows(traces, &ctl.looking_tables[j], &mut lrows, &mut llocs) {
            Ok(()) => {},
            Err(e) => {
                assert(e matches OracleError::NonBinaryFilter { table, row } && bad_filter_in(tr, *ctl, table, row as int)) by {
                    let tw = looking[j as int];
                    assert(tw.table == looking[j as int].table);
                }
                return Err(e);
            },
        }
        assert(looking.subrange(0, j + 1).drop_last() =~= looking.subrange(0, j as int));
        j = j + 1;
    }
    assert(looking.subrange(0, looking.len() as int) =~= looking);
    if ctl.looked_table.table == Table::Memory {
        let mut m: usize = 0;
        let ghost base = views(lrows@);
        while m < extra_memory_looking_values.len()
            invariant
                m <= extra.len(),
                extra == views(extra_memory_looking_values@),
                llocs@.len() == lrows@.len(),
                views(lrows@) =~= base + extra.subrange(0, m as int),
            decreases extra.len() - m,
        {
            let row = copy_row(&extra_memory_looking_values[m]);
            let ghost before = lrows@;
            lrows.push(row);
            llocs.push((Table::Cpu, 0));
            assert(views(lrows@) =~= views(before).push(row@));
            m = m + 1;
            assert(views(lrows@) =~= base + extra.subrange(0, m as int));
        }
        assert(extra.subrange(0, extra.len() as int) =~= extra);
    } else {
        assert(views(lrows@) =~= views(lrows@) + Seq::<Seq<Felt>>::empty());
    }
    let ghost lside = looking_side(tr, *ctl, extra);
    assert(views(lrows@) == lside);
    let mut rrows: Vec<Vec<Felt>> = Vec::new();
    let mut rlocs: Vec<(Table, usize)> = Vec::new();
    assert(views(rrows@) =~= Seq::<Seq<Felt>>::empty());
    match collect_rows(traces, &ctl.looked_table, &mut rrows, &mut rlocs) {
        Ok(()) => {},
        Err(e) => {
            return Err(e);
        },
    }
    let ghost rside = looked_side(tr, *ctl);
    assert(seq![ctl.looked_table].drop_last() =~= Seq::<TableWithColumns>::empty());
    let ghost one = seq![ctl.looked_table];
    assert(one.len() == 1 && one.last() == ctl.looked_table);
    assert(one.drop_last() =~= Seq::<TableWithColumns>::empty());
    assert(rows_of(tr, one.drop_last()) == Seq::<Seq<Felt>>::empty());
    assert(rows_of(tr, seq![ctl.looked_table]) =~= Seq::<Seq<Felt>>::empty() + filtered_rows(
        tr[ctl.looked_table.table.idx()]@,
        ctl.looked_table,
        height(tr[ctl.looked_table.table.idx()]@),
    ));
    assert(views(rrows@) =~= rside);
    let mut i: usize = 0;
    while i < lrows.len()
        invariant
            i <= lrows@.len(),
            llocs@.len() == lrows@.len(),
            rlocs@.len() == rrows@.len(),
            views(lrows@) == lside,
            views(rrows@) == rside,
            lside == looking_side(traces@, *ctl, views(extra_memory_looking_values@)),
            rside == looked_side(traces@, *ctl),
            forall|m: int| 0 <= m < i ==> count_of(lside, #[trigger] lside[m]) == count_of(rside, lside[m]),
        decreases lrows@.len() - i,
    {
        assert(lrows@[i as int]@ == lside[i as int]);
        let (a, la) = count_with_locations(&lrows, &llocs, &lrows[i]);
        let (b, lb) = count_with_locations(&rrows, &rlocs, &lrows[i]);
        if a != b {
            let row = copy_row(&lrows[i]);
            assert(a == count_of(lside, row@));
            assert(b == count_of(rside, row@));
            return Err(OracleError::Mismatch { lookup: ctl_index, row, looking_locations: la, looked_locations: lb });
        }
        i = i + 1;
    }
    let mut i: usize = 0;
    while i < rrows.len()
        invariant
            i <= rrows@.len(),
            llocs@.len() == lrows@.len(),
            rlocs@.len() == rrows@.len(),
            views(lrows@) == lside,
            views(rrows@) == rside,
            lside == looking_side(traces@, *ctl, views(extra_memory_looking_values@)),
            rside == looked_side(traces@, *ctl),
            forall|m: int| 0 <= m < lside.len() ==> count_of(lside, #[trigger] lside[m]) == count_of(rside, lside[m]),
            forall|m: int| 0 <= m < i ==> count_of(lside, #[trigger] rside[m]) == count_of(rside, rside[m]),
        decreases rrows@.len() - i,
    {
        assert(rrows@[i as int]@ == rside[i as int]);
        let (a, la) = count_with_locations(&lrows, &llocs, &rrows[i]);
        let (b, lb) = count_with_locations(&rrows, &rlocs, &rrows[i]);
        if a != b {
            let row = copy_row(&rrows[i]);
            assert(a == count_of(lside, row@));
            assert(b == count_of(rside, row@));
            return Err(OracleError::Mismatch { lookup: ctl_index, row, looking_locations: la, looked_locations: lb });
        }
        i = i + 1;
    }
    assert forall|x: Seq<Felt>| count_of(lside, x) == count_of(rside, x) by {
        if count_of(lside, x) != count_of(rside, x) {
            if count_of(lside, x) > 0 {
                lemma_count_positive(lside, x);
            } else {
                lemma_count_positive(rside, x);
            }
        }
    }
    Ok(())
}

/// Checks every lookup with `check_ctl`, in order.
pub fn check_ctls(
    traces: &Vec<Vec<Vec<Felt>>>,
    cross_table_lookups: &[CrossTableLookup],
    extra_memory_looking_values: &Vec<Vec<Felt>>,
) -> (r: Result<(), OracleError>)
    requires
        traces@.len() == NUM_TABLES,
        forall|k: int| 0 <= k < cross_table_lookups@.len() ==> lookup_fits(traces@, #[trigger] cross_table_lookups@[k]),
    ensures
        r is Ok ==> forall|k: int| 0 <= k < cross_table_lookups@.len() ==> lookup_binary(traces@, #[trigger] cross_table_lookups@[k])
            && consistent(traces@, cross_table_lookups@[k], views(extra_memory_looking_values@)),
        r matches Err(OracleError::NonBinaryFilter { table, row }) ==> exists|k: int|
            0 <= k < cross_table_lookups@.len() && bad_filter_in(traces@, #[trigger] cross_table_lookups@[k], table, row as int),
        r matches Err(OracleError::Mismatch { lookup, row, looking_locations, looked_locations }) ==> {
            &&& lookup < cross_table_lookups@.len()
            &&& count_of(
                looking_side(traces@, cross_table_lookups@[lookup as int], views(extra_memory_looking_values@)),
                row@,
            ) != count_of(looked_side(traces@, cross_table_lookups@[lookup as int]), row@)
        },
{
    let mut i: usize = 0;
    while i < cross_table_lookups.len()
        invariant
            i <= cross_table_lookups@.len(),
            traces@.len() == NUM_TABLES,
            forall|k: int| 0 <= k < cross_table_lookups@.len() ==> lookup_fits(traces@, #[trigger] cross_table_lookups@[k]),
            forall|k: int| 0 <= k < i ==> lookup_binary(traces@, #[trigger] cross_table_lookups@[k])
                && consistent(traces@, cross_table_lookups@[k], views(extra_memory_looking_values@)),
        decreases cross_table_lookups@.len() - i,
    {
        let r = check_ctl(traces, &cross_table_lookups[i], i, extra_memory_looking_values);
        match r {
            Ok(()) => {},
            Err(e) => {
                return Err(e);
            },
        }
        i = i + 1;
    }
    Ok(())
}

} // verus!
