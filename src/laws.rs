//! Properties that tie the pieces of the argument together.

use vstd::prelude::*;
use crate::field::{Felt, fmul, modulus, lemma_fmul_one, lemma_fmul_assoc, lemma_fmul_comm};
use crate::table::{CrossTableLookup, Table, NUM_TABLES};
use crate::ctl_data::{CtlZData, table_data_ok, looking_ok, looked_ok};
use crate::cross_check::{looking_product, looking_pos, looked_pos, lookup_holds, all_hold};
use crate::oracle::{filtered_rows, rows_of, count_of, looking_side, looked_side, consistent, lookup_binary,
    lookup_fits, table_binary, table_fits, takes_extra};
use crate::column::{Column, table_wf, height, table_row, next_table_row};
use crate::challenge::{GrandProductChallenge, combine_spec};
use crate::zpoly::{payload, filter_value, select, z_at, binary_at, lemma_z_canonical};
use crate::constraints::{frame_select, frame_payload, frame_filter, select_expr, last_row_residual,
    transition_residual};

verus! {

/// On a 0/1 filter, `filter · combined + 1 − filter` passes the combined value through
/// where the filter is 1 and 1 where it is 0.
pub proof fn lemma_select_expr_binary(filter: int, combined: int)
    requires
        filter == 0 || filter == 1,
        0 <= combined < modulus(),
    ensures
        select_expr(filter, combined) == if filter == 1 { combined } else { 1 },
{
    let p = modulus();
    vstd::arithmetic::div_mod::lemma_small_mod(1, p as nat);
    if filter == 1 {
        lemma_fmul_one(combined);
        if combined + 1 < p {
            vstd::arithmetic::div_mod::lemma_small_mod((combined + 1) as nat, p as nat);
            assert(combined + 1 - 1 + p == combined + p);
            vstd::arithmetic::div_mod::lemma_mod_add_multiples_vanish(combined, p);
            vstd::arithmetic::div_mod::lemma_small_mod(combined as nat, p as nat);
        } else {
            vstd::arithmetic::div_mod::lemma_mod_self_0(p);
            vstd::arithmetic::div_mod::lemma_small_mod((p - 1) as nat, p as nat);
        }
    } else {
        assert(0 * combined == 0);
        vstd::arithmetic::div_mod::lemma_small_mod(0, p as nat);
        assert(1 - 0 + p == 1 + p);
        vstd::arithmetic::div_mod::lemma_mod_add_multiples_vanish(1, p);
    }
}

/// On a table's own rows, the frame that the constraints read selects what the Z builder
/// multiplies in.
pub proof fn lemma_frame_select_matches(
    table: Seq<Vec<Felt>>,
    cols: Seq<Column>,
    filter: Option<Column>,
    ch: GrandProductChallenge<Felt>,
    i: int,
)
    requires
        table_wf(table),
        0 <= i < height(table),
        binary_at(table, filter, i),
    ensures
        frame_select(cols, filter, ch, table_row(table, i), next_table_row(table, i)) == select(
            table,
            cols,
            filter,
            ch,
            i,
        ),
{
    let cur = table_row(table, i);
    let next = next_table_row(table, i);
    assert(frame_payload(cols, cur, next) =~= payload(table, cols, i));
    assert(frame_filter(filter, cur, next) == filter_value(table, filter, i));
    lemma_select_expr_binary(filter_value(table, filter, i), combine_spec(ch, payload(table, cols, i)));
}

/// A Z sequence as the builder makes it satisfies both constraints: on the last row the
/// boundary residual vanishes, and on every other row the transition residual vanishes,
/// i.e. `Z[i] = Z[i+1] · select(i)` read back through the constraint's own formula.
pub proof fn lemma_z_satisfies_constraints(
    table: Seq<Vec<Felt>>,
    cols: Seq<Column>,
    filter: Option<Column>,
    ch: GrandProductChallenge<Felt>,
    i: int,
)
    requires
        table_wf(table),
        0 <= i < height(table),
        binary_at(table, filter, i),
    ensures
        ({
            let s = frame_select(cols, filter, ch, table_row(table, i), next_table_row(table, i));
            &&& i == height(table) - 1 ==> last_row_residual(z_at(table, cols, filter, ch, i), s) == 0
            &&& i < height(table) - 1 ==> transition_residual(
                z_at(table, cols, filter, ch, i),
                z_at(table, cols, filter, ch, i + 1),
                s,
            ) == 0
        }),
{
    lemma_frame_select_matches(table, cols, filter, ch, i);
    lemma_z_canonical(table, cols, filter, ch, i);
}

/// Z on the last row is the multiplicative identity whenever the filter leaves the last
/// row out; where the filter selects it, Z there is that row's combined value instead.
pub proof fn lemma_z_last_is_one(
    table: Seq<Vec<Felt>>,
    cols: Seq<Column>,
    filter: Option<Column>,
    ch: GrandProductChallenge<Felt>,
)
    requires
        table_wf(table),
        height(table) > 0,
        filter_value(table, filter, height(table) - 1) == 0,
    ensures
        z_at(table, cols, filter, ch, height(table) - 1) == 1,
{
}

/// The Z recurrence: each row's Z is the next row's Z times what the row selects.
pub proof fn lemma_z_recurrence(
    table: Seq<Vec<Felt>>,
    cols: Seq<Column>,
    filter: Option<Column>,
    ch: GrandProductChallenge<Felt>,
    i: int,
)
    requires
        table_wf(table),
        0 <= i < height(table) - 1,
    ensures
        z_at(table, cols, filter, ch, i) == fmul(
            z_at(table, cols, filter, ch, i + 1),
            select(table, cols, filter, ch, i),
        ),
{
}

/// The product of the combined values of `rows`.
pub open spec fn prod_rows(rows: Seq<Seq<Felt>>, ch: GrandProductChallenge<Felt>) -> int
    decreases rows.len(),
{
    if rows.len() == 0 {
        1
    } else {
        fmul(prod_rows(rows.drop_last(), ch), combine_spec(ch, rows.last()))
    }
}

proof fn lemma_prod_rows_canonical(rows: Seq<Seq<Felt>>, ch: GrandProductChallenge<Felt>)
    ensures
        0 <= prod_rows(rows, ch) < modulus(),
    decreases rows.len(),
{
    if rows.len() > 0 {
        lemma_prod_rows_canonical(rows.drop_last(), ch);
    }
}

/// The product over a concatenation is the product of the products.
proof fn lemma_prod_rows_append(a: Seq<Seq<Felt>>, b: Seq<Seq<Felt>>, ch: GrandProductChallenge<Felt>)
    ensures
        prod_rows(a + b, ch) == fmul(prod_rows(a, ch), prod_rows(b, ch)),
    decreases b.len(),
{
    lemma_prod_rows_canonical(a, ch);
    if b.len() == 0 {
        assert(a + b =~= a);
        lemma_fmul_one(prod_rows(a, ch));
    } else {
        assert((a + b).drop_last() =~= a + b.drop_last());
        assert((a + b).last() == b.last());
        lemma_prod_rows_append(a, b.drop_last(), ch);
        lemma_fmul_assoc(prod_rows(a, ch), prod_rows(b.drop_last(), ch), combine_spec(ch, b.last()));
    }
}

/// Taking one row out of the middle divides its value out of the product.
proof fn lemma_prod_rows_remove(b: Seq<Seq<Felt>>, i: int, ch: GrandProductChallenge<Felt>)
    requires
        0 <= i < b.len(),
    ensures
        prod_rows(b, ch) == fmul(prod_rows(b.remove(i), ch), combine_spec(ch, b[i])),
    decreases b.len(),
{
    if i == b.len() - 1 {
        assert(b.remove(i) =~= b.drop_last());
    } else {
        let init = b.drop_last();
        assert(b.remove(i).drop_last() =~= init.remove(i));
        assert(b.remove(i).last() == b.last());
        lemma_prod_rows_remove(init, i, ch);
        let p = prod_rows(init.remove(i), ch);
        let x = combine_spec(ch, b[i]);
        let y = combine_spec(ch, b.last());
        lemma_fmul_assoc(p, x, y);
        lemma_fmul_comm(x, y);
        lemma_fmul_assoc(p, y, x);
    }
}

proof fn lemma_count_remove(b: Seq<Seq<Felt>>, i: int, y: Seq<Felt>)
    requires
        0 <= i < b.len(),
    ensures
        count_of(b.remove(i), y) + (if b[i] == y { 1int } else { 0int }) == count_of(b, y),
    decreases b.len(),
{
    if i == b.len() - 1 {
        assert(b.remove(i) =~= b.drop_last());
    } else {
        let init = b.drop_last();
        assert(b.remove(i).drop_last() =~= init.remove(i));
        assert(b.remove(i).last() == b.last());
        lemma_count_remove(init, i, y);
    }
}

/// Two lists of rows that hold every row equally often have the same product.
pub proof fn lemma_prod_rows_multiset(a: Seq<Seq<Felt>>, b: Seq<Seq<Felt>>, ch: GrandProductChallenge<Felt>)
    requires
        forall|x: Seq<Felt>| count_of(a, x) == count_of(b, x),
    ensures
        prod_rows(a, ch) == prod_rows(b, ch),
    decreases a.len(),
{
    if a.len() == 0 {
        if b.len() > 0 {
            assert(count_of(b.drop_last(), b.last()) >= 0);
            assert(count_of(b, b.last()) > 0);
        }
    } else {
        let x = a.last();
        assert(count_of(a, x) > 0);
        crate::oracle::lemma_count_positive(b, x);
        let i = choose|i: int| 0 <= i < b.len() && b[i] == x;
        let b2 = b.remove(i);
        assert forall|y: Seq<Felt>| count_of(a.drop_last(), y) == count_of(b2, y) by {
            lemma_count_remove(b, i, y);
        }
        lemma_prod_rows_multiset(a.drop_last(), b2, ch);
        lemma_prod_rows_remove(b, i, ch);
    }
}

/// The first-row Z value of a table is the product of the combined values of its
/// filtered rows.
proof fn lemma_z_first_is_product(
    table: Seq<Vec<Felt>>,
    tw: crate::table::TableWithColumns,
    ch: GrandProductChallenge<Felt>,
    n: int,
)
    requires
        table_wf(table),
        height(table) > 0,
        0 <= n <= height(table),
        forall|i: int| 0 <= i < height(table) ==> binary_at(table, tw.filter_column, i),
    ensures
        z_at(table, tw.columns@, tw.filter_column, ch, 0) == fmul(
            prod_rows(filtered_rows(table, tw, n), ch),
            if n < height(table) { z_at(table, tw.columns@, tw.filter_column, ch, n) } else { 1 },
        ),
    decreases n,
{
    let cols = tw.columns@;
    let filt = tw.filter_column;
    let h = height(table);
    if n == 0 {
        lemma_z_canonical(table, cols, filt, ch, 0);
        lemma_fmul_one(z_at(table, cols, filt, ch, 0));
    } else {
        lemma_z_first_is_product(table, tw, ch, n - 1);
        let m = n - 1;
        let prev = prod_rows(filtered_rows(table, tw, m), ch);
        let tail = if n < h { z_at(table, cols, filt, ch, n) } else { 1 };
        let s = select(table, cols, filt, ch, m);
        lemma_prod_rows_canonical(filtered_rows(table, tw, m), ch);
        if n < h {
            lemma_z_canonical(table, cols, filt, ch, n);
        }
        assert(z_at(table, cols, filt, ch, m) == fmul(tail, s)) by {
            if n >= h {
                lemma_fmul_one(s);
                if filter_value(table, filt, m) == 1 {
                    crate::column::lemma_fadd_canonical(reduce_of(ch, payload(table, cols, m)), ch.gamma@);
                }
            }
        }
        if filter_value(table, filt, m) == 1 {
            let fr = filtered_rows(table, tw, m);
            let row = payload(table, cols, m);
            assert(filtered_rows(table, tw, n) == fr.push(row));
            assert(fr.push(row).drop_last() =~= fr);
            assert(prod_rows(fr.push(row), ch) == fmul(prev, s));
            lemma_fmul_comm(tail, s);
            lemma_fmul_assoc(prev, s, tail);
        } else {
            lemma_fmul_one(tail);
            if n >= h {
                lemma_fmul_one(prev);
            }
        }
    }
}

spec fn reduce_of(ch: GrandProductChallenge<Felt>, vals: Seq<Felt>) -> int {
    crate::challenge::reduce(vals, ch.beta@)
}

/// Every table of the lookup has at least one row, so that its Z sequence has a first value.
pub open spec fn lookup_nonempty(traces: Seq<Vec<Vec<Felt>>>, ctl: CrossTableLookup) -> bool {
    &&& height(traces[ctl.looked_table.table.idx()]@) > 0
    &&& forall|j: int|
        0 <= j < ctl.looking_tables@.len() ==> height(traces[(#[trigger] ctl.looking_tables@[j]).table.idx()]@) > 0
}

/// The product of the first-row Z values of the first `j` looking tables.
pub open spec fn looking_z_product(
    traces: Seq<Vec<Vec<Felt>>>,
    ctl: CrossTableLookup,
    ch: GrandProductChallenge<Felt>,
    j: int,
) -> int
    decreases j,
{
    if j <= 0 {
        1
    } else {
        let tw = ctl.looking_tables@[j - 1];
        fmul(
            looking_z_product(traces, ctl, ch, j - 1),
            z_at(traces[tw.table.idx()]@, tw.columns@, tw.filter_column, ch, 0),
        )
    }
}

proof fn lemma_looking_product_rows(
    traces: Seq<Vec<Vec<Felt>>>,
    ctl: CrossTableLookup,
    ch: GrandProductChallenge<Felt>,
    j: int,
)
    requires
        traces.len() == NUM_TABLES,
        lookup_fits(traces, ctl),
        lookup_binary(traces, ctl),
        lookup_nonempty(traces, ctl),
        0 <= j <= ctl.looking_tables@.len(),
    ensures
        looking_z_product(traces, ctl, ch, j) == prod_rows(rows_of(traces, ctl.looking_tables@.subrange(0, j)), ch),
    decreases j,
{
    let tables = ctl.looking_tables@.subrange(0, j);
    if j > 0 {
        lemma_looking_product_rows(traces, ctl, ch, j - 1);
        let tw = ctl.looking_tables@[j - 1];
        assert(tables.drop_last() =~= ctl.looking_tables@.subrange(0, j - 1));
        assert(tables.last() == tw);
        assert(table_fits(traces, ctl.looking_tables@[j - 1]));
        assert(table_binary(traces, ctl.looking_tables@[j - 1]));
        assert(height(traces[ctl.looking_tables@[j - 1].table.idx()]@) > 0);
        let trace = traces[tw.table.idx()]@;
        lemma_z_first_is_product(trace, tw, ch, height(trace));
        lemma_prod_rows_canonical(filtered_rows(trace, tw, height(trace)), ch);
        lemma_fmul_one(prod_rows(filtered_rows(trace, tw, height(trace)), ch));
        lemma_prod_rows_append(rows_of(traces, tables.drop_last()), filtered_rows(trace, tw, height(trace)), ch);
    } else {
        assert(tables =~= Seq::<crate::table::TableWithColumns>::empty());
    }
}

/// Where a lookup's two sides hold the same rows equally often and every filter is 0/1,
/// the first-row Z values satisfy the cross-table identity for every challenge: the
/// product over the looking tables, times the product of the extra rows' combined values
/// where the lookup takes them, equals the looked table's value.
pub proof fn lemma_consistent_lookup_products_agree(
    traces: Seq<Vec<Vec<Felt>>>,
    ctl: CrossTableLookup,
    extra: Seq<Seq<Felt>>,
    ch: GrandProductChallenge<Felt>,
)
    requires
        traces.len() == NUM_TABLES,
        lookup_fits(traces, ctl),
        lookup_binary(traces, ctl),
        lookup_nonempty(traces, ctl),
        consistent(traces, ctl, extra),
    ensures
        fmul(
            looking_z_product(traces, ctl, ch, ctl.looking_tables@.len() as int),
            if takes_extra(ctl) { prod_rows(extra, ch) } else { 1 },
        ) == z_at(
            traces[ctl.looked_table.table.idx()]@,
            ctl.looked_table.columns@,
            ctl.looked_table.filter_column,
            ch,
            0,
        ),
{
    let looking = ctl.looking_tables@;
    lemma_looking_product_rows(traces, ctl, ch, looking.len() as int);
    assert(looking.subrange(0, looking.len() as int) =~= looking);
    let e = if takes_extra(ctl) { extra } else { Seq::<Seq<Felt>>::empty() };
    lemma_prod_rows_append(rows_of(traces, looking), e, ch);
    lemma_prod_rows_multiset(looking_side(traces, ctl, extra), looked_side(traces, ctl), ch);
    let tw = ctl.looked_table;
    let trace = traces[tw.table.idx()]@;
    let one = seq![tw];
    assert(one.len() == 1 && one.last() == tw);
    assert(one.drop_last() =~= Seq::<crate::table::TableWithColumns>::empty());
    assert(rows_of(traces, one.drop_last()) == Seq::<Seq<Felt>>::empty());
    assert(looked_side(traces, ctl) =~= Seq::<Seq<Felt>>::empty() + filtered_rows(trace, tw, height(trace)));
    assert(Seq::<Seq<Felt>>::empty() + filtered_rows(trace, tw, height(trace)) =~= filtered_rows(trace, tw, height(trace)));
    lemma_z_first_is_product(trace, tw, ch, height(trace));
    lemma_prod_rows_canonical(filtered_rows(trace, tw, height(trace)), ch);
    lemma_fmul_one(prod_rows(filtered_rows(trace, tw, height(trace)), ch));
}

/// `zs_first` holds the first value of each Z sequence in `data`, table by table.
pub open spec fn first_values(data: Seq<Seq<CtlZData>>, zs_first: Seq<Vec<Felt>>) -> bool {
    &&& zs_first.len() == data.len()
    &&& forall|t: int, p: int|
        0 <= t < data.len() && 0 <= p < data[t].len() ==> zs_first[t]@.len() == data[t].len() && (
        #[trigger] zs_first[t]@[p]) == data[t][p].z@[0]
}

proof fn lemma_looking_product_honest(
    traces: Seq<Vec<Vec<Felt>>>,
    ctls: Seq<CrossTableLookup>,
    chs: Seq<GrandProductChallenge<Felt>>,
    data: Seq<Seq<CtlZData>>,
    zs_first: Seq<Vec<Felt>>,
    k: int,
    c: int,
    j: int,
)
    requires
        traces.len() == NUM_TABLES,
        data.len() == NUM_TABLES,
        forall|t: int| 0 <= t < NUM_TABLES ==> table_data_ok(traces, ctls, chs, Table::at(t), #[trigger] data[t]),
        first_values(data, zs_first),
        0 <= k < ctls.len(),
        0 <= c < chs.len(),
        0 <= j <= ctls[k].looking_tables@.len(),
        lookup_fits(traces, ctls[k]),
        lookup_nonempty(traces, ctls[k]),
    ensures
        looking_product(ctls, zs_first, k, c, j, chs.len() as int) == looking_z_product(traces, ctls[k], chs[c], j),
    decreases j,
{
    if j > 0 {
        lemma_looking_product_honest(traces, ctls, chs, data, zs_first, k, c, j - 1);
        let tw = ctls[k].looking_tables@[j - 1];
        let t = tw.table;
        t.lemma_at_idx();
        assert(table_data_ok(traces, ctls, chs, Table::at(t.idx()), data[t.idx()]));
        assert(looking_ok(traces, ctls, chs, data[t.idx()], k, c, j - 1));
        assert(table_fits(traces, ctls[k].looking_tables@[j - 1]));
        assert(height(traces[ctls[k].looking_tables@[j - 1].table.idx()]@) > 0);
        let p = looking_pos(ctls, k, c, j - 1, chs.len() as int);
        assert(zs_first[t.idx()]@[p] == data[t.idx()][p].z@[0]);
    }
}

/// What an honest prover hands over passes the cross-table check: where every lookup's
/// two sides hold the same rows equally often, every filter is 0/1, the Z sequences are
/// those that the prover builds, and each extra product is that of the extra rows' combined
/// values (1 for the lookups that take no extra rows), every lookup holds for every
/// challenge.
pub proof fn lemma_honest_openings_verify(
    traces: Seq<Vec<Vec<Felt>>>,
    ctls: Seq<CrossTableLookup>,
    chs: Seq<GrandProductChallenge<Felt>>,
    data: Seq<Seq<CtlZData>>,
    zs_first: Seq<Vec<Felt>>,
    extra_products: Seq<Vec<Felt>>,
    extra_rows: Seq<Seq<Felt>>,
)
    requires
        traces.len() == NUM_TABLES,
        data.len() == NUM_TABLES,
        forall|t: int| 0 <= t < NUM_TABLES ==> table_data_ok(traces, ctls, chs, Table::at(t), #[trigger] data[t]),
        first_values(data, zs_first),
        forall|k: int| 0 <= k < ctls.len() ==> lookup_fits(traces, #[trigger] ctls[k]),
        forall|k: int| 0 <= k < ctls.len() ==> lookup_binary(traces, #[trigger] ctls[k]),
        forall|k: int| 0 <= k < ctls.len() ==> lookup_nonempty(traces, #[trigger] ctls[k]),
        forall|k: int| 0 <= k < ctls.len() ==> consistent(traces, #[trigger] ctls[k], extra_rows),
        forall|k: int, c: int|
            0 <= k < ctls.len() && 0 <= c < chs.len() ==> (#[trigger] extra_products[ctls[k].looked_table.table.idx()]@[c])@
                == if takes_extra(ctls[k]) { prod_rows(extra_rows, chs[c]) } else { 1 },
    ensures
        all_hold(ctls, zs_first, extra_products, chs.len() as int),
{
    let nc = chs.len() as int;
    assert forall|k: int, c: int| 0 <= k < ctls.len() && 0 <= c < nc implies lookup_holds(
        ctls,
        zs_first,
        extra_products,
        k,
        c,
        nc,
    ) by {
        let ctl = ctls[k];
        let n = ctl.looking_tables@.len() as int;
        lemma_looking_product_honest(traces, ctls, chs, data, zs_first, k, c, n);
        lemma_consistent_lookup_products_agree(traces, ctl, extra_rows, chs[c]);
        let t = ctl.looked_table.table;
        t.lemma_at_idx();
        assert(table_data_ok(traces, ctls, chs, Table::at(t.idx()), data[t.idx()]));
        assert(looked_ok(traces, ctls, chs, data[t.idx()], k, c));
        let p = looked_pos(ctls, k, c, nc);
        assert(zs_first[t.idx()]@[p] == data[t.idx()][p].z@[0]);
        assert(table_fits(traces, ctl.looked_table));
        let e = extra_products[t.idx()]@[c];
        assert(e@ == if takes_extra(ctls[k]) { prod_rows(extra_rows, chs[c]) } else { 1 });
    }
}

} // verus!
