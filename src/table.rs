//! The tables of the proof system and the lookups between them.

use vstd::prelude::*;
use crate::column::Column;

verus! {

/// The number of tables.
pub const NUM_TABLES: usize = 7;

/// The sub-machines of the proof system, in proof-layout order.
#[derive(Clone, Copy, Debug, PartialEq, Eq, Structural, Hash)]
pub enum Table {
    Arithmetic,
    BytePacking,
    Cpu,
    Keccak,
    KeccakSponge,
    Logic,
    Memory,
}

impl Table {
    /// The position of the table in proof-layout order.
    pub open spec fn idx(self) -> int {
        match self {
            Table::Arithmetic => 0,
            Table::BytePacking => 1,
            Table::Cpu => 2,
            Table::Keccak => 3,
            Table::KeccakSponge => 4,
            Table::Logic => 5,
            Table::Memory => 6,
        }
    }

    /// The table at position `i` in proof-layout order.
    pub open spec fn at(i: int) -> Table {
        if i == 0 {
            Table::Arithmetic
        } else if i == 1 {
            Table::BytePacking
        } else if i == 2 {
            Table::Cpu
        } else if i == 3 {
            Table::Keccak
        } else if i == 4 {
            Table::KeccakSponge
        } else if i == 5 {
            Table::Logic
        } else {
            Table::Memory
        }
    }

    pub proof fn lemma_at_idx(self)
        ensures
            Table::at(self.idx()) == self,
            0 <= self.idx() < NUM_TABLES,
    {
    }

    /// The table at position `i` in proof-layout order.
    pub fn from_index(i: usize) -> (r: Table)
        requires
            i < NUM_TABLES,
        ensures
            r == Table::at(i as int),
            r.idx() == i,
    {
        if i == 0 {
            Table::Arithmetic
        } else if i == 1 {
            Table::BytePacking
        } else if i == 2 {
            Table::Cpu
        } else if i == 3 {
            Table::Keccak
        } else if i == 4 {
            Table::KeccakSponge
        } else if i == 5 {
            Table::Logic
        } else {
            Table::Memory
        }
    }

    pub fn index(self) -> (r: usize)
        ensures
            r == self.idx(),
            r < NUM_TABLES,
    {
        match self {
            Table::Arithmetic => 0,
            Table::BytePacking => 1,
            Table::Cpu => 2,
            Table::Keccak => 3,
            Table::KeccakSponge => 4,
            Table::Logic => 5,
            Table::Memory => 6,
        }
    }
}

/// One table's payload columns and its optional 0/1 filter.
#[derive(Clone, Debug)]
pub struct TableWithColumns {
    pub table: Table,
    pub columns: Vec<Column>,
    pub filter_column: Option<Column>,
}

impl TableWithColumns {
    /// Every combination is well formed.
    pub open spec fn wf(&self) -> bool {
        &&& forall|i: int| 0 <= i < self.columns@.len() ==> (#[trigger] self.columns@[i]).wf()
        &&& self.filter_column matches Some(f) ==> f.wf()
    }

    /// Every combination reads only columns below `width`.
    pub open spec fn fits(&self, width: int) -> bool {
        &&& forall|i: int| 0 <= i < self.columns@.len() ==> (#[trigger] self.columns@[i]).fits(width)
        &&& self.filter_column matches Some(f) ==> f.fits(width)
    }

    pub fn new(table: Table, columns: Vec<Column>, filter_column: Option<Column>) -> (r: Self)
        ensures
            r.table == table,
            r.columns == columns,
            r.filter_column == filter_column,
    {
        TableWithColumns { table, columns, filter_column }
    }
}

/// The claim that the filtered payload rows of the looking tables, taken together, are the
/// filtered payload rows of the looked table, as multisets.
#[derive(Clone, Debug)]
pub struct CrossTableLookup {
    pub looking_tables: Vec<TableWithColumns>,
    pub looked_table: TableWithColumns,
}

/// The number of entries of `tables` that belong to table `t`.
pub open spec fn occurrences(tables: Seq<TableWithColumns>, t: Table) -> nat
    decreases tables.len(),
{
    if tables.len() == 0 {
        0
    } else {
        occurrences(tables.drop_last(), t) + if tables.last().table == t { 1nat } else { 0nat }
    }
}

impl CrossTableLookup {
    /// Every looking table has the looked table's payload width.
    pub open spec fn same_width(&self) -> bool {
        forall|i: int|
            0 <= i < self.looking_tables@.len() ==> (#[trigger] self.looking_tables@[i]).columns@.len()
                == self.looked_table.columns@.len()
    }

    /// Same widths, every combination well formed.
    pub open spec fn wf(&self) -> bool {
        &&& self.same_width()
        &&& self.looked_table.wf()
        &&& forall|i: int| 0 <= i < self.looking_tables@.len() ==> (#[trigger] self.looking_tables@[i]).wf()
    }

    /// How many of the lookup's tables, looking or looked, are table `t`.
    pub open spec fn uses(&self, t: Table) -> nat {
        occurrences(self.looking_tables@, t) + if self.looked_table.table == t { 1nat } else { 0nat }
    }

    /// A lookup of `looked_table` by `looking_tables`, all of one payload width.
    pub fn new(looking_tables: Vec<TableWithColumns>, looked_table: TableWithColumns) -> (r: Self)
        requires
            forall|i: int|
                0 <= i < looking_tables@.len() ==> (#[trigger] looking_tables@[i]).columns@.len()
                    == looked_table.columns@.len(),
        ensures
            r.looking_tables == looking_tables,
            r.looked_table == looked_table,
            r.same_width(),
    {
        CrossTableLookup { looking_tables, looked_table }
    }

    /// The number of Z sequences that table `t` commits to: one per challenge for each
    /// place that it takes in a lookup.
    pub fn num_ctl_zs(ctls: &[CrossTableLookup], table: Table, num_challenges: usize) -> (r: usize)
        requires
            uses_total(ctls@, table) * num_challenges <= usize::MAX,
        ensures
            r == uses_total(ctls@, table) * num_challenges,
    {
        if num_challenges == 0 {
            return 0;
        }
        assert(uses_total(ctls@, table) <= uses_total(ctls@, table) * num_challenges) by (nonlinear_arith)
            requires
                num_challenges >= 1,
        ;
        let n = count_uses(ctls, table);
        n * num_challenges
    }
}

/// How many places table `t` takes in all of `ctls`.
pub open spec fn uses_total(ctls: Seq<CrossTableLookup>, t: Table) -> nat
    decreases ctls.len(),
{
    if ctls.len() == 0 {
        0
    } else {
        uses_total(ctls.drop_last(), t) + ctls.last().uses(t)
    }
}

pub proof fn lemma_uses_total_prefix(ctls: Seq<CrossTableLookup>, t: Table, k: int)
    requires
        0 <= k <= ctls.len(),
    ensures
        uses_total(ctls.subrange(0, k), t) <= uses_total(ctls, t),
    decreases ctls.len() - k,
{
    if k < ctls.len() {
        lemma_uses_total_prefix(ctls, t, k + 1);
        assert(ctls.subrange(0, k + 1).drop_last() =~= ctls.subrange(0, k));
    } else {
        assert(ctls.subrange(0, k) =~= ctls);
    }
}

pub proof fn lemma_occurrences_prefix(tables: Seq<TableWithColumns>, t: Table, k: int)
    requires
        0 <= k <= tables.len(),
    ensures
        occurrences(tables.subrange(0, k), t) <= occurrences(tables, t),
    decreases tables.len() - k,
{
    if k < tables.len() {
        lemma_occurrences_prefix(tables, t, k + 1);
        assert(tables.subrange(0, k + 1).drop_last() =~= tables.subrange(0, k));
    } else {
        assert(tables.subrange(0, k) =~= tables);
    }
}

/// Counts the places of `table` in the looking tables of one lookup.
fn count_in(tables: &Vec<TableWithColumns>, table: Table) -> (r: usize)
    ensures
        r == occurrences(tables@, table),
{
    let mut n: usize = 0;
    let mut i: usize = 0;
    while i < tables.len()
        invariant
            i <= tables@.len(),
            n == occurrences(tables@.subrange(0, i as int), table),
            n <= i,
        decreases tables@.len() - i,
    {
        assert(tables@.subrange(0, i + 1).drop_last() =~= tables@.subrange(0, i as int));
        if tables[i].table == table {
            n = n + 1;
        }
        i = i + 1;
    }
    assert(tables@.subrange(0, tables@.len() as int) =~= tables@);
    n
}

/// Counts the places of `table` in all of `ctls`.
fn count_uses(ctls: &[CrossTableLookup], table: Table) -> (r: usize)
    requires
        uses_total(ctls@, table) <= usize::MAX,
    ensures
        r == uses_total(ctls@, table),
{
    let mut n: usize = 0;
    let mut i: usize = 0;
    while i < ctls.len()
        invariant
            i <= ctls@.len(),
            uses_total(ctls@, table) <= usize::MAX,
            n == uses_total(ctls@.subrange(0, i as int), table),
        decreases ctls@.len() - i,
    {
        assert(ctls@.subrange(0, i + 1).drop_last() =~= ctls@.subrange(0, i as int));
        proof { lemma_uses_total_prefix(ctls@, table, i + 1); }
        let k = count_in(&ctls[i].looking_tables, table);
        let extra: usize = if ctls[i].looked_table.table == table { 1 } else { 0 };
        n = n + k + extra;
        i = i + 1;
    }
    assert(ctls@.subrange(0, ctls@.len() as int) =~= ctls@);
    n
}

} // verus!
