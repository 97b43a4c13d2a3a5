use ctl::challenge::{get_grand_product_challenge_set, GrandProductChallenge, GrandProductChallengeSet};
use ctl::codec::{Buffer, IoError, Target};
use ctl::column::Column;
use ctl::constraints::{eval_cross_table_lookup_checks, CtlCheckVars};
use ctl::cross_check::verify_cross_table_lookups;
use ctl::ctl_data::{cross_table_lookup_data, CtlData};
use ctl::error::CtlError;
use ctl::field::{Felt, MODULUS};
use ctl::membus::eval_packed;
use ctl::oracle::{check_ctls, OracleError};
use ctl::table::{CrossTableLookup, Table, TableWithColumns, NUM_TABLES};
use ctl::zpoly::partial_products;

fn f(n: u64) -> Felt {
    Felt::from_u64(n)
}

fn col(vals: &[u64]) -> Vec<Felt> {
    vals.iter().map(|&v| f(v)).collect()
}

/// Seven traces; the ones named get their columns, the others one zero cell.
fn traces_with(entries: Vec<(Table, Vec<Vec<Felt>>)>) -> Vec<Vec<Vec<Felt>>> {
    let mut traces: Vec<Vec<Vec<Felt>>> = (0..NUM_TABLES).map(|_| vec![vec![f(0)]]).collect();
    for (t, cols) in entries {
        traces[t.index()] = cols;
    }
    traces
}

fn challenge(beta: u64, gamma: u64) -> GrandProductChallenge<Felt> {
    GrandProductChallenge { beta: f(beta), gamma: f(gamma) }
}

fn challenge_set(pairs: &[(u64, u64)]) -> GrandProductChallengeSet<Felt> {
    GrandProductChallengeSet { challenges: pairs.iter().map(|&(b, g)| challenge(b, g)).collect() }
}

fn one_column_table(t: Table) -> TableWithColumns {
    TableWithColumns::new(t, vec![Column::single(0)], Some(Column::single(1)))
}

fn example_lookup() -> CrossTableLookup {
    CrossTableLookup::new(vec![one_column_table(Table::Cpu)], one_column_table(Table::Logic))
}

fn example_traces(looked_last: u64) -> Vec<Vec<Vec<Felt>>> {
    traces_with(vec![
        (Table::Cpu, vec![col(&[5, 9, 5, 1]), col(&[1, 0, 1, 1])]),
        (Table::Logic, vec![col(&[5, 5, looked_last]), col(&[1, 1, 1])]),
    ])
}

fn first_openings(data: &[CtlData]) -> Vec<Vec<Felt>> {
    data.iter().map(|d| d.zs_columns.iter().map(|z| z.z[0]).collect()).collect()
}

fn unit_extras(nc: usize) -> Vec<Vec<Felt>> {
    (0..NUM_TABLES).map(|_| vec![f(1); nc]).collect()
}

fn prove_and_verify(traces: &Vec<Vec<Vec<Felt>>>, ctls: &[CrossTableLookup], set: &GrandProductChallengeSet<Felt>) -> Result<(), CtlError> {
    let data = cross_table_lookup_data(traces, ctls, set)?;
    let nc = set.challenges.len();
    verify_cross_table_lookups(ctls, &first_openings(&data), &unit_extras(nc), nc)
}

#[test]
fn field_operations_wrap_around() {
    assert_eq!(f(MODULUS).value, 0);
    assert_eq!(f(MODULUS + 5).value, 5);
    assert_eq!(f(3).sub(f(5)).value, MODULUS - 2);
    assert_eq!(f(MODULUS - 1).add(f(3)).value, 2);
    assert_eq!(f(MODULUS - 1).mul(f(MODULUS - 1)).value, 1);
    assert_eq!(f(1 << 32).mul(f(1 << 32)).value, (1u64 << 32) - 1);
}

#[test]
fn column_evaluations() {
    let row = col(&[3, 4, 5]);
    let next = col(&[10, 20, 30]);
    assert_eq!(Column::single(1).eval(&row).value, 4);
    assert_eq!(Column::single_next_row(2).eval_with_next(&row, &next).value, 30);
    assert_eq!(Column::constant(f(7)).eval(&row).value, 7);
    assert_eq!(Column::zero().eval(&row).value, 0);
    assert_eq!(Column::one().eval(&row).value, 1);
    let lc = Column::linear_combination_with_constant(vec![(0, f(2)), (2, f(3))], f(1));
    assert_eq!(lc.eval(&row).value, 2 * 3 + 3 * 5 + 1);
    let both = Column::linear_combination_and_next_row_with_constant(vec![(0, f(1))], vec![(1, f(2))], f(5));
    assert_eq!(both.eval_with_next(&row, &next).value, 3 + 40 + 5);
    assert_eq!(Column::linear_combination(vec![(1, f(10))]).eval(&row).value, 40);
}

#[test]
fn bit_byte_and_sum_columns() {
    let row = col(&[1, 0, 1, 1]);
    assert_eq!(Column::le_bits(&[0, 1, 2, 3]).eval(&row).value, 1 + 4 + 8);
    let bytes = col(&[0x34, 0x12]);
    assert_eq!(Column::le_bytes(&[0, 1]).eval(&bytes).value, 0x1234);
    assert_eq!(Column::sum(&[0, 2, 3]).eval(&row).value, 3);
    assert_eq!(Column::singles(&[2, 0]).len(), 2);
    assert_eq!(Column::singles(&[2, 0])[0].eval(&row).value, 1);
    assert_eq!(Column::singles_next_row(&[3])[0].eval_with_next(&bytes, &row).value, 1);
}

#[test]
fn eval_table_reads_zero_after_last_row() {
    let trace = vec![col(&[1, 2, 3])];
    let c = Column::linear_combination_and_next_row_with_constant(vec![(0, f(1))], vec![(0, f(10))], f(0));
    assert_eq!(c.eval_table(&trace, 0).value, 1 + 20);
    assert_eq!(c.eval_table(&trace, 1).value, 2 + 30);
    assert_eq!(c.eval_table(&trace, 2).value, 3);
}

#[test]
fn combine_gives_term_i_the_power_i() {
    let ch = challenge(2, 3);
    assert_eq!(ch.combine(&col(&[1, 2, 3])).value, 1 + 2 * 2 + 3 * 4 + 3);
    assert_eq!(ch.combine(&col(&[5, 7])).value, 22);
    assert_eq!(ch.combine(&[]).value, 3);
}

#[test]
fn challenges_pair_draws_in_order() {
    let set = get_grand_product_challenge_set(&col(&[1, 2, 3, 4]), 2);
    assert_eq!(set.challenges, vec![challenge(1, 2), challenge(3, 4)]);
}

#[test]
fn num_ctl_zs_counts_places_times_challenges() {
    let ctl = CrossTableLookup::new(
        vec![one_column_table(Table::Cpu), one_column_table(Table::Cpu)],
        one_column_table(Table::Memory),
    );
    let ctls = vec![ctl.clone(), example_lookup()];
    assert_eq!(CrossTableLookup::num_ctl_zs(&ctls, Table::Cpu, 3), 9);
    assert_eq!(CrossTableLookup::num_ctl_zs(&ctls, Table::Memory, 3), 3);
    assert_eq!(CrossTableLookup::num_ctl_zs(&ctls, Table::Keccak, 3), 0);
}

#[test]
fn z_sequence_of_example_table() {
    let trace = vec![col(&[5, 9, 5, 1]), col(&[1, 0, 1, 1])];
    let ch = challenge(7, 11);
    let z = partial_products(&trace, &[Column::single(0)], &Some(Column::single(1)), ch).unwrap();
    let c = |v: u64| f(v).add(f(11));
    assert_eq!(z[3], c(1));
    assert_eq!(z[2], c(1).mul(c(5)));
    assert_eq!(z[1], z[2]);
    assert_eq!(z[0], z[1].mul(c(5)));
}

#[test]
fn z_sequence_ends_in_one_when_last_row_unselected() {
    let trace = vec![col(&[4, 8, 6]), col(&[1, 1, 0])];
    let z = partial_products(&trace, &[Column::single(0)], &Some(Column::single(1)), challenge(3, 9)).unwrap();
    assert_eq!(z[2].value, 1);
    assert_eq!(z[1].value, 8 + 9);
    assert_eq!(z[0].value, (4 + 9) * (8 + 9));
}

#[test]
fn z_builder_rejects_non_binary_filter() {
    let trace = vec![col(&[4, 8, 6]), col(&[1, 2, 1])];
    let r = partial_products(&trace, &[Column::single(0)], &Some(Column::single(1)), challenge(3, 9));
    assert_eq!(r, Err(CtlError::NonBinaryFilter { row: 1 }));
}

#[test]
fn oracle_rejects_non_binary_filter() {
    let traces = traces_with(vec![
        (Table::Cpu, vec![col(&[5, 9]), col(&[1, 2])]),
        (Table::Logic, vec![col(&[5]), col(&[1])]),
    ]);
    let r = check_ctls(&traces, &[example_lookup()], &vec![]);
    assert_eq!(r, Err(OracleError::NonBinaryFilter { table: Table::Cpu, row: 1 }));
}

#[test]
fn end_to_end_example() {
    let traces = example_traces(1);
    let ctls = vec![example_lookup()];
    let set = challenge_set(&[(7, 11), (13, 17)]);
    assert_eq!(check_ctls(&traces, &ctls, &vec![]), Ok(()));
    let data = cross_table_lookup_data(&traces, &ctls, &set).unwrap();
    assert_eq!(data[Table::Cpu.index()].len(), 2);
    assert_eq!(data[Table::Logic.index()].len(), 2);
    assert!(data[Table::Keccak.index()].is_empty());
    assert_eq!(data[Table::Cpu.index()].z_polys()[0].len(), 4);
    assert_eq!(prove_and_verify(&traces, &ctls, &set), Ok(()));
}

#[test]
fn end_to_end_example_mutated_fails() {
    let traces = example_traces(2);
    let ctls = vec![example_lookup()];
    let set = challenge_set(&[(7, 11), (13, 17)]);
    match check_ctls(&traces, &ctls, &vec![]) {
        Err(OracleError::Mismatch { lookup, looking_locations, looked_locations, .. }) => {
            assert_eq!(lookup, 0);
            assert_ne!(looking_locations.len(), looked_locations.len());
        }
        other => panic!("expected a mismatch, got {:?}", other),
    }
    assert_eq!(prove_and_verify(&traces, &ctls, &set), Err(CtlError::LookupMismatch { index: 0 }));
}

#[test]
fn constraints_vanish_on_built_z() {
    let trace = vec![col(&[5, 9, 5, 1]), col(&[1, 0, 1, 1])];
    let cols = vec![Column::single(0)];
    let filter = Some(Column::single(1));
    let ch = challenge(7, 11);
    let z = partial_products(&trace, &cols, &filter, ch).unwrap();
    let h = z.len();
    for i in 0..h {
        let local: Vec<Felt> = trace.iter().map(|c| c[i]).collect();
        let next: Vec<Felt> = trace.iter().map(|c| if i + 1 < h { c[i + 1] } else { f(0) }).collect();
        let next_z = if i + 1 < h { z[i + 1] } else { f(0) };
        let vars = vec![CtlCheckVars { local_z: z[i], next_z, challenges: ch, columns: &cols, filter_column: &filter }];
        let r = eval_cross_table_lookup_checks(&local, &next, &vars);
        if i + 1 < h {
            assert_eq!(r[0].1.value, 0);
        } else {
            assert_eq!(r[0].0.value, 0);
        }
    }
}

#[test]
fn constraint_residual_is_nonzero_on_wrong_z() {
    let cols = vec![Column::single(0)];
    let filter = Some(Column::single(1));
    let ch = challenge(7, 11);
    let vars = vec![CtlCheckVars { local_z: f(100), next_z: f(3), challenges: ch, columns: &cols, filter_column: &filter }];
    let r = eval_cross_table_lookup_checks(&col(&[5, 1]), &col(&[0, 0]), &vars);
    assert_eq!(r[0].0.value, 100 - 16);
    assert_eq!(r[0].1.value, MODULUS - 52);
}

#[test]
fn from_proof_reads_openings_in_order() {
    let ctls = vec![example_lookup()];
    let set = challenge_set(&[(7, 11), (13, 17)]);
    let aux = col(&[99, 1, 2]);
    let aux_next = col(&[98, 3, 4]);
    let vars = CtlCheckVars::from_proof(Table::Cpu, &aux, &aux_next, 1, &ctls, &set).unwrap();
    assert_eq!(vars.len(), 2);
    assert_eq!(vars[1].local_z, f(2));
    assert_eq!(vars[1].next_z, f(4));
    assert_eq!(vars[1].challenges, challenge(13, 17));
    let r = CtlCheckVars::from_proof(Table::Cpu, &col(&[99, 1]), &col(&[98, 3]), 1, &ctls, &set);
    assert!(matches!(r, Err(CtlError::OpeningCount { table: Table::Cpu })));
    let all: Vec<Vec<Felt>> = (0..NUM_TABLES)
        .map(|t| if t == Table::Cpu.index() || t == Table::Logic.index() { aux.clone() } else { vec![f(0)] })
        .collect();
    let skips = vec![1usize; NUM_TABLES];
    let per_table = CtlCheckVars::from_proofs(&all, &all, &ctls, &set, &skips).unwrap();
    assert_eq!(per_table[Table::Logic.index()].len(), 2);
    assert!(per_table[Table::Memory.index()].is_empty());
}

#[test]
fn verifier_rejects_wrong_opening_count() {
    let ctls = vec![example_lookup()];
    let mut zs: Vec<Vec<Felt>> = (0..NUM_TABLES).map(|_| vec![]).collect();
    zs[Table::Cpu.index()] = col(&[1, 1]);
    zs[Table::Logic.index()] = col(&[1]);
    let r = verify_cross_table_lookups(&ctls, &zs, &unit_extras(2), 2);
    assert_eq!(r, Err(CtlError::OpeningCount { table: Table::Logic }));
}

#[test]
fn verifier_folds_in_extra_products() {
    let ctls = vec![example_lookup()];
    let mut zs: Vec<Vec<Felt>> = (0..NUM_TABLES).map(|_| vec![]).collect();
    zs[Table::Cpu.index()] = col(&[3]);
    zs[Table::Logic.index()] = col(&[15]);
    let mut extra = unit_extras(1);
    extra[Table::Logic.index()] = col(&[5]);
    assert_eq!(verify_cross_table_lookups(&ctls, &zs, &extra, 1), Ok(()));
    assert_eq!(
        verify_cross_table_lookups(&ctls, &zs, &unit_extras(1), 1),
        Err(CtlError::LookupMismatch { index: 0 })
    );
}

#[test]
fn oracle_takes_extra_rows_on_memory_lookup() {
    let mut ctls: Vec<CrossTableLookup> = (0..6).map(|_| example_lookup()).collect();
    ctls.push(CrossTableLookup::new(vec![one_column_table(Table::Cpu)], one_column_table(Table::Memory)));
    let traces = traces_with(vec![
        (Table::Cpu, vec![col(&[5, 9]), col(&[1, 0])]),
        (Table::Logic, vec![col(&[5]), col(&[1])]),
        (Table::Memory, vec![col(&[5, 8]), col(&[1, 1])]),
    ]);
    assert_eq!(check_ctls(&traces, &ctls, &vec![col(&[8])]), Ok(()));
    assert!(check_ctls(&traces, &ctls, &vec![]).is_err());
}

/// A small deterministic generator for test data.
fn next_rand(state: &mut u64) -> u64 {
    *state = state.wrapping_mul(6364136223846793005).wrapping_add(1442695040888963407);
    *state >> 33
}

#[test]
fn oracle_and_products_agree_on_random_traces() {
    let mut seed: u64 = 42;
    for round in 0..20 {
        let n = 3 + (next_rand(&mut seed) % 6) as usize;
        let values: Vec<u64> = (0..n).map(|_| next_rand(&mut seed) % 5).collect();
        let mut perm: Vec<u64> = values.clone();
        for i in (1..n).rev() {
            let j = (next_rand(&mut seed) as usize) % (i + 1);
            perm.swap(i, j);
        }
        let mut looking_vals = values.clone();
        looking_vals.push(77);
        let mut looking_filter = vec![1u64; n];
        looking_filter.push(0);
        let mut looked_vals = perm.clone();
        if round % 2 == 1 {
            looked_vals[0] += 1;
        }
        let traces = traces_with(vec![
            (Table::Cpu, vec![col(&looking_vals), col(&looking_filter)]),
            (Table::Logic, vec![col(&looked_vals), col(&vec![1u64; n])]),
        ]);
        let ctls = vec![example_lookup()];
        let set = challenge_set(&[(next_rand(&mut seed), next_rand(&mut seed)), (5, 6)]);
        let oracle_ok = check_ctls(&traces, &ctls, &vec![]).is_ok();
        let products_ok = prove_and_verify(&traces, &ctls, &set).is_ok();
        assert_eq!(oracle_ok, round % 2 == 0);
        assert_eq!(products_ok, round % 2 == 0);
    }
}

#[test]
fn challenge_set_round_trip() {
    let set = GrandProductChallengeSet {
        challenges: vec![
            GrandProductChallenge {
                beta: Target::Wire { row: 3, column: 80 },
                gamma: Target::VirtualTarget { index: 1 << 40 },
            },
            GrandProductChallenge {
                beta: Target::VirtualTarget { index: 0 },
                gamma: Target::Wire { row: usize::MAX, column: 0 },
            },
        ],
    };
    let mut bytes = vec![];
    set.to_buffer(&mut bytes);
    assert_eq!(bytes.len(), 8 + 17 + 9 + 9 + 17);
    assert_eq!(&bytes[0..9], &[2, 0, 0, 0, 0, 0, 0, 0, 1]);
    bytes.push(0xaa);
    let mut buffer = Buffer::new(bytes.clone());
    let back = GrandProductChallengeSet::from_buffer(&mut buffer).unwrap();
    assert_eq!(back, set);
    assert_eq!(buffer.pos, bytes.len() - 1);
}

#[test]
fn challenge_set_decode_rejects_short_payload() {
    let mut bytes = vec![];
    let set = GrandProductChallengeSet { challenges: vec![GrandProductChallenge {
        beta: Target::VirtualTarget { index: 5 },
        gamma: Target::VirtualTarget { index: 6 },
    }] };
    set.to_buffer(&mut bytes);
    bytes[0] = 2;
    assert_eq!(GrandProductChallengeSet::from_buffer(&mut Buffer::new(bytes.clone())), Err(IoError));
    bytes[0] = 1;
    bytes[8] = 7;
    assert_eq!(GrandProductChallengeSet::from_buffer(&mut Buffer::new(bytes)), Err(IoError));
    assert_eq!(GrandProductChallengeSet::from_buffer(&mut Buffer::new(vec![0, 0, 0])), Err(IoError));
}

#[test]
fn membus_residuals() {
    let r = eval_packed(f(0), f(1), f(9), &col(&[0, 1, 2]));
    assert_eq!(r.len(), 4);
    assert_eq!(r[0].value, 0);
    assert_eq!(r[1].value, 0);
    assert_eq!(r[2].value, 0);
    assert_eq!(r[3].value, 2);
    let user = eval_packed(f(4), f(0), f(9), &[]);
    assert_eq!(user[0].value, MODULUS - 5);
}

#[test]
fn z_sequence_of_empty_trace_is_empty() {
    let trace: Vec<Vec<Felt>> = vec![vec![], vec![]];
    let z = partial_products(&trace, &[Column::single(0)], &Some(Column::single(1)), challenge(3, 9)).unwrap();
    assert!(z.is_empty());
}

#[test]
fn verifier_needs_extra_products_only_for_looked_tables() {
    let ctls = vec![example_lookup()];
    let mut zs: Vec<Vec<Felt>> = (0..NUM_TABLES).map(|_| vec![]).collect();
    zs[Table::Cpu.index()] = col(&[3]);
    zs[Table::Logic.index()] = col(&[3]);
    let mut extra: Vec<Vec<Felt>> = (0..NUM_TABLES).map(|_| vec![]).collect();
    extra[Table::Logic.index()] = col(&[1]);
    assert_eq!(verify_cross_table_lookups(&ctls, &zs, &extra, 1), Ok(()));
}

#[test]
fn challenge_set_decodes_after_a_prefix() {
    let first = GrandProductChallengeSet { challenges: vec![GrandProductChallenge {
        beta: Target::VirtualTarget { index: 9 },
        gamma: Target::Wire { row: 1, column: 2 },
    }] };
    let second = GrandProductChallengeSet { challenges: vec![] };
    let mut bytes = vec![];
    first.to_buffer(&mut bytes);
    second.to_buffer(&mut bytes);
    let mut buffer = Buffer::new(bytes);
    assert_eq!(GrandProductChallengeSet::from_buffer(&mut buffer), Ok(first));
    assert_eq!(GrandProductChallengeSet::from_buffer(&mut buffer), Ok(second));
    assert_eq!(buffer.pos, buffer.bytes.len());
}
