use machine_chips::memory_local::MemoryLocalCols;
use machine_chips::air::{AirStatement, Direction, Expr, InteractionKind, InteractionScope, RowFilter};
use machine_chips::memory_local::{MemoryLocalChip, NUM_MEMORY_LOCAL_INIT_COLS};
use machine_chips::record::{CoreShape, ShardRecord};

fn record(shape: Option<Vec<&str>>, local_memory_events: usize) -> ShardRecord {
    ShardRecord {
        shape: shape.map(|names| CoreShape {
            inner: names.into_iter().map(|n| (n.to_string(), 10)).collect(),
        }),
        local_memory_events,
        keccak_permute_events: 0,
        uint256_mul_events: 0,
    }
}

fn max_col(e: &Expr) -> usize {
    match e {
        Expr::Local(c) | Expr::Next(c) => *c + 1,
        Expr::Constant(_) => 0,
        Expr::Add(a, b) | Expr::Sub(a, b) | Expr::Mul(a, b) => max_col(a).max(max_col(b)),
    }
}

#[test]
fn memory_local_width_counts_four_entries_of_fourteen_columns() {
    let chip = MemoryLocalChip::new();
    assert_eq!(chip.width(), 56);
    assert_eq!(NUM_MEMORY_LOCAL_INIT_COLS, 4 * 14);
}

#[test]
fn memory_local_name_and_scope() {
    let chip = MemoryLocalChip::new();
    assert_eq!(chip.name(), "MemoryLocal");
    assert_eq!(chip.commit_scope(), InteractionScope::Global);
}

#[test]
fn memory_local_included_follows_shape_then_events() {
    let chip = MemoryLocalChip::new();
    assert!(chip.included(&record(None, 3)));
    assert!(!chip.included(&record(None, 0)));
    assert!(chip.included(&record(Some(vec!["Cpu", "MemoryLocal"]), 0)));
    assert!(!chip.included(&record(Some(vec!["Cpu", "Keccak256"]), 7)));
    assert!(!chip.included(&record(Some(vec![]), 7)));
}

#[test]
fn memory_local_eval_emits_six_statements_per_entry() {
    let program = MemoryLocalChip::new().eval();
    assert_eq!(program.len(), 24);
    for (k, stmt) in program.iter().enumerate() {
        let entry = k / 6;
        let j = k % 6;
        let base = entry * 14;
        let is_real = Expr::Local(base + 13);
        match stmt {
            AirStatement::AssertEq { filter, lhs, rhs } => {
                assert_eq!(j, 0);
                assert_eq!(*filter, RowFilter::EveryRow);
                let cube = Expr::Mul(
                    Box::new(Expr::Mul(Box::new(Expr::Local(base + 13)), Box::new(Expr::Local(base + 13)))),
                    Box::new(Expr::Local(base + 13)),
                );
                assert_eq!(*lhs, cube);
                assert_eq!(*rhs, cube);
            }
            AirStatement::AssertBool { filter, expr } => {
                assert_eq!(j, 5);
                assert_eq!(*filter, RowFilter::EveryRow);
                assert_eq!(*expr, is_real);
            }
            AirStatement::Interaction { direction, kind, scope, values, multiplicity } => {
                assert!((1..=4).contains(&j));
                assert_eq!(*kind, InteractionKind::Memory);
                assert_eq!(*multiplicity, is_real);
                let expected_scope =
                    if j <= 2 { InteractionScope::Global } else { InteractionScope::Local };
                assert_eq!(*scope, expected_scope);
                let (dir, shard, clk, value) = if j % 2 == 1 {
                    (Direction::Receive, 1, 3, 5)
                } else {
                    (Direction::Send, 2, 4, 9)
                };
                assert_eq!(*direction, dir);
                let expected: Vec<Expr> = vec![
                    Expr::Local(base + shard),
                    Expr::Local(base + clk),
                    Expr::Local(base),
                    Expr::Local(base + value),
                    Expr::Local(base + value + 1),
                    Expr::Local(base + value + 2),
                    Expr::Local(base + value + 3),
                ];
                assert_eq!(*values, expected);
            }
            _ => panic!("unexpected statement {:?}", stmt),
        }
    }
}

#[test]
fn memory_local_eval_reads_only_its_columns() {
    let program = MemoryLocalChip::new().eval();
    for stmt in &program {
        match stmt {
            AirStatement::AssertEq { lhs, rhs, .. } => {
                assert!(max_col(lhs) <= NUM_MEMORY_LOCAL_INIT_COLS);
                assert!(max_col(rhs) <= NUM_MEMORY_LOCAL_INIT_COLS);
            }
            AirStatement::AssertBool { expr, .. } => {
                assert!(max_col(expr) <= NUM_MEMORY_LOCAL_INIT_COLS);
            }
            AirStatement::Interaction { values, multiplicity, .. } => {
                assert!(values.iter().all(|v| max_col(v) <= NUM_MEMORY_LOCAL_INIT_COLS));
                assert!(max_col(multiplicity) <= NUM_MEMORY_LOCAL_INIT_COLS);
            }
            _ => panic!("unexpected statement"),
        }
    }
}

#[test]
fn memory_local_accepts_a_row_whose_entries_have_boolean_flags() {
    let program = MemoryLocalChip::new().eval();
    let mut row: Vec<u32> = (0..56u32).map(|i| i * 7919).collect();
    for (entry, flag) in [1, 0, 1, 1].into_iter().enumerate() {
        row[entry * 14 + 13] = flag;
    }
    assert!(machine_chips::air::program_holds_on(&program, &row, &row, true, false));
}

#[test]
fn memory_local_rejects_an_entry_flag_other_than_zero_or_one() {
    let program = MemoryLocalChip::new().eval();
    for flag in [2u32, 3, 0x7800_0000] {
        let mut row = vec![0u32; 56];
        row[2 * 14 + 13] = flag;
        assert!(!machine_chips::air::program_holds_on(&program, &row, &row, false, true));
    }
    // The flag is read in the field: the modulus plus one counts as one.
    let mut row = vec![0u32; 56];
    row[13] = 0x7800_0002;
    assert!(machine_chips::air::program_holds_on(&program, &row, &row, false, true));
}

#[test]
fn memory_local_cols_round_trip_through_a_row() {
    let row: Vec<u32> = (0..56u32).map(|i| 1000 + i).collect();
    let cols = MemoryLocalCols::from_row(&row);
    assert_eq!(cols.memory_local_entries[0].addr, 1000);
    assert_eq!(cols.memory_local_entries[1].initial_shard, 1000 + 15);
    assert_eq!(cols.memory_local_entries[2].final_value, [1000 + 37, 1000 + 38, 1000 + 39, 1000 + 40]);
    assert_eq!(cols.memory_local_entries[3].is_real, 1000 + 55);
    assert_eq!(cols.to_row(), row);
}
