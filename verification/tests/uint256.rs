use machine_chips::uint256::{FieldLtCols, FieldOpCols, IsZeroOperation, Uint256MulCols};
use machine_chips::memory_access::{MemoryAccessCols, MemoryReadCols, MemoryWriteCols};
use machine_chips::air::{program_holds_on, AirStatement, Direction, Expr, FieldOperation, InteractionKind, InteractionScope};
use machine_chips::record::{CoreShape, ShardRecord};
use machine_chips::uint256::{
    Uint256MulChip, IS_REAL, MODULUS_IS_NOT_ZERO, MODULUS_IS_ZERO, MODULUS_IS_ZERO_RESULT,
    MODULUS_MEMORY, NONCE, NUM_COLS, NUM_LIMBS, OUTPUT, WORDS_FIELD_ELEMENT, X_MEMORY, Y_MEMORY,
};
use sp1_curves::params::{NumLimbs, NumWords};
use sp1_curves::uint256::U256Field;
use typenum::Unsigned;

fn x_value_col(i: usize) -> usize {
    X_MEMORY + (i / 4) * 13 + 4 + i % 4
}

fn modulus_col(i: usize) -> usize {
    MODULUS_MEMORY + (i / 4) * 9 + i % 4
}

#[test]
fn uint256_layout_matches_the_u256_field_parameters() {
    assert_eq!(WORDS_FIELD_ELEMENT, <U256Field as NumWords>::WordsFieldElement::USIZE);
    assert_eq!(NUM_LIMBS, <U256Field as NumLimbs>::Limbs::USIZE);
    assert_eq!(NUM_COLS, 481);
    assert_eq!(Uint256MulChip::new().width(), NUM_COLS);
}

#[test]
fn uint256_name_and_inclusion() {
    let chip = Uint256MulChip::new();
    assert_eq!(chip.name(), "Uint256");
    let rec = |shape: Option<CoreShape>, n| ShardRecord {
        shape,
        local_memory_events: 5,
        keccak_permute_events: 5,
        uint256_mul_events: n,
    };
    assert!(chip.included(&rec(None, 1)));
    assert!(!chip.included(&rec(None, 0)));
    let shape = CoreShape { inner: vec![("Uint256".to_string(), 3)] };
    assert!(chip.included(&rec(Some(shape), 0)));
    let other = CoreShape { inner: vec![("MemoryLocal".to_string(), 3)] };
    assert!(!chip.included(&rec(Some(other), 1)));
}

#[test]
fn uint256_eval_builds_the_multiplication_program() {
    let program = Uint256MulChip::new().eval();
    assert_eq!(program.len(), 42);
    match &program[2] {
        AirStatement::IsZero { cols, is_real, .. } => {
            assert_eq!(*cols, MODULUS_IS_ZERO);
            assert_eq!(*is_real, Expr::Local(IS_REAL));
        }
        s => panic!("unexpected {:?}", s),
    }
    match &program[3] {
        AirStatement::FieldOpWithModulus { op, a, b, modulus, cols, .. } => {
            assert_eq!(*op, FieldOperation::Mul);
            assert_eq!(a.len(), 32);
            assert_eq!(a[5], Expr::Local(X_MEMORY + 13 + 1));
            assert_eq!(b[5], Expr::Local(Y_MEMORY + 9 + 1));
            assert_eq!(modulus.len(), 33);
            assert_eq!(
                modulus[32],
                Expr::Mul(Box::new(Expr::Constant(1)), Box::new(Expr::Local(MODULUS_IS_ZERO_RESULT)))
            );
            assert_eq!(*cols, OUTPUT);
        }
        s => panic!("unexpected {:?}", s),
    }
    match &program[40] {
        AirStatement::Interaction { direction, kind, scope, values, multiplicity } => {
            assert_eq!(*direction, Direction::Receive);
            assert_eq!(*kind, InteractionKind::Syscall);
            assert_eq!(*scope, InteractionScope::Local);
            assert_eq!(values[3], Expr::Constant(0x1D));
            assert_eq!(values.len(), 6);
            assert_eq!(*multiplicity, Expr::Local(IS_REAL));
        }
        s => panic!("unexpected {:?}", s),
    }
    match &program[39] {
        AirStatement::MemoryAccessSlice { accesses, .. } => {
            assert_eq!(accesses.len(), 16);
            assert_eq!(accesses[8].access, MODULUS_MEMORY);
        }
        s => panic!("unexpected {:?}", s),
    }
}

fn real_row_with_zero_modulus() -> Vec<u32> {
    let mut row = vec![0u32; NUM_COLS];
    row[IS_REAL] = 1;
    row[MODULUS_IS_ZERO_RESULT] = 1;
    row[MODULUS_IS_NOT_ZERO] = 0;
    for i in 0..NUM_LIMBS {
        row[OUTPUT + i] = (i as u32 * 37) % 256;
        row[x_value_col(i)] = (i as u32 * 37) % 256;
    }
    row
}

#[test]
fn uint256_real_row_satisfies_its_assertions() {
    let program = Uint256MulChip::new().eval();
    let row = real_row_with_zero_modulus();
    assert!(program_holds_on(&program, &row, &row, false, false));
    let zeros = vec![0u32; NUM_COLS];
    assert!(program_holds_on(&program, &zeros, &zeros, true, false));
}

#[test]
fn uint256_written_value_must_be_the_result() {
    let program = Uint256MulChip::new().eval();
    let mut row = real_row_with_zero_modulus();
    row[x_value_col(7)] += 1;
    assert!(!program_holds_on(&program, &row, &row, false, false));
    // Not a real row: the written value is free.
    row[IS_REAL] = 0;
    row[MODULUS_IS_NOT_ZERO] = 0;
    assert!(program_holds_on(&program, &row, &row, false, false));
}

#[test]
fn uint256_is_real_must_be_boolean() {
    let program = Uint256MulChip::new().eval();
    let mut row = vec![0u32; NUM_COLS];
    row[IS_REAL] = 2;
    row[MODULUS_IS_ZERO_RESULT] = 1;
    assert!(!program_holds_on(&program, &row, &row, false, false));
}

#[test]
fn uint256_modulus_is_not_zero_column_is_derived() {
    let program = Uint256MulChip::new().eval();
    let mut row = vec![0u32; NUM_COLS];
    row[IS_REAL] = 1;
    for i in 0..NUM_LIMBS {
        row[modulus_col(i)] = 3;
    }
    // A nonzero modulus: the is-zero result is 0, so the flag must be 1.
    row[MODULUS_IS_NOT_ZERO] = 1;
    assert!(program_holds_on(&program, &row, &row, false, false));
    row[MODULUS_IS_NOT_ZERO] = 0;
    assert!(!program_holds_on(&program, &row, &row, false, false));
}

#[test]
fn uint256_nonce_starts_at_zero_and_increments() {
    let program = Uint256MulChip::new().eval();
    let mut local = vec![0u32; NUM_COLS];
    let mut next = vec![0u32; NUM_COLS];
    local[NONCE] = 5;
    next[NONCE] = 6;
    assert!(program_holds_on(&program, &local, &next, false, true));
    assert!(!program_holds_on(&program, &local, &next, true, true));
    next[NONCE] = 7;
    assert!(!program_holds_on(&program, &local, &next, false, true));
    // The last row has no successor to agree with.
    assert!(program_holds_on(&program, &local, &next, false, false));
}

#[test]
fn uint256_effective_modulus_polynomial_is_two_to_the_256_for_a_zero_modulus() {
    let program = Uint256MulChip::new().eval();
    let coefficients = match &program[3] {
        AirStatement::FieldOpWithModulus { modulus, .. } => modulus,
        s => panic!("unexpected {:?}", s),
    };
    let mut row = vec![0u32; NUM_COLS];
    row[MODULUS_IS_ZERO_RESULT] = 1;
    let values: Vec<u32> = coefficients.iter().map(|c| c.evaluate(&row, &row)).collect();
    let mut expected = vec![0u32; 33];
    expected[32] = 1;
    assert_eq!(values, expected);
    // A nonzero modulus is taken as it is.
    row[MODULUS_IS_ZERO_RESULT] = 0;
    for i in 0..NUM_LIMBS {
        row[modulus_col(i)] = 200 + i as u32 % 50;
    }
    let values: Vec<u32> = coefficients.iter().map(|c| c.evaluate(&row, &row)).collect();
    for i in 0..NUM_LIMBS {
        assert_eq!(values[i], 200 + i as u32 % 50);
    }
    assert_eq!(values[32], 0);
}

#[test]
fn uint256_modulus_byte_sum_is_zero_only_for_a_zero_modulus() {
    let program = Uint256MulChip::new().eval();
    let input = match &program[2] {
        AirStatement::IsZero { input, .. } => input,
        s => panic!("unexpected {:?}", s),
    };
    let mut row = vec![0u32; NUM_COLS];
    assert_eq!(input.evaluate(&row, &row), 0);
    for i in 0..NUM_LIMBS {
        row[modulus_col(i)] = 255;
    }
    assert_eq!(input.evaluate(&row, &row), 255 * 32);
    let mut one = vec![0u32; NUM_COLS];
    one[modulus_col(31)] = 1;
    assert_eq!(input.evaluate(&one, &one), 1);
}

#[test]
fn uint256_cols_lay_out_fields_at_the_program_columns() {
    let access = |v: u32| MemoryAccessCols {
        value: [v, v + 1, v + 2, v + 3],
        prev_shard: 11,
        prev_clk: 12,
        compare_clk: 1,
        diff_16bit_limb: 13,
        diff_8bit_limb: 14,
    };
    let cols = Uint256MulCols {
        shard: 1,
        clk: 2,
        nonce: 3,
        x_ptr: 4,
        y_ptr: 5,
        x_memory: [MemoryWriteCols { prev_value: [90, 91, 92, 93], access: access(100) }; 8],
        y_memory: [MemoryReadCols { access: access(200) }; 8],
        modulus_memory: [MemoryReadCols { access: access(40) }; 8],
        modulus_is_zero: IsZeroOperation { inverse: 7, result: 0 },
        modulus_is_not_zero: 1,
        output: FieldOpCols { result: [100; 32], carry: [0; 32], witness_low: [0; 63], witness_high: [0; 63] },
        output_range_check: FieldLtCols { byte_flags: [0; 32], lhs_comparison_byte: 0, rhs_comparison_byte: 0 },
        is_real: 1,
    };
    let row = cols.to_row();
    assert_eq!(row.len(), NUM_COLS);
    assert_eq!(row[NONCE], 3);
    assert_eq!(row[X_MEMORY + 13 * 3], 90);
    assert_eq!(row[x_value_col(13)], 101);
    assert_eq!(row[modulus_col(6)], 42);
    assert_eq!(row[MODULUS_IS_ZERO], 7);
    assert_eq!(row[MODULUS_IS_NOT_ZERO], 1);
    assert_eq!(row[OUTPUT + 31], 100);
    assert_eq!(row[IS_REAL], 1);
}

#[test]
fn uint256_default_is_the_new_chip() {
    let chip = Uint256MulChip::default();
    assert_eq!(chip.name(), Uint256MulChip::new().name());
    assert_eq!(chip.width(), Uint256MulChip::new().width());
    assert_eq!(chip.eval(), Uint256MulChip::new().eval());
}

fn x_prev_col(i: usize) -> usize {
    X_MEMORY + (i / 4) * 13 + i % 4
}

fn y_col(i: usize) -> usize {
    Y_MEMORY + (i / 4) * 9 + i % 4
}

fn little_endian(row: &[u32], col: fn(usize) -> usize) -> u128 {
    (0..16).rev().fold(0u128, |acc, i| acc * 256 + row[col(i)] as u128)
}

#[test]
fn uint256_real_row_multiplying_modulo_a_nonzero_modulus() {
    // x = 0x0102 * y = 0x0304 modulo 0x0a0b, written back over x.
    let mut row = vec![0u32; NUM_COLS];
    row[IS_REAL] = 1;
    row[x_prev_col(0)] = 0x02;
    row[x_prev_col(1)] = 0x01;
    row[y_col(0)] = 0x04;
    row[y_col(1)] = 0x03;
    row[modulus_col(0)] = 0x0b;
    row[modulus_col(1)] = 0x0a;
    let z: u32 = (0x0102 * 0x0304) % 0x0a0b;
    for (i, byte) in [z % 256, z / 256].into_iter().enumerate() {
        row[OUTPUT + i] = byte;
        row[x_value_col(i)] = byte;
    }
    row[MODULUS_IS_ZERO_RESULT] = 0;
    row[MODULUS_IS_NOT_ZERO] = 1;
    assert_eq!(
        little_endian(&row, x_value_col),
        little_endian(&row, x_prev_col) * little_endian(&row, y_col) % little_endian(&row, modulus_col)
    );
    let program = Uint256MulChip::new().eval();
    assert!(program_holds_on(&program, &row, &row, false, false));
    // The modulus is not zero, so the less-than check must be switched on.
    row[MODULUS_IS_NOT_ZERO] = 0;
    assert!(!program_holds_on(&program, &row, &row, false, false));
    // The byte sum the is-zero gadget tests is the modulus' bytes' sum, not zero.
    match &program[2] {
        AirStatement::IsZero { input, .. } => assert_eq!(input.evaluate(&row, &row), 0x0b + 0x0a),
        s => panic!("unexpected {:?}", s),
    }
}
