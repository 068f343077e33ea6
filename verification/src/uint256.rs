//! The 256-bit modular multiplication chip: a syscall row reads `x` (eight words at
//! `x_ptr`) and `y` followed by `modulus` (sixteen words at `y_ptr`), and writes
//! `(x * y) % modulus` back over `x`; a zero modulus stands for `2^256`.

use vstd::prelude::*;
use crate::air::{
    all_bytes,
    byte_power,
    eval_expr,
    eval_exprs,
    field_cells,
    gadget_holds,
    is_zero_relation,
    limbs_value,
    program_gadgets_hold,
    program_holds,
    program_view,
    program_within,
    stmt_holds,
    trace_satisfies,
    AirStatement,
    Direction,
    Expr,
    FieldOperation,
    InteractionKind,
    InteractionScope,
    MemoryColsRef,
    RowFilter,
    StmtView,
};
use crate::field::{all_canonical, felt, is_canonical, lemma_field_bit, BABY_BEAR_P};
use crate::memory_access::{
    push_cells,
    read_cells,
    MemoryReadCols,
    MemoryWriteCols,
    ACCESS,
    ACCESS_VALUE,
    NUM_MEMORY_READ_COLS,
    NUM_MEMORY_WRITE_COLS,
    PREV_VALUE,
};
use crate::memory_local::WORD_SIZE;
use crate::record::{chip_included, ShardRecord};
use sp1_core_executor::syscalls::SyscallCode;

verus! {

/// Number of memory words of a 256-bit number.
pub const WORDS_FIELD_ELEMENT: usize = 8;

/// Number of byte limbs of a 256-bit number.
pub const NUM_LIMBS: usize = WORDS_FIELD_ELEMENT * WORD_SIZE;

/// Number of witness limbs of each half of the emulated field gadget's quotient.
pub const NUM_WITNESS_LIMBS: usize = 63;

/// Columns of the is-zero gadget: the inverse, then the result.
pub const NUM_IS_ZERO_COLS: usize = 2;

/// Columns of the emulated field gadget: result, carry and two witness halves.
pub const NUM_FIELD_OP_COLS: usize = 2 * NUM_LIMBS + 2 * NUM_WITNESS_LIMBS;

/// Columns of the less-than gadget: a flag per limb and the two compared bytes.
pub const NUM_FIELD_LT_COLS: usize = NUM_LIMBS + 2;

/// Column offsets of the chip.
pub const SHARD: usize = 0;
pub const CLK: usize = SHARD + 1;
pub const NONCE: usize = CLK + 1;
pub const X_PTR: usize = NONCE + 1;
pub const Y_PTR: usize = X_PTR + 1;
pub const X_MEMORY: usize = Y_PTR + 1;
pub const Y_MEMORY: usize = X_MEMORY + WORDS_FIELD_ELEMENT * NUM_MEMORY_WRITE_COLS;
pub const MODULUS_MEMORY: usize = Y_MEMORY + WORDS_FIELD_ELEMENT * NUM_MEMORY_READ_COLS;
pub const MODULUS_IS_ZERO: usize = MODULUS_MEMORY + WORDS_FIELD_ELEMENT * NUM_MEMORY_READ_COLS;
pub const MODULUS_IS_ZERO_RESULT: usize = MODULUS_IS_ZERO + 1;
pub const MODULUS_IS_NOT_ZERO: usize = MODULUS_IS_ZERO + NUM_IS_ZERO_COLS;
pub const OUTPUT: usize = MODULUS_IS_NOT_ZERO + 1;
pub const OUTPUT_RANGE_CHECK: usize = OUTPUT + NUM_FIELD_OP_COLS;
pub const IS_REAL: usize = OUTPUT_RANGE_CHECK + NUM_FIELD_LT_COLS;

/// Number of columns of the chip.
pub const NUM_COLS: usize = IS_REAL + 1;

/// The id the chip receives its syscall under.
pub const UINT256_MUL_SYSCALL_ID: u32 = 0x1D;

/// The values of the layout constants.
#[verifier::spinoff_prover]
pub proof fn lemma_uint256_layout()
    ensures
        NUM_LIMBS == 32,
        NUM_MEMORY_WRITE_COLS == 13,
        NUM_MEMORY_READ_COLS == 9,
        ACCESS == 4,
        ACCESS_VALUE == 0,
        PREV_VALUE == 0,
        X_MEMORY == 5,
        Y_MEMORY == 109,
        MODULUS_MEMORY == 181,
        MODULUS_IS_ZERO == 253,
        MODULUS_IS_ZERO_RESULT == 254,
        MODULUS_IS_NOT_ZERO == 255,
        OUTPUT == 256,
        OUTPUT_RANGE_CHECK == 446,
        IS_REAL == 480,
        NUM_COLS == 481,
{
    crate::memory_access::lemma_access_layout();
    assert(WORD_SIZE == 4);
    assert(WORDS_FIELD_ELEMENT == 8);
    assert(WORDS_FIELD_ELEMENT * WORD_SIZE == 32) by (nonlinear_arith)
        requires
            WORDS_FIELD_ELEMENT == 8,
            WORD_SIZE == 4,
    ;
    assert(NUM_LIMBS == 32);
    assert(WORDS_FIELD_ELEMENT * NUM_MEMORY_WRITE_COLS == 104) by (nonlinear_arith)
        requires
            WORDS_FIELD_ELEMENT == 8,
            NUM_MEMORY_WRITE_COLS == 13,
    ;
    assert(WORDS_FIELD_ELEMENT * NUM_MEMORY_READ_COLS == 72) by (nonlinear_arith)
        requires
            WORDS_FIELD_ELEMENT == 8,
            NUM_MEMORY_READ_COLS == 9,
    ;
    assert(X_MEMORY == 5);
    assert(Y_MEMORY == 109);
    assert(MODULUS_MEMORY == 181);
    assert(MODULUS_IS_ZERO == 253);
    assert(MODULUS_IS_ZERO_RESULT == 254);
    assert(MODULUS_IS_NOT_ZERO == 255);
    assert(OUTPUT == 256);
    assert(NUM_FIELD_OP_COLS == 190);
    assert(NUM_FIELD_LT_COLS == 34);
    assert(OUTPUT_RANGE_CHECK == 446);
    assert(IS_REAL == 480);
    assert(NUM_COLS == 481);
}

/// Column of limb `i` of `x` before the write: the previous value of its word.
pub open spec fn x_prev_limb_col(i: int) -> int {
    X_MEMORY + (i / 4) * NUM_MEMORY_WRITE_COLS + PREV_VALUE + i % 4
}

/// Column of limb `i` of the value written over `x`.
pub open spec fn x_value_limb_col(i: int) -> int {
    X_MEMORY + (i / 4) * NUM_MEMORY_WRITE_COLS + ACCESS + ACCESS_VALUE + i % 4
}

/// Column of limb `i` of `y`.
pub open spec fn y_limb_col(i: int) -> int {
    Y_MEMORY + (i / 4) * NUM_MEMORY_READ_COLS + ACCESS_VALUE + i % 4
}

/// Column of limb `i` of the modulus.
pub open spec fn modulus_limb_col(i: int) -> int {
    MODULUS_MEMORY + (i / 4) * NUM_MEMORY_READ_COLS + ACCESS_VALUE + i % 4
}

/// Column of limb `i` of the gadget's result.
pub open spec fn output_limb_col(i: int) -> int {
    OUTPUT + i
}

pub open spec fn col(c: int) -> Expr {
    Expr::Local(c as usize)
}

/// `((0 + m_0) + m_1) + ... + m_{n-1}` over the modulus limbs.
pub open spec fn limb_sum(n: int) -> Expr
    decreases n,
{
    if n <= 0 {
        Expr::Constant(0)
    } else {
        Expr::Add(Box::new(limb_sum(n - 1)), Box::new(col(modulus_limb_col(n - 1))))
    }
}

/// Coefficient `i` of the effective modulus polynomial
/// `modulus * (1 - z) + X^32 * z`, `z` being the is-zero result.
pub open spec fn p_modulus_coeff(i: int) -> Expr {
    let z = col(MODULUS_IS_ZERO_RESULT as int);
    if i < NUM_LIMBS {
        Expr::Add(
            Box::new(
                Expr::Mul(
                    Box::new(col(modulus_limb_col(i))),
                    Box::new(Expr::Sub(Box::new(Expr::Constant(1)), Box::new(z))),
                ),
            ),
            Box::new(Expr::Mul(Box::new(Expr::Constant(0)), Box::new(z))),
        )
    } else {
        Expr::Mul(Box::new(Expr::Constant(1)), Box::new(z))
    }
}

/// The effective modulus polynomial's coefficients.
pub open spec fn p_modulus() -> Seq<Expr> {
    Seq::new((NUM_LIMBS + 1) as nat, |i: int| p_modulus_coeff(i))
}

/// The limbs whose columns `f` gives, as expressions.
pub open spec fn limbs(f: spec_fn(int) -> int) -> Seq<Expr> {
    Seq::new(NUM_LIMBS as nat, |i: int| col(f(i)))
}

/// The columns of the words accessed from `base`, `n` groups of `width` columns,
/// the previous value at `prev` and the access at `access` within each group.
pub open spec fn access_groups(base: int, width: int, prev: int, access: int, n: int) -> Seq<
    MemoryColsRef,
> {
    Seq::new(
        n as nat,
        |w: int|
            MemoryColsRef {
                prev_value: (base + w * width + prev) as usize,
                access: (base + w * width + access) as usize,
            },
    )
}

/// The chip's constraint program, in the order its AIR builds it.
pub open spec fn uint256_program() -> Seq<StmtView> {
    let is_real = col(IS_REAL as int);
    seq![
        StmtView::AssertZero { filter: RowFilter::FirstRow, expr: col(NONCE as int) },
        StmtView::AssertEq {
            filter: RowFilter::Transition,
            lhs: Expr::Add(Box::new(col(NONCE as int)), Box::new(Expr::Constant(1))),
            rhs: Expr::Next(NONCE),
        },
        StmtView::IsZero {
            input: limb_sum(NUM_LIMBS as int),
            cols: MODULUS_IS_ZERO,
            is_real: is_real,
        },
        StmtView::FieldOpWithModulus {
            op: FieldOperation::Mul,
            a: limbs(|i: int| x_prev_limb_col(i)),
            b: limbs(|i: int| y_limb_col(i)),
            modulus: p_modulus(),
            cols: OUTPUT,
            is_real: is_real,
        },
        StmtView::FieldLessThan {
            lhs_limbs: limbs(|i: int| output_limb_col(i)),
            rhs_limbs: limbs(|i: int| modulus_limb_col(i)),
            cols: OUTPUT_RANGE_CHECK,
            condition: col(MODULUS_IS_NOT_ZERO as int),
        },
        StmtView::AssertEq {
            filter: RowFilter::EveryRow,
            lhs: col(MODULUS_IS_NOT_ZERO as int),
            rhs: Expr::Mul(
                Box::new(is_real),
                Box::new(
                    Expr::Sub(
                        Box::new(Expr::Constant(1)),
                        Box::new(col(MODULUS_IS_ZERO_RESULT as int)),
                    ),
                ),
            ),
        },
    ] + Seq::new(
        NUM_LIMBS as nat,
        |i: int|
            StmtView::AssertEq {
                filter: RowFilter::When(is_real),
                lhs: col(output_limb_col(i)),
                rhs: col(x_value_limb_col(i)),
            },
    ) + seq![
        StmtView::MemoryAccessSlice {
            shard: col(SHARD as int),
            clk: Expr::Add(Box::new(col(CLK as int)), Box::new(Expr::Constant(1))),
            ptr: col(X_PTR as int),
            accesses: access_groups(
                X_MEMORY as int,
                NUM_MEMORY_WRITE_COLS as int,
                PREV_VALUE as int,
                ACCESS as int,
                WORDS_FIELD_ELEMENT as int,
            ),
            is_real: is_real,
        },
        StmtView::MemoryAccessSlice {
            shard: col(SHARD as int),
            clk: col(CLK as int),
            ptr: col(Y_PTR as int),
            accesses: access_groups(
                Y_MEMORY as int,
                NUM_MEMORY_READ_COLS as int,
                ACCESS_VALUE as int,
                0,
                2 * WORDS_FIELD_ELEMENT as int,
            ),
            is_real: is_real,
        },
        StmtView::Interaction {
            direction: Direction::Receive,
            kind: InteractionKind::Syscall,
            scope: InteractionScope::Local,
            values: seq![
                col(SHARD as int),
                col(CLK as int),
                col(NONCE as int),
                Expr::Constant(UINT256_MUL_SYSCALL_ID),
                col(X_PTR as int),
                col(Y_PTR as int),
            ],
            multiplicity: is_real,
        },
        StmtView::AssertBool { filter: RowFilter::EveryRow, expr: is_real },
    ]
}

/// The is-zero gadget's columns.
#[derive(Clone, Copy, Debug, PartialEq, Eq)]
pub struct IsZeroOperation {
    pub inverse: u32,
    pub result: u32,
}

/// The emulated field gadget's columns: result and carry limbs, and the two halves
/// of the witness.
#[derive(Clone, Copy, Debug, PartialEq, Eq)]
pub struct FieldOpCols {
    pub result: [u32; 32],
    pub carry: [u32; 32],
    pub witness_low: [u32; 63],
    pub witness_high: [u32; 63],
}

/// The less-than gadget's columns.
#[derive(Clone, Copy, Debug, PartialEq, Eq)]
pub struct FieldLtCols {
    pub byte_flags: [u32; 32],
    pub lhs_comparison_byte: u32,
    pub rhs_comparison_byte: u32,
}

/// A row of the chip.
#[derive(Clone, Copy, Debug, PartialEq, Eq)]
pub struct Uint256MulCols {
    /// The shard number of the syscall.
    pub shard: u32,
    /// The clock cycle of the syscall.
    pub clk: u32,
    /// The nonce of the operation.
    pub nonce: u32,
    /// The pointer to the first input.
    pub x_ptr: u32,
    /// The pointer to the second input, which contains the y value and the modulus.
    pub y_ptr: u32,
    /// `x` is written with the result, so its words have write columns.
    pub x_memory: [MemoryWriteCols; 8],
    pub y_memory: [MemoryReadCols; 8],
    pub modulus_memory: [MemoryReadCols; 8],
    /// Whether the modulus is zero, in which case `2^256` is the effective modulus.
    pub modulus_is_zero: IsZeroOperation,
    /// `is_real * (1 - modulus_is_zero.result)`.
    pub modulus_is_not_zero: u32,
    /// The result `(x * y) % modulus`.
    pub output: FieldOpCols,
    pub output_range_check: FieldLtCols,
    pub is_real: u32,
}

impl FieldOpCols {
    pub open spec fn cells(&self) -> Seq<u32> {
        self.result@ + self.carry@ + self.witness_low@ + self.witness_high@
    }
}

impl FieldLtCols {
    pub open spec fn cells(&self) -> Seq<u32> {
        self.byte_flags@ + seq![self.lhs_comparison_byte, self.rhs_comparison_byte]
    }
}

/// The cells of consecutive write column groups.
pub open spec fn write_groups_cells(a: Seq<MemoryWriteCols>) -> Seq<u32>
    decreases a.len(),
{
    if a.len() == 0 {
        seq![]
    } else {
        write_groups_cells(a.drop_last()) + a.last().cells()
    }
}

/// The cells of consecutive read column groups.
pub open spec fn read_groups_cells(a: Seq<MemoryReadCols>) -> Seq<u32>
    decreases a.len(),
{
    if a.len() == 0 {
        seq![]
    } else {
        read_groups_cells(a.drop_last()) + a.last().cells()
    }
}

impl Uint256MulCols {
    /// The row's columns, field after field.
    pub open spec fn cells(&self) -> Seq<u32> {
        seq![self.shard, self.clk, self.nonce, self.x_ptr, self.y_ptr] + write_groups_cells(
            self.x_memory@,
        ) + read_groups_cells(self.y_memory@) + read_groups_cells(self.modulus_memory@) + seq![
            self.modulus_is_zero.inverse,
            self.modulus_is_zero.result,
            self.modulus_is_not_zero,
        ] + self.output.cells() + self.output_range_check.cells() + seq![self.is_real]
    }

    /// Writes the row out as trace cells.
    pub fn to_row(&self) -> (r: Vec<u32>)
        ensures
            r@ == self.cells(),
    {
        let mut row: Vec<u32> = Vec::new();
        row.push(self.shard);
        row.push(self.clk);
        row.push(self.nonce);
        row.push(self.x_ptr);
        row.push(self.y_ptr);
        let ghost head = row@;
        let mut w: usize = 0;
        while w < 8
            invariant
                w <= 8,
                self.x_memory@.len() == 8,
                row@ == head + write_groups_cells(self.x_memory@.take(w as int)),
            decreases 8 - w,
        {
            self.x_memory[w].push_to(&mut row);
            proof {
                assert(self.x_memory@.take(w + 1).drop_last() =~= self.x_memory@.take(w as int));
            }
            w = w + 1;
        }
        proof {
            assert(self.x_memory@.take(8) =~= self.x_memory@);
        }
        let ghost after_x = row@;
        let mut w: usize = 0;
        while w < 8
            invariant
                w <= 8,
                self.y_memory@.len() == 8,
                row@ == after_x + read_groups_cells(self.y_memory@.take(w as int)),
            decreases 8 - w,
        {
            self.y_memory[w].push_to(&mut row);
            proof {
                assert(self.y_memory@.take(w + 1).drop_last() =~= self.y_memory@.take(w as int));
            }
            w = w + 1;
        }
        proof {
            assert(self.y_memory@.take(8) =~= self.y_memory@);
        }
        let ghost after_y = row@;
        let mut w: usize = 0;
        while w < 8
            invariant
                w <= 8,
                self.modulus_memory@.len() == 8,
                row@ == after_y + read_groups_cells(self.modulus_memory@.take(w as int)),
            decreases 8 - w,
        {
            self.modulus_memory[w].push_to(&mut row);
            proof {
                assert(self.modulus_memory@.take(w + 1).drop_last() =~= self.modulus_memory@.take(
                    w as int,
                ));
            }
            w = w + 1;
        }
        proof {
            assert(self.modulus_memory@.take(8) =~= self.modulus_memory@);
        }
        row.push(self.modulus_is_zero.inverse);
        row.push(self.modulus_is_zero.result);
        row.push(self.modulus_is_not_zero);
        push_cells(&self.output.result, &mut row);
        push_cells(&self.output.carry, &mut row);
        push_cells(&self.output.witness_low, &mut row);
        push_cells(&self.output.witness_high, &mut row);
        push_cells(&self.output_range_check.byte_flags, &mut row);
        row.push(self.output_range_check.lhs_comparison_byte);
        row.push(self.output_range_check.rhs_comparison_byte);
        row.push(self.is_real);
        proof {
            assert(row@ =~= self.cells());
        }
        row
    }
}

proof fn lemma_write_groups_cells(a: Seq<MemoryWriteCols>, w: int, f: int)
    requires
        0 <= w < a.len(),
        0 <= f < NUM_MEMORY_WRITE_COLS,
    ensures
        write_groups_cells(a).len() == a.len() * NUM_MEMORY_WRITE_COLS,
        write_groups_cells(a)[w * NUM_MEMORY_WRITE_COLS + f] == a[w].cells()[f],
    decreases a.len(),
{
    crate::memory_access::lemma_access_layout();
    lemma_write_groups_len(a);
    assert(a[w].prev_value@.len() == 4);
    if w < a.len() - 1 {
        lemma_write_groups_cells(a.drop_last(), w, f);
        assert(a.drop_last()[w] == a[w]);
    }
}

proof fn lemma_write_groups_len(a: Seq<MemoryWriteCols>)
    ensures
        write_groups_cells(a).len() == a.len() * NUM_MEMORY_WRITE_COLS,
    decreases a.len(),
{
    crate::memory_access::lemma_access_layout();
    if a.len() > 0 {
        lemma_write_groups_len(a.drop_last());
        assert(a.last().prev_value@.len() == 4);
    }
}

proof fn lemma_read_groups_cells(a: Seq<MemoryReadCols>, w: int, f: int)
    requires
        0 <= w < a.len(),
        0 <= f < NUM_MEMORY_READ_COLS,
    ensures
        read_groups_cells(a).len() == a.len() * NUM_MEMORY_READ_COLS,
        read_groups_cells(a)[w * NUM_MEMORY_READ_COLS + f] == a[w].cells()[f],
    decreases a.len(),
{
    crate::memory_access::lemma_access_layout();
    lemma_read_groups_len(a);
    if w < a.len() - 1 {
        lemma_read_groups_cells(a.drop_last(), w, f);
        assert(a.drop_last()[w] == a[w]);
    }
}

proof fn lemma_read_groups_len(a: Seq<MemoryReadCols>)
    ensures
        read_groups_cells(a).len() == a.len() * NUM_MEMORY_READ_COLS,
    decreases a.len(),
{
    crate::memory_access::lemma_access_layout();
    if a.len() > 0 {
        lemma_read_groups_len(a.drop_last());
    }
}

/// The row has `NUM_COLS` columns, and every column the constraint program names
/// holds the field of that name: the scalars, each word of `x`, `y` and the modulus,
/// the is-zero gadget, and the result limbs.
pub proof fn lemma_uint256_cols_layout(c: Uint256MulCols)
    ensures
        c.cells().len() == NUM_COLS,
        c.cells()[SHARD as int] == c.shard,
        c.cells()[CLK as int] == c.clk,
        c.cells()[NONCE as int] == c.nonce,
        c.cells()[X_PTR as int] == c.x_ptr,
        c.cells()[Y_PTR as int] == c.y_ptr,
        forall|w: int, f: int|
            0 <= w < WORDS_FIELD_ELEMENT && 0 <= f < NUM_MEMORY_WRITE_COLS ==> c.cells()[X_MEMORY + w
                * NUM_MEMORY_WRITE_COLS + f] == #[trigger] c.x_memory@[w].cells()[f],
        forall|w: int, f: int|
            0 <= w < WORDS_FIELD_ELEMENT && 0 <= f < NUM_MEMORY_READ_COLS ==> c.cells()[Y_MEMORY + w
                * NUM_MEMORY_READ_COLS + f] == #[trigger] c.y_memory@[w].cells()[f],
        forall|w: int, f: int|
            0 <= w < WORDS_FIELD_ELEMENT && 0 <= f < NUM_MEMORY_READ_COLS ==> c.cells()[MODULUS_MEMORY
                + w * NUM_MEMORY_READ_COLS + f] == #[trigger] c.modulus_memory@[w].cells()[f],
        c.cells()[MODULUS_IS_ZERO as int] == c.modulus_is_zero.inverse,
        c.cells()[MODULUS_IS_ZERO_RESULT as int] == c.modulus_is_zero.result,
        c.cells()[MODULUS_IS_NOT_ZERO as int] == c.modulus_is_not_zero,
        forall|i: int| 0 <= i < NUM_LIMBS ==> c.cells()[OUTPUT + i] == #[trigger] c.output.result@[i],
        c.cells()[IS_REAL as int] == c.is_real,
{
    lemma_uint256_layout();
    lemma_write_groups_len(c.x_memory@);
    lemma_read_groups_len(c.y_memory@);
    lemma_read_groups_len(c.modulus_memory@);
    assert(c.output.cells().len() == 190);
    assert(c.output_range_check.cells().len() == 34);
    assert forall|w: int, f: int|
        0 <= w < WORDS_FIELD_ELEMENT && 0 <= f < NUM_MEMORY_WRITE_COLS implies c.cells()[X_MEMORY + w
            * NUM_MEMORY_WRITE_COLS + f] == #[trigger] c.x_memory@[w].cells()[f] by {
        lemma_write_groups_cells(c.x_memory@, w, f);
    }
    assert forall|w: int, f: int|
        0 <= w < WORDS_FIELD_ELEMENT && 0 <= f < NUM_MEMORY_READ_COLS implies c.cells()[Y_MEMORY + w
            * NUM_MEMORY_READ_COLS + f] == #[trigger] c.y_memory@[w].cells()[f] by {
        lemma_read_groups_cells(c.y_memory@, w, f);
    }
    assert forall|w: int, f: int|
        0 <= w < WORDS_FIELD_ELEMENT && 0 <= f < NUM_MEMORY_READ_COLS implies c.cells()[MODULUS_MEMORY
            + w * NUM_MEMORY_READ_COLS + f] == #[trigger] c.modulus_memory@[w].cells()[f] by {
        lemma_read_groups_cells(c.modulus_memory@, w, f);
    }
}

/// Calls `SyscallCode::UINT256_MUL.syscall_id()`, which the syscall table source
/// defines as the low byte of the code `0x00_01_01_1D`. Claimed: the id is `0x1D`.
#[verifier::external_body]
fn uint256_mul_syscall_id() -> (id: u32)
    ensures
        id == UINT256_MUL_SYSCALL_ID,
{
    SyscallCode::UINT256_MUL.syscall_id()
}

/// The chip that proves 256-bit modular multiplication syscalls.
pub struct Uint256MulChip;

impl Default for Uint256MulChip {
    fn default() -> (r: Self)
        ensures
            r == Uint256MulChip,
    {
        Uint256MulChip
    }
}

impl Uint256MulChip {
    pub fn new() -> (r: Self)
        ensures
            r == Uint256MulChip,
    {
        Self
    }

    /// The chip's name.
    pub fn name(&self) -> (r: String)
        ensures
            r@ == "Uint256"@,
    {
        String::from_str("Uint256")
    }

    /// Whether the shard's proof includes this chip: as the shard's shape says if it
    /// has one, otherwise when the shard has a 256-bit multiplication event.
    pub fn included(&self, shard: &ShardRecord) -> (r: bool)
        ensures
            r == chip_included(shard.shape, "Uint256"@, shard.uint256_mul_events > 0),
    {
        match &shard.shape {
            Some(shape) => shape.included(&self.name()),
            None => shard.uint256_mul_events != 0,
        }
    }

    /// The number of main-trace columns.
    pub fn width(&self) -> (r: usize)
        ensures
            r == NUM_COLS,
    {
        NUM_COLS
    }

    /// The constraint program of the chip's AIR.
    pub fn eval(&self) -> (r: Vec<AirStatement>)
        ensures
            program_view(r@) == uint256_program(),
    {
        proof {
            lemma_uint256_layout();
        }
        let mut out: Vec<AirStatement> = Vec::new();
        // The nonce starts at zero and increments from row to row.
        out.push(AirStatement::AssertZero { filter: RowFilter::FirstRow, expr: Expr::Local(NONCE) });
        out.push(
            AirStatement::AssertEq {
                filter: RowFilter::Transition,
                lhs: Expr::Add(Box::new(Expr::Local(NONCE)), Box::new(Expr::Constant(1))),
                rhs: Expr::Next(NONCE),
            },
        );
        // Whether the modulus is zero, from the sum of its bytes.
        out.push(
            AirStatement::IsZero {
                input: modulus_byte_sum(),
                cols: MODULUS_IS_ZERO,
                is_real: Expr::Local(IS_REAL),
            },
        );
        // (x * y) % p_modulus, p_modulus being 2^256 when the modulus is zero.
        let x_limbs = limb_exprs(X_MEMORY, NUM_MEMORY_WRITE_COLS, PREV_VALUE);
        let y_limbs = limb_exprs(Y_MEMORY, NUM_MEMORY_READ_COLS, ACCESS_VALUE);
        let modulus_limbs = limb_exprs(MODULUS_MEMORY, NUM_MEMORY_READ_COLS, ACCESS_VALUE);
        let output_limbs = limb_exprs(OUTPUT, 4, 0);
        proof {
            assert(x_limbs@ =~= limbs(|i: int| x_prev_limb_col(i)));
            assert(y_limbs@ =~= limbs(|i: int| y_limb_col(i)));
            assert(modulus_limbs@ =~= limbs(|i: int| modulus_limb_col(i)));
            assert(output_limbs@ =~= limbs(|i: int| output_limb_col(i)));
        }
        out.push(
            AirStatement::FieldOpWithModulus {
                op: FieldOperation::Mul,
                a: x_limbs,
                b: y_limbs,
                modulus: p_modulus_exprs(),
                cols: OUTPUT,
                is_real: Expr::Local(IS_REAL),
            },
        );
        // The result lies below the modulus when the modulus is not zero.
        out.push(
            AirStatement::FieldLessThan {
                lhs_limbs: output_limbs,
                rhs_limbs: modulus_limbs,
                cols: OUTPUT_RANGE_CHECK,
                condition: Expr::Local(MODULUS_IS_NOT_ZERO),
            },
        );
        out.push(
            AirStatement::AssertEq {
                filter: RowFilter::EveryRow,
                lhs: Expr::Local(MODULUS_IS_NOT_ZERO),
                rhs: Expr::Mul(
                    Box::new(Expr::Local(IS_REAL)),
                    Box::new(
                        Expr::Sub(
                            Box::new(Expr::Constant(1)),
                            Box::new(Expr::Local(MODULUS_IS_ZERO_RESULT)),
                        ),
                    ),
                ),
            },
        );
        proof {
            let p = uint256_program();
            assert(program_view(out@)[0] == p[0]);
            assert(program_view(out@)[1] == p[1]);
            assert(program_view(out@)[2] == p[2]);
            assert(program_view(out@)[3] == p[3]);
            assert(program_view(out@)[4] == p[4]);
            assert(program_view(out@)[5] == p[5]);
            assert(program_view(out@) =~= uint256_program().take(6));
        }
        // The result is what gets written over x.
        let mut i: usize = 0;
        while i < NUM_LIMBS
            invariant
                i <= NUM_LIMBS,
                NUM_LIMBS == 32,
                NUM_MEMORY_WRITE_COLS == 13,
                X_MEMORY == 5,
                ACCESS == 4,
                ACCESS_VALUE == 0,
                OUTPUT == 256,
                out@.len() == 6 + i,
                program_view(out@) =~= uint256_program().take(6 + i),
            decreases NUM_LIMBS - i,
        {
            let ghost prev = out@;
            out.push(
                AirStatement::AssertEq {
                    filter: RowFilter::When(Expr::Local(IS_REAL)),
                    lhs: Expr::Local(OUTPUT + i),
                    rhs: Expr::Local(X_MEMORY + (i / 4) * NUM_MEMORY_WRITE_COLS + ACCESS + ACCESS_VALUE + i % 4),
                },
            );
            proof {
                assert(program_view(out@) =~= program_view(prev).push(out@[i + 6]@));
                assert(uint256_program().take(6 + i + 1) =~= uint256_program().take(6 + i).push(
                    uint256_program()[6 + i],
                ));
            }
            i = i + 1;
        }
        // Read and write x, one clock after the reads of y and the modulus.
        out.push(
            AirStatement::MemoryAccessSlice {
                shard: Expr::Local(SHARD),
                clk: Expr::Add(Box::new(Expr::Local(CLK)), Box::new(Expr::Constant(1))),
                ptr: Expr::Local(X_PTR),
                accesses: access_refs(X_MEMORY, NUM_MEMORY_WRITE_COLS, PREV_VALUE, ACCESS, WORDS_FIELD_ELEMENT),
                is_real: Expr::Local(IS_REAL),
            },
        );
        // y and the modulus are read contiguously from y_ptr.
        out.push(
            AirStatement::MemoryAccessSlice {
                shard: Expr::Local(SHARD),
                clk: Expr::Local(CLK),
                ptr: Expr::Local(Y_PTR),
                accesses: access_refs(
                    Y_MEMORY,
                    NUM_MEMORY_READ_COLS,
                    ACCESS_VALUE,
                    0,
                    2 * WORDS_FIELD_ELEMENT,
                ),
                is_real: Expr::Local(IS_REAL),
            },
        );
        // Receive the syscall's arguments.
        let syscall_id = uint256_mul_syscall_id();
        let mut values: Vec<Expr> = Vec::new();
        values.push(Expr::Local(SHARD));
        values.push(Expr::Local(CLK));
        values.push(Expr::Local(NONCE));
        values.push(Expr::Constant(syscall_id));
        values.push(Expr::Local(X_PTR));
        values.push(Expr::Local(Y_PTR));
        proof {
            assert(values@ =~= seq![
                col(SHARD as int),
                col(CLK as int),
                col(NONCE as int),
                Expr::Constant(UINT256_MUL_SYSCALL_ID),
                col(X_PTR as int),
                col(Y_PTR as int),
            ]);
        }
        out.push(
            AirStatement::Interaction {
                direction: Direction::Receive,
                kind: InteractionKind::Syscall,
                scope: InteractionScope::Local,
                values,
                multiplicity: Expr::Local(IS_REAL),
            },
        );
        // is_real is a boolean.
        out.push(AirStatement::AssertBool { filter: RowFilter::EveryRow, expr: Expr::Local(IS_REAL) });
        proof {
            let p = uint256_program();
            assert(program_view(out@).take(38) =~= p.take(38));
            assert(program_view(out@)[38] == p[38]);
            assert(program_view(out@)[39] == p[39]);
            assert(program_view(out@)[40] == p[40]);
            assert(program_view(out@)[41] == p[41]);
            assert forall|k: int| 0 <= k < 42 implies program_view(out@)[k] == p[k] by {
                if k < 38 {
                    assert(program_view(out@).take(38)[k] == p.take(38)[k]);
                }
            }
            assert(program_view(out@) =~= uint256_program());
        }
        out
    }
}

/// The 32 limb expressions of eight word groups of `width` columns from `base`,
/// each word starting at `offset` within its group.
fn limb_exprs(base: usize, width: usize, offset: usize) -> (r: Vec<Expr>)
    requires
        base + 8 * width + offset + 4 <= NUM_COLS,
    ensures
        r@ == limbs(|i: int| base + (i / 4) * width + offset + i % 4),
{
    proof {
        lemma_uint256_layout();
    }
    let mut r: Vec<Expr> = Vec::new();
    let mut i: usize = 0;
    while i < NUM_LIMBS
        invariant
            NUM_LIMBS == 32,
            NUM_COLS == 481,
            base + 8 * width + offset + 4 <= NUM_COLS,
            i <= NUM_LIMBS,
            r@ =~= limbs(|i: int| base + (i / 4) * width + offset + i % 4).take(i as int),
        decreases NUM_LIMBS - i,
    {
        proof {
            assert((i / 4) * width <= 7 * width) by (nonlinear_arith)
                requires
                    i < 32,
            ;
        }
        r.push(Expr::Local(base + (i / 4) * width + offset + i % 4));
        i = i + 1;
    }
    r
}

/// The modulus byte sum `((0 + m_0) + m_1) + ... + m_31`.
fn modulus_byte_sum() -> (r: Expr)
    ensures
        r == limb_sum(NUM_LIMBS as int),
{
    proof {
        lemma_uint256_layout();
    }
    let mut acc = Expr::Constant(0);
    let mut i: usize = 0;
    while i < NUM_LIMBS
        invariant
            NUM_LIMBS == 32,
            MODULUS_MEMORY == 181,
            NUM_MEMORY_READ_COLS == 9,
            ACCESS_VALUE == 0,
            i <= NUM_LIMBS,
            acc == limb_sum(i as int),
        decreases NUM_LIMBS - i,
    {
        acc = Expr::Add(
            Box::new(acc),
            Box::new(Expr::Local(MODULUS_MEMORY + (i / 4) * NUM_MEMORY_READ_COLS + ACCESS_VALUE + i % 4)),
        );
        i = i + 1;
    }
    acc
}

/// The effective modulus polynomial: the modulus limbs times `1 - z`, plus `X^32`
/// times `z`, added coefficient by coefficient.
fn p_modulus_exprs() -> (r: Vec<Expr>)
    ensures
        r@ == p_modulus(),
{
    proof {
        lemma_uint256_layout();
    }
    let mut r: Vec<Expr> = Vec::new();
    let mut i: usize = 0;
    while i < NUM_LIMBS
        invariant
            NUM_LIMBS == 32,
            MODULUS_MEMORY == 181,
            NUM_MEMORY_READ_COLS == 9,
            ACCESS_VALUE == 0,
            MODULUS_IS_ZERO_RESULT == 254,
            i <= NUM_LIMBS,
            r@ =~= p_modulus().take(i as int),
        decreases NUM_LIMBS - i,
    {
        let m = Expr::Local(MODULUS_MEMORY + (i / 4) * NUM_MEMORY_READ_COLS + ACCESS_VALUE + i % 4);
        let one_minus_z = Expr::Sub(
            Box::new(Expr::Constant(1)),
            Box::new(Expr::Local(MODULUS_IS_ZERO_RESULT)),
        );
        let zero_times_z = Expr::Mul(
            Box::new(Expr::Constant(0)),
            Box::new(Expr::Local(MODULUS_IS_ZERO_RESULT)),
        );
        r.push(Expr::Add(Box::new(Expr::Mul(Box::new(m), Box::new(one_minus_z))), Box::new(zero_times_z)));
        i = i + 1;
    }
    r.push(Expr::Mul(Box::new(Expr::Constant(1)), Box::new(Expr::Local(MODULUS_IS_ZERO_RESULT))));
    proof {
        assert(r@ =~= p_modulus());
    }
    r
}

/// The column references of `n` word groups of `width` columns from `base`.
fn access_refs(base: usize, width: usize, prev: usize, access: usize, n: usize) -> (r: Vec<
    MemoryColsRef,
>)
    requires
        base + n * width <= NUM_COLS,
        prev < width,
        access < width,
    ensures
        r@ == access_groups(base as int, width as int, prev as int, access as int, n as int),
{
    let mut r: Vec<MemoryColsRef> = Vec::new();
    let mut w: usize = 0;
    while w < n
        invariant
            base + n * width <= NUM_COLS,
            prev < width,
            access < width,
            w <= n,
            r@ =~= access_groups(base as int, width as int, prev as int, access as int, n as int).take(
                w as int,
            ),
        decreases n - w,
    {
        proof {
            assert(w * width + width <= n * width) by (nonlinear_arith)
                requires
                    w < n,
            ;
        }
        r.push(MemoryColsRef { prev_value: base + w * width + prev, access: base + w * width + access });
        w = w + 1;
    }
    proof {
        assert(r@ =~= access_groups(base as int, width as int, prev as int, access as int, n as int));
    }
    r
}

/// The sum of the first `n` modulus bytes of a row.
pub open spec fn modulus_byte_total(local: Seq<u32>, n: int) -> int
    decreases n,
{
    if n <= 0 {
        0
    } else {
        modulus_byte_total(local, n - 1) + local[modulus_limb_col(n - 1)]
    }
}

/// The modulus limbs of a row are bytes.
pub open spec fn modulus_limbs_are_bytes(local: Seq<u32>) -> bool {
    &&& local.len() == NUM_COLS
    &&& forall|i: int| 0 <= i < NUM_LIMBS ==> #[trigger] local[modulus_limb_col(i)] < 256
}

/// The modulus limbs of a row as integers.
pub open spec fn modulus_limbs(local: Seq<u32>) -> Seq<int> {
    Seq::new(NUM_LIMBS as nat, |i: int| local[modulus_limb_col(i)] as int)
}

/// The modulus a row multiplies by: its modulus, or `2^256` when that is zero.
pub open spec fn effective_modulus(local: Seq<u32>) -> int {
    if forall|i: int| 0 <= i < NUM_LIMBS ==> #[trigger] local[modulus_limb_col(i)] == 0 {
        byte_power(NUM_LIMBS as nat)
    } else {
        limbs_value(modulus_limbs(local))
    }
}

/// The effective modulus polynomial of a row, evaluated coefficient by coefficient.
pub open spec fn p_modulus_values(local: Seq<u32>, next: Seq<u32>) -> Seq<int> {
    Seq::new((NUM_LIMBS + 1) as nat, |i: int| crate::air::eval_expr(p_modulus_coeff(i), local, next))
}

proof fn lemma_modulus_byte_total(local: Seq<u32>, next: Seq<u32>, n: int)
    requires
        modulus_limbs_are_bytes(local),
        0 <= n <= NUM_LIMBS,
    ensures
        0 <= modulus_byte_total(local, n) <= 255 * n,
        crate::air::eval_expr(limb_sum(n), local, next) == modulus_byte_total(local, n),
        modulus_byte_total(local, n) == 0 <==> forall|i: int|
            0 <= i < n ==> #[trigger] local[modulus_limb_col(i)] == 0,
    decreases n,
{
    lemma_uint256_layout();
    reveal_with_fuel(crate::air::eval_expr, 2);
    if n > 0 {
        lemma_modulus_byte_total(local, next, n - 1);
        assert(local[modulus_limb_col(n - 1)] < 256);
        if modulus_byte_total(local, n) == 0 {
            assert forall|i: int| 0 <= i < n implies #[trigger] local[modulus_limb_col(i)] == 0 by {
                if i < n - 1 {
                    assert(local[modulus_limb_col(i)] == 0);
                }
            }
        }
    }
}

/// The sum of the modulus bytes cannot wrap around the field: it is zero exactly when
/// every byte is.
pub proof fn lemma_modulus_byte_sum_zero_iff(local: Seq<u32>, next: Seq<u32>)
    requires
        modulus_limbs_are_bytes(local),
    ensures
        crate::air::eval_expr(limb_sum(NUM_LIMBS as int), local, next) == 0 <==> forall|i: int|
            0 <= i < NUM_LIMBS ==> #[trigger] local[modulus_limb_col(i)] == 0,
{
    lemma_uint256_layout();
    lemma_modulus_byte_total(local, next, NUM_LIMBS as int);
}

proof fn lemma_limbs_value_zeros_then_one(s: Seq<int>)
    requires
        s.len() >= 1,
        s[s.len() - 1] == 1,
        forall|i: int| 0 <= i < s.len() - 1 ==> s[i] == 0,
    ensures
        limbs_value(s) == byte_power((s.len() - 1) as nat),
    decreases s.len(),
{
    if s.len() > 1 {
        lemma_limbs_value_zeros_then_one(s.drop_first());
    } else {
        assert(limbs_value(s.drop_first()) == 0);
    }
}

proof fn lemma_limbs_value_trailing_zero(s: Seq<int>, t: Seq<int>)
    requires
        t.len() == s.len() + 1,
        t[s.len() as int] == 0,
        forall|i: int| 0 <= i < s.len() ==> t[i] == s[i],
    ensures
        limbs_value(t) == limbs_value(s),
    decreases s.len(),
{
    if s.len() == 0 {
        assert(limbs_value(t.drop_first()) == 0);
    } else {
        lemma_limbs_value_trailing_zero(s.drop_first(), t.drop_first());
    }
}

/// With the is-zero result a boolean telling whether the modulus is zero, the
/// effective modulus polynomial, read in base 256, is the modulus, or `2^256` when
/// the modulus is zero.
pub proof fn lemma_p_modulus_is_effective_modulus(local: Seq<u32>, next: Seq<u32>)
    requires
        modulus_limbs_are_bytes(local),
        local[MODULUS_IS_ZERO_RESULT as int] == (if forall|i: int|
            0 <= i < NUM_LIMBS ==> #[trigger] local[modulus_limb_col(i)] == 0 {
            1u32
        } else {
            0u32
        }),
    ensures
        limbs_value(p_modulus_values(local, next)) == effective_modulus(local),
{
    lemma_uint256_layout();
    reveal_with_fuel(crate::air::eval_expr, 4);
    let v = p_modulus_values(local, next);
    let z = local[MODULUS_IS_ZERO_RESULT as int];
    let ez = crate::air::eval_expr(col(MODULUS_IS_ZERO_RESULT as int), local, next);
    assert(ez == z);
    assert(felt(0) == 0);
    assert(felt(1) == 1);
    assert(0 * ez == 0);
    assert(1 * ez == ez);
    assert forall|i: int| 0 <= i < NUM_LIMBS implies #[trigger] v[i] == (if z == 1 {
        0
    } else {
        local[modulus_limb_col(i)] as int
    }) by {
        let m = local[modulus_limb_col(i)] as int;
        assert(m < 256);
        let em = crate::air::eval_expr(col(modulus_limb_col(i)), local, next);
        assert(em == m);
        let one_minus = crate::air::eval_expr(
            Expr::Sub(Box::new(Expr::Constant(1)), Box::new(col(MODULUS_IS_ZERO_RESULT as int))),
            local,
            next,
        );
        let zero_z = crate::air::eval_expr(
            Expr::Mul(Box::new(Expr::Constant(0)), Box::new(col(MODULUS_IS_ZERO_RESULT as int))),
            local,
            next,
        );
        assert(zero_z == 0);
        if z == 1 {
            assert(one_minus == 0);
            assert(em * one_minus == 0);
        } else {
            assert(one_minus == 1);
            assert(em * one_minus == m);
        }
        assert(v[i] == crate::air::eval_expr(p_modulus_coeff(i), local, next));
    }
    assert(v[NUM_LIMBS as int] == crate::air::eval_expr(p_modulus_coeff(NUM_LIMBS as int), local, next));
    assert(v[NUM_LIMBS as int] == z);
    if z == 1 {
        lemma_limbs_value_zeros_then_one(v);
    } else {
        lemma_limbs_value_trailing_zero(modulus_limbs(local), v);
    }
}

/// A row satisfying the chip's assertions: `is_real` is 0 or 1 in the field; the
/// modulus-is-not-zero column is `is_real * (1 - modulus_is_zero)`; and on a real row
/// the value written over `x` is the multiplication gadget's result, limb by limb.
pub proof fn lemma_uint256_row_assertions(
    local: Seq<u32>,
    next: Seq<u32>,
    is_first_row: bool,
    is_transition: bool,
)
    requires
        local.len() == NUM_COLS,
        program_holds(uint256_program(), local, next, is_first_row, is_transition),
    ensures
        felt(local[IS_REAL as int] as int) == 0 || felt(local[IS_REAL as int] as int) == 1,
        felt(local[MODULUS_IS_NOT_ZERO as int] as int) == felt(
            felt(local[IS_REAL as int] as int) * felt(
                1 - felt(local[MODULUS_IS_ZERO_RESULT as int] as int),
            ),
        ),
        felt(local[IS_REAL as int] as int) == 1 ==> forall|i: int|
            0 <= i < NUM_LIMBS ==> felt(local[output_limb_col(i)] as int) == felt(
                #[trigger] local[x_value_limb_col(i)] as int,
            ),
{
    lemma_uint256_layout();
    reveal_with_fuel(crate::air::eval_expr, 4);
    let p = uint256_program();
    assert(stmt_holds(p[5], local, next, is_first_row, is_transition));
    let is_real = col(IS_REAL as int);
    assert(p[41] == StmtView::AssertBool { filter: RowFilter::EveryRow, expr: is_real });
    assert(stmt_holds(p[41], local, next, is_first_row, is_transition));
    let e = felt(local[IS_REAL as int] as int);
    assert(crate::air::eval_expr(is_real, local, next) == e);
    assert(felt(1 * (e * (e - 1))) == 0);
    assert(1 * (e * (e - 1)) == e * (e - 1));
    lemma_field_bit(e);
    if e == 1 {
        assert forall|i: int| 0 <= i < NUM_LIMBS implies felt(local[output_limb_col(i)] as int)
            == felt(#[trigger] local[x_value_limb_col(i)] as int) by {
            assert(p[6 + i] == StmtView::AssertEq {
                filter: RowFilter::When(is_real),
                lhs: col(output_limb_col(i)),
                rhs: col(x_value_limb_col(i)),
            });
            assert(stmt_holds(p[6 + i], local, next, is_first_row, is_transition));
            let a = felt(local[output_limb_col(i)] as int);
            let b = felt(local[x_value_limb_col(i)] as int);
            assert(felt(1 * (a - b)) == 0);
            assert(1 * (a - b) == a - b);
        }
    }
}

/// On a trace satisfying the chip's assertions, the nonce of row `r` is `r` in the
/// field: it starts at zero and increments from row to row.
pub proof fn lemma_uint256_nonce_counts_rows(trace: Seq<Seq<u32>>)
    requires
        trace_satisfies(uint256_program(), trace),
        forall|r: int| 0 <= r < trace.len() ==> (#[trigger] trace[r]).len() == NUM_COLS,
    ensures
        forall|r: int|
            0 <= r < trace.len() ==> felt((#[trigger] trace[r])[NONCE as int] as int) == r % (
            BABY_BEAR_P as int),
{
    assert forall|r: int| 0 <= r < trace.len() implies felt(
        (#[trigger] trace[r])[NONCE as int] as int,
    ) == r % (BABY_BEAR_P as int) by {
        lemma_nonce_at(trace, r);
    }
}

proof fn lemma_nonce_first_row(local: Seq<u32>, next: Seq<u32>, is_transition: bool)
    requires
        local.len() == NUM_COLS,
        program_holds(uint256_program(), local, next, true, is_transition),
    ensures
        felt(local[NONCE as int] as int) == 0,
{
    lemma_uint256_layout();
    reveal_with_fuel(crate::air::eval_expr, 2);
    let p = uint256_program();
    assert(stmt_holds(p[0], local, next, true, is_transition));
}

proof fn lemma_nonce_transition(local: Seq<u32>, next: Seq<u32>, is_first_row: bool)
    requires
        local.len() == NUM_COLS,
        next.len() == NUM_COLS,
        program_holds(uint256_program(), local, next, is_first_row, true),
    ensures
        felt(next[NONCE as int] as int) == felt(felt(local[NONCE as int] as int) + 1),
{
    lemma_uint256_layout();
    reveal_with_fuel(crate::air::eval_expr, 3);
    let p = uint256_program();
    assert(stmt_holds(p[1], local, next, is_first_row, true));
    let a = felt(felt(local[NONCE as int] as int) + felt(1));
    let b = felt(next[NONCE as int] as int);
    assert(felt(1 * (a - b)) == 0);
    assert(1 * (a - b) == a - b);
    assert(felt(1) == 1);
}

proof fn lemma_nonce_at(trace: Seq<Seq<u32>>, r: int)
    requires
        trace_satisfies(uint256_program(), trace),
        forall|q: int| 0 <= q < trace.len() ==> (#[trigger] trace[q]).len() == NUM_COLS,
        0 <= r < trace.len(),
    ensures
        felt(trace[r][NONCE as int] as int) == r % (BABY_BEAR_P as int),
    decreases r,
{
    let m = BABY_BEAR_P as int;
    if r == 0 {
        let next = if 1 < trace.len() { trace[1] } else { trace[0] };
        assert(program_holds(uint256_program(), trace[0], next, true, 1 < trace.len()));
        lemma_nonce_first_row(trace[0], next, 1 < trace.len());
    } else {
        lemma_nonce_at(trace, r - 1);
        assert(program_holds(uint256_program(), trace[r - 1], trace[r], r - 1 == 0, true));
        lemma_nonce_transition(trace[r - 1], trace[r], r - 1 == 0);
        assert(felt(felt(r - 1) + 1) == felt(r)) by {
            vstd::arithmetic::div_mod::lemma_add_mod_noop(r - 1, 1, m);
            vstd::arithmetic::div_mod::lemma_small_mod(1, m as nat);
            vstd::arithmetic::div_mod::lemma_mod_twice(r - 1, m);
        }
    }
}

/// Every column the chip's constraint program reads lies within its width.
pub proof fn lemma_uint256_columns_in_range()
    ensures
        program_within(uint256_program(), NUM_COLS as nat),
{
    lemma_uint256_layout();
    reveal_with_fuel(crate::air::expr_width, 4);
    let p = uint256_program();
    lemma_limb_sum_within(NUM_LIMBS as int);
    assert forall|k: int| 0 <= k < p.len() implies crate::air::stmt_within(
        #[trigger] p[k],
        NUM_COLS as nat,
    ) by {
        if k == 3 {
            let pm = p_modulus();
            assert forall|i: int| 0 <= i < pm.len() implies crate::air::expr_within(
                #[trigger] pm[i],
                NUM_COLS as nat,
            ) by {
                let z = col(MODULUS_IS_ZERO_RESULT as int);
                assert(crate::air::expr_width(Expr::Sub(Box::new(Expr::Constant(1)), Box::new(z)))
                    == 255);
            }
        }
    }
}

proof fn lemma_limb_sum_within(n: int)
    requires
        0 <= n <= NUM_LIMBS,
    ensures
        crate::air::expr_within(limb_sum(n), NUM_COLS as nat),
    decreases n,
{
    lemma_uint256_layout();
    reveal_with_fuel(crate::air::expr_width, 2);
    if n > 0 {
        lemma_limb_sum_within(n - 1);
    }
}

/// The 32 limbs a row holds in the columns `f` gives, as integers.
pub open spec fn row_limbs(local: Seq<u32>, f: spec_fn(int) -> int) -> Seq<int> {
    Seq::new(NUM_LIMBS as nat, |i: int| local[f(i)] as int)
}

/// The number `x` a row reads before writing over it.
pub open spec fn row_x(local: Seq<u32>) -> int {
    limbs_value(row_limbs(local, |i: int| x_prev_limb_col(i)))
}

/// The number `y` a row reads.
pub open spec fn row_y(local: Seq<u32>) -> int {
    limbs_value(row_limbs(local, |i: int| y_limb_col(i)))
}

/// The modulus a row reads.
pub open spec fn row_modulus(local: Seq<u32>) -> int {
    limbs_value(row_limbs(local, |i: int| modulus_limb_col(i)))
}

/// The number a row writes over `x`.
pub open spec fn row_written(local: Seq<u32>) -> int {
    limbs_value(row_limbs(local, |i: int| x_value_limb_col(i)))
}

/// Every limb column the chip's arithmetic reads lies within the row.
proof fn lemma_limb_cols_in_range(i: int)
    requires
        0 <= i < NUM_LIMBS,
    ensures
        0 <= x_prev_limb_col(i) < NUM_COLS,
        0 <= x_value_limb_col(i) < NUM_COLS,
        0 <= y_limb_col(i) < NUM_COLS,
        0 <= modulus_limb_col(i) < NUM_COLS,
        0 <= output_limb_col(i) < NUM_COLS,
{
    lemma_uint256_layout();
    assert(0 <= i / 4 <= 7);
    assert(0 <= (i / 4) * 13 <= 91) by (nonlinear_arith)
        requires
            0 <= i / 4 <= 7,
    ;
    assert(0 <= (i / 4) * 9 <= 63) by (nonlinear_arith)
        requires
            0 <= i / 4 <= 7,
    ;
}

/// On canonical cells, the limb expressions of the columns `f` gives evaluate to the
/// cells themselves.
proof fn lemma_eval_limbs(local: Seq<u32>, next: Seq<u32>, f: spec_fn(int) -> int)
    requires
        local.len() == NUM_COLS,
        all_canonical(local),
        forall|i: int| 0 <= i < NUM_LIMBS ==> 0 <= #[trigger] f(i) < NUM_COLS,
    ensures
        eval_exprs(limbs(f), local, next) == row_limbs(local, f),
{
    lemma_uint256_layout();
    assert forall|i: int| 0 <= i < NUM_LIMBS implies #[trigger] eval_exprs(limbs(f), local, next)[i]
        == row_limbs(local, f)[i] by {
        let c = f(i);
        assert(0 <= c < NUM_COLS);
        assert(is_canonical(local[c]));
        assert((c as usize) as int == c);
        assert(limbs(f)[i] == col(c));
        assert(eval_expr(col(c), local, next) == felt(local[c] as int));
    }
    assert(eval_exprs(limbs(f), local, next) =~= row_limbs(local, f));
}

/// A canonical cell is its own field value.
proof fn lemma_canonical_cell(local: Seq<u32>, c: int)
    requires
        all_canonical(local),
        0 <= c < local.len(),
    ensures
        felt(local[c] as int) == local[c] as int,
{
    assert(is_canonical(local[c]));
}

/// A little-endian number of byte limbs lies in `[0, 256^n)`.
proof fn lemma_limbs_value_bounds(s: Seq<int>)
    requires
        all_bytes(s),
    ensures
        0 <= limbs_value(s) < byte_power(s.len()),
    decreases s.len(),
{
    if s.len() > 0 {
        let t = s.drop_first();
        assert forall|i: int| 0 <= i < t.len() implies 0 <= #[trigger] t[i] < 256 by {
            assert(t[i] == s[i + 1]);
        }
        lemma_limbs_value_bounds(t);
        assert(0 <= s[0] < 256);
        assert(byte_power(s.len()) == 256 * byte_power(t.len()));
    }
}

/// A number whose limbs are all zero is zero.
proof fn lemma_limbs_value_zero(s: Seq<int>)
    requires
        forall|i: int| 0 <= i < s.len() ==> #[trigger] s[i] == 0,
    ensures
        limbs_value(s) == 0,
    decreases s.len(),
{
    if s.len() > 0 {
        let t = s.drop_first();
        assert forall|i: int| 0 <= i < t.len() implies #[trigger] t[i] == 0 by {
            assert(t[i] == s[i + 1]);
        }
        lemma_limbs_value_zero(t);
    }
}

/// A remainder below a positive modulus, congruent to `p`, is `p`'s remainder.
proof fn lemma_congruent_remainder(p: int, r: int, m: int)
    requires
        m > 0,
        0 <= r < m,
        (p - r) % m == 0,
    ensures
        r == p % m,
{
    vstd::arithmetic::div_mod::lemma_fundamental_div_mod(p - r, m);
    let q = (p - r) / m;
    assert(m * q == q * m) by (nonlinear_arith);
    vstd::arithmetic::div_mod::lemma_fundamental_div_mod_converse(p, m, q, r);
}

/// On a real row whose cells are canonical and whose modulus limbs are bytes, the
/// is-zero gadget's result is one exactly when every modulus byte is zero, and zero
/// otherwise: the byte sum it tests lies between 0 and `32 * 255`, below the field's
/// modulus, so a nonzero modulus cannot pass for zero.
pub proof fn lemma_uint256_modulus_zero_flag(local: Seq<u32>, next: Seq<u32>)
    requires
        all_canonical(local),
        modulus_limbs_are_bytes(local),
        program_gadgets_hold(uint256_program(), local, next),
        local[IS_REAL as int] == 1,
    ensures
        local[MODULUS_IS_ZERO_RESULT as int] == (if forall|i: int|
            0 <= i < NUM_LIMBS ==> #[trigger] local[modulus_limb_col(i)] == 0 {
            1u32
        } else {
            0u32
        }),
{
    lemma_uint256_layout();
    let p = uint256_program();
    assert(gadget_holds(p[2], local, next));
    let s = eval_expr(limb_sum(NUM_LIMBS as int), local, next);
    lemma_modulus_byte_total(local, next, NUM_LIMBS as int);
    assert(eval_expr(col(IS_REAL as int), local, next) == felt(local[IS_REAL as int] as int));
    assert(felt(1) == 1);
    let inv = felt(local[MODULUS_IS_ZERO as int] as int);
    lemma_canonical_cell(local, MODULUS_IS_ZERO_RESULT as int);
    let res = local[MODULUS_IS_ZERO_RESULT as int] as int;
    assert(is_zero_relation(s, inv, res));
    if forall|i: int| 0 <= i < NUM_LIMBS ==> #[trigger] local[modulus_limb_col(i)] == 0 {
        assert(s == 0);
        assert(inv * s == 0) by (nonlinear_arith)
            requires
                s == 0,
        ;
        assert(res == felt(1));
    } else {
        assert(0 < s <= 255 * 32);
        lemma_field_bit(res);
        if res == 1 {
            assert(res * s == s);
            assert(felt(s) == s);
            assert(false);
        }
    }
}

/// A real row that satisfies the chip's assertions, on which its gadgets establish
/// what they claim, with canonical cells and byte modulus limbs, writes
/// `(x * y) % m` over `x`, `m` being the modulus it reads, or `2^256` when that is
/// zero. The written number is below `2^256`, and below the modulus when that is
/// not zero.
pub proof fn lemma_uint256_row_computes_mul_mod(
    local: Seq<u32>,
    next: Seq<u32>,
    is_first_row: bool,
    is_transition: bool,
)
    requires
        all_canonical(local),
        modulus_limbs_are_bytes(local),
        program_holds(uint256_program(), local, next, is_first_row, is_transition),
        program_gadgets_hold(uint256_program(), local, next),
        local[IS_REAL as int] == 1,
    ensures
        row_written(local) == (row_x(local) * row_y(local)) % effective_modulus(local),
        0 <= row_written(local) < byte_power(NUM_LIMBS as nat),
        row_modulus(local) != 0 ==> row_written(local) < row_modulus(local),
{
    lemma_uint256_layout();
    let p = uint256_program();
    let fx = |i: int| x_prev_limb_col(i);
    let fy = |i: int| y_limb_col(i);
    let fm = |i: int| modulus_limb_col(i);
    let fo = |i: int| output_limb_col(i);
    let fw = |i: int| x_value_limb_col(i);
    assert forall|i: int| 0 <= i < NUM_LIMBS implies 0 <= #[trigger] fx(i) < NUM_COLS && 0
        <= fy(i) < NUM_COLS && 0 <= fm(i) < NUM_COLS && 0 <= fo(i) < NUM_COLS && 0 <= fw(i)
        < NUM_COLS by {
        lemma_limb_cols_in_range(i);
    }
    lemma_eval_limbs(local, next, fx);
    lemma_eval_limbs(local, next, fy);
    lemma_eval_limbs(local, next, fm);
    lemma_eval_limbs(local, next, fo);

    // The zero flag, then the effective modulus the gadget reduces by.
    lemma_uint256_modulus_zero_flag(local, next);
    lemma_p_modulus_is_effective_modulus(local, next);
    let m = effective_modulus(local);
    assert(eval_exprs(p_modulus(), local, next) =~= p_modulus_values(local, next));

    // What the multiplication gadget establishes.
    assert(gadget_holds(p[3], local, next));
    assert(eval_expr(col(IS_REAL as int), local, next) == 1) by {
        assert(felt(1) == 1);
    }
    let r = field_cells(local, OUTPUT as int, NUM_LIMBS as nat);
    assert(all_bytes(r));
    assert((row_x(local) * row_y(local) - limbs_value(r)) % limbs_value(
        eval_exprs(p_modulus(), local, next),
    ) == 0);

    // The gadget's result is what the row writes over x.
    lemma_uint256_row_assertions(local, next, is_first_row, is_transition);
    lemma_canonical_cell(local, IS_REAL as int);
    assert forall|i: int| 0 <= i < NUM_LIMBS implies #[trigger] r[i] == row_limbs(local, fw)[i]
        && r[i] == row_limbs(local, fo)[i] by {
        lemma_limb_cols_in_range(i);
        lemma_canonical_cell(local, output_limb_col(i));
        lemma_canonical_cell(local, x_value_limb_col(i));
        assert(felt(local[output_limb_col(i)] as int) == felt(local[x_value_limb_col(i)] as int));
    }
    assert(r =~= row_limbs(local, fw));
    assert(r =~= row_limbs(local, fo));
    let z = limbs_value(r);
    assert(z == row_written(local));
    lemma_limbs_value_bounds(r);

    if forall|i: int| 0 <= i < NUM_LIMBS ==> #[trigger] local[modulus_limb_col(i)] == 0 {
        assert(m == byte_power(NUM_LIMBS as nat));
        lemma_congruent_remainder(row_x(local) * row_y(local), z, m);
        assert forall|i: int| 0 <= i < NUM_LIMBS implies #[trigger] row_limbs(local, fm)[i] == 0 by {
            assert(local[modulus_limb_col(i)] == 0);
        }
        lemma_limbs_value_zero(row_limbs(local, fm));
    } else {
        // The less-than gadget applies: the modulus-is-not-zero column is one.
        lemma_canonical_cell(local, MODULUS_IS_NOT_ZERO as int);
        lemma_canonical_cell(local, MODULUS_IS_ZERO_RESULT as int);
        assert(local[MODULUS_IS_ZERO_RESULT as int] == 0);
        assert(felt(1 - 0) == 1);
        assert(felt(1int * 1) == 1);
        assert(local[MODULUS_IS_NOT_ZERO as int] == 1);
        assert(eval_expr(col(MODULUS_IS_NOT_ZERO as int), local, next) == 1);
        assert(gadget_holds(p[4], local, next));
        assert(z < row_modulus(local));
        assert(modulus_limbs(local) =~= row_limbs(local, fm));
        assert(m == row_modulus(local));
        lemma_congruent_remainder(row_x(local) * row_y(local), z, m);
    }
}

/// The statement accesses the eight words of `x`: read-write column groups from
/// `X_MEMORY`, each with its previous value and access columns.
pub open spec fn accesses_x_words(s: StmtView) -> bool {
    &&& s is MemoryAccessSlice
    &&& s->accesses.len() == WORDS_FIELD_ELEMENT
    &&& forall|w: int|
        0 <= w < WORDS_FIELD_ELEMENT ==> #[trigger] s->accesses[w] == (MemoryColsRef {
            prev_value: (X_MEMORY + w * NUM_MEMORY_WRITE_COLS + PREV_VALUE) as usize,
            access: (X_MEMORY + w * NUM_MEMORY_WRITE_COLS + ACCESS) as usize,
        })
}

/// The statement accesses the sixteen words of `y` then the modulus: read column
/// groups from `Y_MEMORY`.
pub open spec fn accesses_y_and_modulus_words(s: StmtView) -> bool {
    &&& s is MemoryAccessSlice
    &&& s->accesses.len() == 2 * WORDS_FIELD_ELEMENT
    &&& forall|w: int|
        0 <= w < 2 * WORDS_FIELD_ELEMENT ==> #[trigger] s->accesses[w] == (MemoryColsRef {
            prev_value: (Y_MEMORY + w * NUM_MEMORY_READ_COLS + ACCESS_VALUE) as usize,
            access: (Y_MEMORY + w * NUM_MEMORY_READ_COLS) as usize,
        })
}

/// The statement receives a syscall.
pub open spec fn receives_syscall(s: StmtView) -> bool {
    &&& s is Interaction
    &&& s->kind == InteractionKind::Syscall
}

/// When and where the chip touches memory, and what syscall it answers. On every
/// row, the program reads `y` and the modulus (sixteen words) from `y_ptr` at the
/// row's clock, and reads and writes `x` (eight words) from `x_ptr` one clock
/// later, both in the row's shard and with multiplicity `is_real`. It receives one
/// syscall message: the shard, the clock, the nonce, the multiplication's id, then
/// the `x` slice's pointer and the `y` slice's pointer.
pub proof fn lemma_uint256_memory_and_syscall(local: Seq<u32>, next: Seq<u32>)
    requires
        local.len() == NUM_COLS,
    ensures
        exists|k: int| 0 <= k < uint256_program().len() && accesses_x_words(#[trigger] uint256_program()[k]),
        exists|k: int|
            0 <= k < uint256_program().len() && accesses_y_and_modulus_words(
                #[trigger] uint256_program()[k],
            ),
        exists|k: int| 0 <= k < uint256_program().len() && receives_syscall(#[trigger] uint256_program()[k]),
        forall|k: int|
            0 <= k < uint256_program().len() && accesses_x_words(#[trigger] uint256_program()[k]) ==> {
                let s = uint256_program()[k];
                &&& eval_expr(s->clk, local, next) == felt(local[CLK as int] + 1)
                &&& eval_expr(s->ptr, local, next) == felt(local[X_PTR as int] as int)
                &&& eval_expr(s->shard, local, next) == felt(local[SHARD as int] as int)
                &&& eval_expr(s->MemoryAccessSlice_is_real, local, next) == felt(local[IS_REAL as int] as int)
            },
        forall|k: int|
            0 <= k < uint256_program().len() && accesses_y_and_modulus_words(
                #[trigger] uint256_program()[k],
            ) ==> {
                let s = uint256_program()[k];
                &&& eval_expr(s->clk, local, next) == felt(local[CLK as int] as int)
                &&& eval_expr(s->ptr, local, next) == felt(local[Y_PTR as int] as int)
                &&& eval_expr(s->shard, local, next) == felt(local[SHARD as int] as int)
                &&& eval_expr(s->MemoryAccessSlice_is_real, local, next) == felt(local[IS_REAL as int] as int)
            },
        forall|k: int|
            0 <= k < uint256_program().len() && receives_syscall(#[trigger] uint256_program()[k]) ==> {
                let s = uint256_program()[k];
                &&& s->direction == Direction::Receive
                &&& s->scope == InteractionScope::Local
                &&& s->values.len() == 6
                &&& eval_expr(s->values[0], local, next) == felt(local[SHARD as int] as int)
                &&& eval_expr(s->values[1], local, next) == felt(local[CLK as int] as int)
                &&& eval_expr(s->values[2], local, next) == felt(local[NONCE as int] as int)
                &&& eval_expr(s->values[3], local, next) == 0x1D
                &&& eval_expr(s->values[4], local, next) == felt(local[X_PTR as int] as int)
                &&& eval_expr(s->values[5], local, next) == felt(local[Y_PTR as int] as int)
                &&& eval_expr(s->multiplicity, local, next) == felt(local[IS_REAL as int] as int)
            },
{
    lemma_uint256_layout();
    reveal_with_fuel(crate::air::eval_expr, 2);
    let p = uint256_program();
    assert(p.len() == 42);
    assert(accesses_x_words(p[38]));
    assert(accesses_y_and_modulus_words(p[39]));
    assert(receives_syscall(p[40]));
    assert(felt(1) == 1);
    assert(felt(0x1D) == 0x1D);
    assert forall|k: int| 0 <= k < p.len() && accesses_x_words(#[trigger] p[k]) implies k == 38 by {
        if 6 <= k < 38 {
            assert(p[k] is AssertEq);
        }
    }
    assert forall|k: int| 0 <= k < p.len() && accesses_y_and_modulus_words(#[trigger] p[k]) implies k
        == 39 by {
        if 6 <= k < 38 {
            assert(p[k] is AssertEq);
        }
    }
    assert forall|k: int| 0 <= k < p.len() && receives_syscall(#[trigger] p[k]) implies k == 40 by {
        if 6 <= k < 38 {
            assert(p[k] is AssertEq);
        }
    }
}

/// `x - x % m` is a multiple of `m`.
proof fn lemma_sub_mod_is_multiple(x: int, m: int)
    requires
        m > 0,
    ensures
        (x - x % m) % m == 0,
{
    vstd::arithmetic::div_mod::lemma_fundamental_div_mod(x, m);
    assert(x - x % m == (x / m) * m) by (nonlinear_arith)
        requires
            x == m * (x / m) + x % m,
    ;
    vstd::arithmetic::div_mod::lemma_mod_multiples_basic(x / m, m);
}

/// `256^k` is positive.
proof fn lemma_byte_power_positive(k: nat)
    ensures
        byte_power(k) > 0,
    decreases k,
{
    if k > 0 {
        lemma_byte_power_positive((k - 1) as nat);
    }
}

/// A zero modulus stands for `2^256`, and the chip proves such multiplications: on a
/// real row whose modulus bytes are all zero, with the is-zero result one and the
/// modulus-is-not-zero flag zero, that writes the bytes of `(x * y) % 2^256` both as
/// the multiplication's result and over `x`, every assertion of the program holds
/// (apart from the nonce's, which tie the row to its neighbours) and every gadget
/// establishes its relation. In particular the result's less-than check against
/// the modulus is switched off: its condition is zero.
pub proof fn lemma_uint256_zero_modulus_row_is_accepted(local: Seq<u32>, next: Seq<u32>)
    requires
        local.len() == NUM_COLS,
        all_canonical(local),
        local[IS_REAL as int] == 1,
        forall|i: int| 0 <= i < NUM_LIMBS ==> #[trigger] local[modulus_limb_col(i)] == 0,
        local[MODULUS_IS_ZERO_RESULT as int] == 1,
        local[MODULUS_IS_NOT_ZERO as int] == 0,
        all_bytes(row_limbs(local, |i: int| output_limb_col(i))),
        limbs_value(row_limbs(local, |i: int| output_limb_col(i))) == (row_x(local) * row_y(local))
            % byte_power(NUM_LIMBS as nat),
        forall|i: int|
            0 <= i < NUM_LIMBS ==> #[trigger] local[x_value_limb_col(i)] == local[output_limb_col(i)],
    ensures
        program_holds(uint256_program(), local, next, false, false),
        program_gadgets_hold(uint256_program(), local, next),
        forall|k: int|
            0 <= k < uint256_program().len() && (#[trigger] uint256_program()[k]) is FieldLessThan
                ==> eval_expr(uint256_program()[k]->condition, local, next) == 0,
{
    lemma_uint256_layout();
    reveal_with_fuel(crate::air::eval_expr, 4);
    let p = uint256_program();
    assert(p.len() == 42);
    assert(felt(1) == 1);
    assert(felt(0) == 0);
    let fx = |i: int| x_prev_limb_col(i);
    let fy = |i: int| y_limb_col(i);
    let fo = |i: int| output_limb_col(i);
    assert forall|i: int| 0 <= i < NUM_LIMBS implies 0 <= #[trigger] fx(i) < NUM_COLS && 0 <= fy(i)
        < NUM_COLS && 0 <= fo(i) < NUM_COLS by {
        lemma_limb_cols_in_range(i);
    }
    lemma_eval_limbs(local, next, fx);
    lemma_eval_limbs(local, next, fy);
    lemma_canonical_cell(local, IS_REAL as int);
    lemma_canonical_cell(local, MODULUS_IS_ZERO_RESULT as int);
    lemma_canonical_cell(local, MODULUS_IS_NOT_ZERO as int);
    let is_real = col(IS_REAL as int);
    assert(eval_expr(is_real, local, next) == 1);

    // The primitive assertions.
    assert forall|k: int| 0 <= k < p.len() implies stmt_holds(#[trigger] p[k], local, next, false, false) by {
        if k == 5 {
            let one_minus = Expr::Sub(
                Box::new(Expr::Constant(1)),
                Box::new(col(MODULUS_IS_ZERO_RESULT as int)),
            );
            assert(eval_expr(one_minus, local, next) == 0);
            assert(eval_expr(Expr::Mul(Box::new(is_real), Box::new(one_minus)), local, next) == 0);
        } else if 6 <= k < 38 {
            let i = k - 6;
            lemma_limb_cols_in_range(i);
            assert(p[k] == StmtView::AssertEq {
                filter: RowFilter::When(is_real),
                lhs: col(output_limb_col(i)),
                rhs: col(x_value_limb_col(i)),
            });
            assert(local[x_value_limb_col(i)] == local[output_limb_col(i)]);
        } else if k == 41 {
            assert(1int * (1int - 1) == 0);
        }
    }

    // The is-zero gadget: the byte sum is zero and the result one.
    assert(modulus_limbs_are_bytes(local));
    lemma_modulus_byte_total(local, next, NUM_LIMBS as int);
    let sum = eval_expr(limb_sum(NUM_LIMBS as int), local, next);
    assert(sum == 0);
    let inv = felt(local[MODULUS_IS_ZERO as int] as int);
    assert(inv * sum == 0) by (nonlinear_arith)
        requires
            sum == 0,
    ;
    assert(is_zero_relation(sum, inv, 1));
    assert(gadget_holds(p[2], local, next));

    // The multiplication gadget reduces by the effective modulus, `2^256`.
    assert(forall|i: int| 0 <= i < NUM_LIMBS ==> #[trigger] local[modulus_limb_col(i)] == 0);
    lemma_p_modulus_is_effective_modulus(local, next);
    assert(eval_exprs(p_modulus(), local, next) =~= p_modulus_values(local, next));
    let m = byte_power(NUM_LIMBS as nat);
    lemma_byte_power_positive(NUM_LIMBS as nat);
    let r = field_cells(local, OUTPUT as int, NUM_LIMBS as nat);
    assert forall|i: int| 0 <= i < NUM_LIMBS implies #[trigger] r[i] == row_limbs(local, fo)[i] by {
        lemma_limb_cols_in_range(i);
        lemma_canonical_cell(local, output_limb_col(i));
    }
    assert(r =~= row_limbs(local, fo));
    lemma_sub_mod_is_multiple(row_x(local) * row_y(local), m);
    assert(gadget_holds(p[3], local, next));

    // The less-than check is off.
    assert(eval_expr(col(MODULUS_IS_NOT_ZERO as int), local, next) == 0);
    assert(gadget_holds(p[4], local, next));
    assert forall|k: int| 0 <= k < p.len() implies gadget_holds(#[trigger] p[k], local, next) by {
        if 6 <= k < 38 {
            assert(p[k] is AssertEq);
        }
    }
    assert forall|k: int| 0 <= k < p.len() && (#[trigger] p[k]) is FieldLessThan implies eval_expr(
        p[k]->condition,
        local,
        next,
    ) == 0 by {
        if 6 <= k < 38 {
            assert(p[k] is AssertEq);
        }
    }
}

} // verus!
