//! The local memory chip: each row carries four local memory accesses, and for each
//! real one the chip receives the memory state before the shard and sends the
//! state after it, in the global and in the local scope.

use vstd::prelude::*;
use crate::air::{
    program_holds,
    program_view,
    program_within,
    AirStatement,
    Direction,
    Expr,
    InteractionKind,
    InteractionScope,
    RowFilter,
    StmtView,
    stmt_holds,
};
use crate::field::{felt, lemma_field_bit};
use crate::record::{chip_included, ShardRecord};

verus! {

/// Number of field elements in a memory word.
pub const WORD_SIZE: usize = 4;

/// Number of local memory accesses one row of the chip carries.
pub const NUM_LOCAL_MEMORY_ENTRIES_PER_ROW: usize = 4;

/// Column offsets inside one access entry.
pub const ADDR: usize = 0;
pub const INITIAL_SHARD: usize = 1;
pub const FINAL_SHARD: usize = 2;
pub const INITIAL_CLK: usize = 3;
pub const FINAL_CLK: usize = 4;
pub const INITIAL_VALUE: usize = 5;
pub const FINAL_VALUE: usize = INITIAL_VALUE + WORD_SIZE;
pub const IS_REAL: usize = FINAL_VALUE + WORD_SIZE;

/// Number of columns of one access entry.
pub const NUM_SINGLE_MEMORY_LOCAL_COLS: usize = IS_REAL + 1;

/// Number of columns of the chip.
pub const NUM_MEMORY_LOCAL_INIT_COLS: usize = NUM_LOCAL_MEMORY_ENTRIES_PER_ROW
    * NUM_SINGLE_MEMORY_LOCAL_COLS;

/// The values of the layout constants.
#[verifier::spinoff_prover]
pub proof fn lemma_memory_local_layout()
    ensures
        INITIAL_VALUE == 5,
        FINAL_VALUE == 9,
        IS_REAL == 13,
        NUM_SINGLE_MEMORY_LOCAL_COLS == 14,
        NUM_MEMORY_LOCAL_INIT_COLS == 56,
{
    assert(WORD_SIZE == 4);
    assert(INITIAL_VALUE == 5);
    assert(FINAL_VALUE == 9);
    assert(IS_REAL == 13);
    assert(NUM_SINGLE_MEMORY_LOCAL_COLS == 14);
    assert(NUM_LOCAL_MEMORY_ENTRIES_PER_ROW == 4);
    assert(NUM_LOCAL_MEMORY_ENTRIES_PER_ROW * NUM_SINGLE_MEMORY_LOCAL_COLS == 56) by (nonlinear_arith)
        requires
            NUM_LOCAL_MEMORY_ENTRIES_PER_ROW == 4,
            NUM_SINGLE_MEMORY_LOCAL_COLS == 14,
    ;
}

/// The column of field `field` of entry `entry`.
pub open spec fn entry_col(entry: int, field: int) -> int {
    entry * NUM_SINGLE_MEMORY_LOCAL_COLS + field
}

/// The current-row expression of field `field` of entry `entry`.
pub open spec fn entry_expr(entry: int, field: int) -> Expr {
    Expr::Local(entry_col(entry, field) as usize)
}

/// `x * x * x`, as the chip writes it.
pub open spec fn cube(x: Expr) -> Expr {
    Expr::Mul(Box::new(Expr::Mul(Box::new(x), Box::new(x))), Box::new(x))
}

/// The message of an entry: shard, clock, address and value word, taken before the
/// shard (`initial`) or after it.
pub open spec fn entry_message(entry: int, initial: bool) -> Seq<Expr> {
    let shard = if initial { INITIAL_SHARD } else { FINAL_SHARD };
    let clk = if initial { INITIAL_CLK } else { FINAL_CLK };
    let value = if initial { INITIAL_VALUE } else { FINAL_VALUE };
    seq![entry_expr(entry, shard as int), entry_expr(entry, clk as int), entry_expr(entry, ADDR as int)]
        + Seq::new(WORD_SIZE as nat, |b: int| entry_expr(entry, value + b))
}

/// Statement `j` (of six) of entry `entry`: the degree-three assertion on `is_real`;
/// then, for the global and then the local scope, the receive of the initial state
/// and the send of the final state, each with multiplicity `is_real`; last, that
/// `is_real`, which tells whether the access is real, is a boolean.
pub open spec fn entry_stmt(entry: int, j: int) -> StmtView {
    let is_real = entry_expr(entry, IS_REAL as int);
    if j == 0 {
        StmtView::AssertEq { filter: RowFilter::EveryRow, lhs: cube(is_real), rhs: cube(is_real) }
    } else if j == 5 {
        StmtView::AssertBool { filter: RowFilter::EveryRow, expr: is_real }
    } else {
        StmtView::Interaction {
            direction: if j % 2 == 1 { Direction::Receive } else { Direction::Send },
            kind: InteractionKind::Memory,
            scope: if j <= 2 { InteractionScope::Global } else { InteractionScope::Local },
            values: entry_message(entry, j % 2 == 1),
            multiplicity: is_real,
        }
    }
}

/// Number of statements the chip's AIR emits per entry.
pub const STMTS_PER_ENTRY: usize = 6;

/// The chip's constraint program, entry by entry.
pub open spec fn memory_local_program() -> Seq<StmtView> {
    Seq::new(
        (NUM_LOCAL_MEMORY_ENTRIES_PER_ROW * STMTS_PER_ENTRY) as nat,
        |k: int| entry_stmt(k / STMTS_PER_ENTRY as int, k % STMTS_PER_ENTRY as int),
    )
}

/// One local memory access of a row.
#[derive(Clone, Copy, Debug, PartialEq, Eq)]
pub struct SingleMemoryLocal {
    /// The address of the memory access.
    pub addr: u32,
    /// The initial shard of the memory access.
    pub initial_shard: u32,
    /// The final shard of the memory access.
    pub final_shard: u32,
    /// The initial clk of the memory access.
    pub initial_clk: u32,
    /// The final clk of the memory access.
    pub final_clk: u32,
    /// The initial value of the memory access.
    pub initial_value: [u32; 4],
    /// The final value of the memory access.
    pub final_value: [u32; 4],
    /// Whether the memory access is a real access.
    pub is_real: u32,
}

impl SingleMemoryLocal {
    /// The field the entry keeps in its column `f`.
    pub open spec fn cell(&self, f: int) -> u32 {
        if f == ADDR {
            self.addr
        } else if f == INITIAL_SHARD {
            self.initial_shard
        } else if f == FINAL_SHARD {
            self.final_shard
        } else if f == INITIAL_CLK {
            self.initial_clk
        } else if f == FINAL_CLK {
            self.final_clk
        } else if INITIAL_VALUE <= f < FINAL_VALUE {
            self.initial_value@[f - INITIAL_VALUE]
        } else if FINAL_VALUE <= f < IS_REAL {
            self.final_value@[f - FINAL_VALUE]
        } else {
            self.is_real
        }
    }

    /// The entry laid out in `row` from column `base` on.
    fn from_row(row: &[u32], base: usize) -> (r: Self)
        requires
            base + NUM_SINGLE_MEMORY_LOCAL_COLS <= row@.len(),
        ensures
            forall|f: int|
                0 <= f < NUM_SINGLE_MEMORY_LOCAL_COLS ==> #[trigger] r.cell(f) == row@[base + f],
    {
        let r = SingleMemoryLocal {
            addr: row[base + ADDR],
            initial_shard: row[base + INITIAL_SHARD],
            final_shard: row[base + FINAL_SHARD],
            initial_clk: row[base + INITIAL_CLK],
            final_clk: row[base + FINAL_CLK],
            initial_value: [
                row[base + INITIAL_VALUE],
                row[base + INITIAL_VALUE + 1],
                row[base + INITIAL_VALUE + 2],
                row[base + INITIAL_VALUE + 3],
            ],
            final_value: [
                row[base + FINAL_VALUE],
                row[base + FINAL_VALUE + 1],
                row[base + FINAL_VALUE + 2],
                row[base + FINAL_VALUE + 3],
            ],
            is_real: row[base + IS_REAL],
        };
        r
    }

    /// Appends the entry's columns to `row`.
    fn push_to(&self, row: &mut Vec<u32>)
        ensures
            final(row)@ == old(row)@ + Seq::new(
                NUM_SINGLE_MEMORY_LOCAL_COLS as nat,
                |f: int| self.cell(f),
            ),
    {
        let ghost start = row@;
        row.push(self.addr);
        row.push(self.initial_shard);
        row.push(self.final_shard);
        row.push(self.initial_clk);
        row.push(self.final_clk);
        row.push(self.initial_value[0]);
        row.push(self.initial_value[1]);
        row.push(self.initial_value[2]);
        row.push(self.initial_value[3]);
        row.push(self.final_value[0]);
        row.push(self.final_value[1]);
        row.push(self.final_value[2]);
        row.push(self.final_value[3]);
        row.push(self.is_real);
        proof {
            assert(row@ =~= start + Seq::new(
                NUM_SINGLE_MEMORY_LOCAL_COLS as nat,
                |f: int| self.cell(f),
            ));
        }
    }
}

/// A row of the chip: its four access entries.
#[derive(Clone, Copy, Debug, PartialEq, Eq)]
pub struct MemoryLocalCols {
    pub memory_local_entries: [SingleMemoryLocal; 4],
}

impl MemoryLocalCols {
    /// The value the row keeps in column `k`.
    pub open spec fn cell(&self, k: int) -> u32 {
        self.memory_local_entries@[k / NUM_SINGLE_MEMORY_LOCAL_COLS as int].cell(
            k % NUM_SINGLE_MEMORY_LOCAL_COLS as int,
        )
    }

    /// The row's columns, in order.
    pub open spec fn cells(&self) -> Seq<u32> {
        Seq::new(NUM_MEMORY_LOCAL_INIT_COLS as nat, |k: int| self.cell(k))
    }

    /// Reads a row of the trace.
    pub fn from_row(row: &[u32]) -> (r: Self)
        requires
            row@.len() == NUM_MEMORY_LOCAL_INIT_COLS,
        ensures
            r.cells() == row@,
    {
        proof {
            lemma_memory_local_layout();
        }
        let r = MemoryLocalCols {
            memory_local_entries: [
                SingleMemoryLocal::from_row(row, 0),
                SingleMemoryLocal::from_row(row, NUM_SINGLE_MEMORY_LOCAL_COLS),
                SingleMemoryLocal::from_row(row, 2 * NUM_SINGLE_MEMORY_LOCAL_COLS),
                SingleMemoryLocal::from_row(row, 3 * NUM_SINGLE_MEMORY_LOCAL_COLS),
            ],
        };
        proof {
            assert forall|k: int| 0 <= k < NUM_MEMORY_LOCAL_INIT_COLS implies #[trigger] r.cell(k)
                == row@[k] by {
                let e = k / 14;
                let f = k % 14;
                assert(r.memory_local_entries@[e].cell(f) == row@[e * 14 + f]);
            }
            assert(r.cells() =~= row@);
        }
        r
    }

    /// Writes the row out as trace cells.
    pub fn to_row(&self) -> (r: Vec<u32>)
        ensures
            r@ == self.cells(),
    {
        proof {
            lemma_memory_local_layout();
        }
        let mut row: Vec<u32> = Vec::new();
        self.memory_local_entries[0].push_to(&mut row);
        self.memory_local_entries[1].push_to(&mut row);
        self.memory_local_entries[2].push_to(&mut row);
        self.memory_local_entries[3].push_to(&mut row);
        proof {
            assert forall|k: int| 0 <= k < NUM_MEMORY_LOCAL_INIT_COLS implies #[trigger] row@[k]
                == self.cell(k) by {
                let e = k / 14;
                let f = k % 14;
                assert(k == e * 14 + f);
            }
            assert(row@ =~= self.cells());
        }
        row
    }
}

/// A row's columns determine its entries: two rows with the same cells are the same
/// row, so the layout gives every field a column of its own and no column two fields.
pub proof fn lemma_memory_local_cols_determined(a: MemoryLocalCols, b: MemoryLocalCols)
    requires
        a.cells() == b.cells(),
    ensures
        a == b,
{
    lemma_memory_local_layout();
    assert forall|e: int| 0 <= e < 4 implies #[trigger] a.memory_local_entries@[e]
        == b.memory_local_entries@[e] by {
        let x = a.memory_local_entries@[e];
        let y = b.memory_local_entries@[e];
        assert forall|f: int| 0 <= f < NUM_SINGLE_MEMORY_LOCAL_COLS implies #[trigger] x.cell(f)
            == y.cell(f) by {
            assert((e * 14 + f) / 14 == e && (e * 14 + f) % 14 == f) by (nonlinear_arith)
                requires
                    0 <= f < 14,
                    0 <= e,
            ;
            let k = e * 14 + f;
            assert(0 <= k < 56);
            assert(a.cells()[k] == a.cell(k));
            assert(b.cells()[k] == b.cell(k));
            assert(a.cell(k) == x.cell(f));
            assert(b.cell(k) == y.cell(f));
        }
        assert(x.cell(ADDR as int) == y.cell(ADDR as int));
        assert(x.cell(INITIAL_SHARD as int) == y.cell(INITIAL_SHARD as int));
        assert(x.cell(FINAL_SHARD as int) == y.cell(FINAL_SHARD as int));
        assert(x.cell(INITIAL_CLK as int) == y.cell(INITIAL_CLK as int));
        assert(x.cell(FINAL_CLK as int) == y.cell(FINAL_CLK as int));
        assert(x.cell(IS_REAL as int) == y.cell(IS_REAL as int));
        assert(x.initial_value =~= y.initial_value) by {
            assert forall|i: int| 0 <= i < 4 implies x.initial_value@[i] == y.initial_value@[i] by {
                assert(x.cell(INITIAL_VALUE + i) == y.cell(INITIAL_VALUE + i));
            }
        }
        assert(x.final_value =~= y.final_value) by {
            assert forall|i: int| 0 <= i < 4 implies x.final_value@[i] == y.final_value@[i] by {
                assert(x.cell(FINAL_VALUE + i) == y.cell(FINAL_VALUE + i));
            }
        }
    }
    assert(a.memory_local_entries =~= b.memory_local_entries);
}

/// The chip that proves the local memory accesses of a shard.
pub struct MemoryLocalChip {}

impl MemoryLocalChip {
    /// Creates a new memory chip.
    pub fn new() -> (r: Self)
        ensures
            r == (MemoryLocalChip {}),
    {
        Self {  }
    }

    /// The number of main-trace columns.
    pub fn width(&self) -> (r: usize)
        ensures
            r == NUM_MEMORY_LOCAL_INIT_COLS,
    {
        NUM_MEMORY_LOCAL_INIT_COLS
    }

    /// The chip's name.
    pub fn name(&self) -> (r: String)
        ensures
            r@ == "MemoryLocal"@,
    {
        String::from_str("MemoryLocal")
    }

    /// Whether the shard's proof includes this chip: as the shard's shape says if it
    /// has one, otherwise when the shard has a local memory event.
    pub fn included(&self, shard: &ShardRecord) -> (r: bool)
        ensures
            r == chip_included(shard.shape, "MemoryLocal"@, shard.local_memory_events > 0),
    {
        match &shard.shape {
            Some(shape) => shape.included(&self.name()),
            None => shard.local_memory_events > 0,
        }
    }

    /// The scope in which the chip's trace is committed.
    pub fn commit_scope(&self) -> (r: InteractionScope)
        ensures
            r == InteractionScope::Global,
    {
        InteractionScope::Global
    }

    /// The constraint program of the chip's AIR.
    pub fn eval(&self) -> (r: Vec<AirStatement>)
        ensures
            program_view(r@) == memory_local_program(),
    {
        let mut out: Vec<AirStatement> = Vec::new();
        let mut e: usize = 0;
        while e < NUM_LOCAL_MEMORY_ENTRIES_PER_ROW
            invariant
                e <= NUM_LOCAL_MEMORY_ENTRIES_PER_ROW,
                out@.len() == e * STMTS_PER_ENTRY,
                forall|k: int|
                    0 <= k < out@.len() ==> (#[trigger] out@[k])@ == entry_stmt(
                        k / STMTS_PER_ENTRY as int,
                        k % STMTS_PER_ENTRY as int,
                    ),
            decreases NUM_LOCAL_MEMORY_ENTRIES_PER_ROW - e,
        {
            assert(NUM_SINGLE_MEMORY_LOCAL_COLS == 14);
            let base = e * NUM_SINGLE_MEMORY_LOCAL_COLS;
            let ghost start = out@.len();
            out.push(
                AirStatement::AssertEq {
                    filter: RowFilter::EveryRow,
                    lhs: cube_of(base + IS_REAL),
                    rhs: cube_of(base + IS_REAL),
                },
            );
            proof {
                assert(out@[start as int]@ == entry_stmt(e as int, 0));
            }
            let mut s: usize = 0;
            while s < 2
                invariant
                    e < NUM_LOCAL_MEMORY_ENTRIES_PER_ROW,
                    base == e * NUM_SINGLE_MEMORY_LOCAL_COLS,
                    base <= 3 * NUM_SINGLE_MEMORY_LOCAL_COLS,
                    start == e * STMTS_PER_ENTRY,
                    s <= 2,
                    out@.len() == start + 1 + 2 * s,
                    forall|k: int|
                        0 <= k < out@.len() ==> (#[trigger] out@[k])@ == entry_stmt(
                            k / STMTS_PER_ENTRY as int,
                            k % STMTS_PER_ENTRY as int,
                        ),
                decreases 2 - s,
            {
                let scope = if s == 0 {
                    InteractionScope::Global
                } else {
                    InteractionScope::Local
                };
                let ghost k1 = out@.len();
                out.push(
                    AirStatement::Interaction {
                        direction: Direction::Receive,
                        kind: InteractionKind::Memory,
                        scope,
                        values: message(e, true),
                        multiplicity: Expr::Local(base + IS_REAL),
                    },
                );
                proof {
                    assert(k1 / 6 == e && k1 % 6 == 1 + 2 * s);
                    assert(out@[k1 as int]@ == entry_stmt(e as int, 1 + 2 * s));
                }
                let ghost k2 = out@.len();
                out.push(
                    AirStatement::Interaction {
                        direction: Direction::Send,
                        kind: InteractionKind::Memory,
                        scope,
                        values: message(e, false),
                        multiplicity: Expr::Local(base + IS_REAL),
                    },
                );
                proof {
                    assert(k2 / 6 == e && k2 % 6 == 2 + 2 * s);
                    assert(out@[k2 as int]@ == entry_stmt(e as int, 2 + 2 * s));
                }
                s = s + 1;
            }
            let ghost k5 = out@.len();
            out.push(AirStatement::AssertBool { filter: RowFilter::EveryRow, expr: Expr::Local(base + IS_REAL) });
            proof {
                assert(k5 / 6 == e && k5 % 6 == 5);
                assert(out@[k5 as int]@ == entry_stmt(e as int, 5));
            }
            e = e + 1;
        }
        proof {
            assert(program_view(out@) =~= memory_local_program());
        }
        out
    }
}

/// `is_real * is_real * is_real` for the `is_real` column `c`.
fn cube_of(c: usize) -> (r: Expr)
    ensures
        r == cube(Expr::Local(c)),
{
    Expr::Mul(
        Box::new(Expr::Mul(Box::new(Expr::Local(c)), Box::new(Expr::Local(c)))),
        Box::new(Expr::Local(c)),
    )
}

/// The message of entry `e`, before (`initial`) or after the shard.
fn message(e: usize, initial: bool) -> (r: Vec<Expr>)
    requires
        e < NUM_LOCAL_MEMORY_ENTRIES_PER_ROW,
    ensures
        r@ == entry_message(e as int, initial),
{
    assert(NUM_SINGLE_MEMORY_LOCAL_COLS == 14);
    let base = e * NUM_SINGLE_MEMORY_LOCAL_COLS;
    let shard = if initial { INITIAL_SHARD } else { FINAL_SHARD };
    let clk = if initial { INITIAL_CLK } else { FINAL_CLK };
    let value = if initial { INITIAL_VALUE } else { FINAL_VALUE };
    let mut values: Vec<Expr> = Vec::new();
    values.push(Expr::Local(base + shard));
    values.push(Expr::Local(base + clk));
    values.push(Expr::Local(base + ADDR));
    let mut b: usize = 0;
    while b < WORD_SIZE
        invariant
            base == e * NUM_SINGLE_MEMORY_LOCAL_COLS,
            e < NUM_LOCAL_MEMORY_ENTRIES_PER_ROW,
            value == (if initial { INITIAL_VALUE } else { FINAL_VALUE }),
            b <= WORD_SIZE,
            values@.len() == 3 + b,
            values@[0] == entry_expr(e as int, (if initial { INITIAL_SHARD } else { FINAL_SHARD }) as int),
            values@[1] == entry_expr(e as int, (if initial { INITIAL_CLK } else { FINAL_CLK }) as int),
            values@[2] == entry_expr(e as int, ADDR as int),
            forall|j: int| 3 <= j < 3 + b ==> #[trigger] values@[j] == entry_expr(e as int, value + j - 3),
        decreases WORD_SIZE - b,
    {
        values.push(Expr::Local(base + value + b));
        b = b + 1;
    }
    proof {
        assert(values@ =~= entry_message(e as int, initial));
    }
    values
}

/// Every column a message of an entry reads lies within the chip's width.
proof fn lemma_message_within(entry: int, initial: bool)
    requires
        0 <= entry < NUM_LOCAL_MEMORY_ENTRIES_PER_ROW,
    ensures
        crate::air::exprs_within(entry_message(entry, initial), NUM_MEMORY_LOCAL_INIT_COLS as nat),
{
    lemma_memory_local_layout();
    let m = entry_message(entry, initial);
    assert forall|i: int| 0 <= i < m.len() implies crate::air::expr_within(
        #[trigger] m[i],
        NUM_MEMORY_LOCAL_INIT_COLS as nat,
    ) by {
        if i >= 3 {
            assert(m[i] == entry_expr(entry, (if initial { INITIAL_VALUE } else { FINAL_VALUE }) + i - 3));
        }
    }
}

/// Every column the chip's constraint program reads lies within its width.
pub proof fn lemma_memory_local_columns_in_range()
    ensures
        program_within(memory_local_program(), NUM_MEMORY_LOCAL_INIT_COLS as nat),
{
    lemma_memory_local_layout();
    assert forall|k: int| 0 <= k < memory_local_program().len() implies crate::air::stmt_within(
        #[trigger] memory_local_program()[k],
        NUM_MEMORY_LOCAL_INIT_COLS as nat,
    ) by {
        let e = k / 6;
        let j = k % 6;
        assert(0 <= e < 4);
        let x = entry_expr(e, IS_REAL as int);
        assert(crate::air::expr_width(Expr::Mul(Box::new(x), Box::new(x))) == crate::air::expr_width(x));
        lemma_message_within(e, j % 2 == 1);
    }
}

/// For every access entry and in both scopes, the chip receives the state before
/// the shard and sends the state after it, at the same address and with the same
/// multiplicity `is_real`.
pub proof fn lemma_memory_local_balances_each_entry(entry: int)
    requires
        0 <= entry < NUM_LOCAL_MEMORY_ENTRIES_PER_ROW,
    ensures
        forall|s: int|
            0 <= s < 2 ==> {
                let recv = #[trigger] memory_local_program()[entry * 6 + 1 + 2 * s];
                let send = memory_local_program()[entry * 6 + 2 + 2 * s];
                &&& recv matches StmtView::Interaction {
                    direction: Direction::Receive,
                    kind: InteractionKind::Memory,
                    scope: rs,
                    values: rv,
                    multiplicity: rm,
                }
                &&& send matches StmtView::Interaction {
                    direction: Direction::Send,
                    kind: InteractionKind::Memory,
                    scope: ss,
                    values: sv,
                    multiplicity: sm,
                }
                &&& rs == ss
                &&& rs == (if s == 0 { InteractionScope::Global } else { InteractionScope::Local })
                &&& rm == sm
                &&& rm == entry_expr(entry, IS_REAL as int)
                &&& rv[2] == sv[2]
                &&& rv[2] == entry_expr(entry, ADDR as int)
                &&& rv == entry_message(entry, true)
                &&& sv == entry_message(entry, false)
            },
{
    assert forall|s: int| 0 <= s < 2 implies {
        let recv = #[trigger] memory_local_program()[entry * 6 + 1 + 2 * s];
        let send = memory_local_program()[entry * 6 + 2 + 2 * s];
        &&& recv matches StmtView::Interaction {
            direction: Direction::Receive,
            kind: InteractionKind::Memory,
            scope: rs,
            values: rv,
            multiplicity: rm,
        }
        &&& send matches StmtView::Interaction {
            direction: Direction::Send,
            kind: InteractionKind::Memory,
            scope: ss,
            values: sv,
            multiplicity: sm,
        }
        &&& rs == ss
        &&& rs == (if s == 0 { InteractionScope::Global } else { InteractionScope::Local })
        &&& rm == sm
        &&& rm == entry_expr(entry, IS_REAL as int)
        &&& rv[2] == sv[2]
        &&& rv[2] == entry_expr(entry, ADDR as int)
        &&& rv == entry_message(entry, true)
        &&& sv == entry_message(entry, false)
    } by {
        assert((entry * 6 + 1 + 2 * s) / 6 == entry);
        assert((entry * 6 + 1 + 2 * s) % 6 == 1 + 2 * s);
        assert((entry * 6 + 2 + 2 * s) / 6 == entry);
        assert((entry * 6 + 2 + 2 * s) % 6 == 2 + 2 * s);
    }
}

/// A row satisfies the chip's assertions exactly when the `is_real` flag of each of
/// its entries is 0 or 1 as a field element: the degree-three assertion holds on
/// every row, and the boolean assertion rules out every other value.
pub proof fn lemma_memory_local_accepts_boolean_flags(
    local: Seq<u32>,
    next: Seq<u32>,
    is_first_row: bool,
    is_transition: bool,
)
    requires
        local.len() == NUM_MEMORY_LOCAL_INIT_COLS,
    ensures
        program_holds(memory_local_program(), local, next, is_first_row, is_transition) <==> forall|
            entry: int,
        |
            0 <= entry < NUM_LOCAL_MEMORY_ENTRIES_PER_ROW ==> {
                let v = felt(local[#[trigger] entry_col(entry, IS_REAL as int)] as int);
                v == 0 || v == 1
            },
{
    lemma_memory_local_layout();
    let p = memory_local_program();
    reveal_with_fuel(crate::air::eval_expr, 2);
    assert(felt(1) == 1);
    if program_holds(p, local, next, is_first_row, is_transition) {
        assert forall|entry: int| 0 <= entry < NUM_LOCAL_MEMORY_ENTRIES_PER_ROW implies {
            let v = felt(local[#[trigger] entry_col(entry, IS_REAL as int)] as int);
            v == 0 || v == 1
        } by {
            let k = entry * 6 + 5;
            assert(k / 6 == entry && k % 6 == 5);
            assert(stmt_holds(p[k], local, next, is_first_row, is_transition));
            let c = entry_col(entry, IS_REAL as int);
            let v = felt(local[c] as int);
            assert((c as usize) as int == c);
            assert(crate::air::eval_expr(entry_expr(entry, IS_REAL as int), local, next) == v);
            assert(1 * (v * (v - 1)) == v * (v - 1));
            lemma_field_bit(v);
        }
    }
    if forall|entry: int|
        0 <= entry < NUM_LOCAL_MEMORY_ENTRIES_PER_ROW ==> {
            let v = felt(local[#[trigger] entry_col(entry, IS_REAL as int)] as int);
            v == 0 || v == 1
        } {
        assert forall|k: int| 0 <= k < p.len() implies stmt_holds(
            #[trigger] p[k],
            local,
            next,
            is_first_row,
            is_transition,
        ) by {
            let entry = k / 6;
            if k % 6 == 5 {
                let c = entry_col(entry, IS_REAL as int);
                let v = felt(local[c] as int);
                assert((c as usize) as int == c);
                assert(crate::air::eval_expr(entry_expr(entry, IS_REAL as int), local, next) == v);
                assert(v == 0 || v == 1);
                assert(v * (v - 1) == 0) by (nonlinear_arith)
                    requires
                        v == 0 || v == 1,
                ;
                assert(felt(1 * 0int) == 0);
            }
        }
    }
}

} // verus!
