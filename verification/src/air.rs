//! Constraint programs: what a chip's AIR asserts and which messages it exchanges,
//! written as data over the columns of the current and the next row.
//!
//! A chip's `eval` returns a sequence of [`AirStatement`]s, one per call its AIR makes
//! on a constraint builder, in the order it makes them. The primitive assertions have
//! a meaning over concrete rows ([`stmt_holds`]); interactions and the gadget calls
//! (is-zero, emulated field operations, memory accesses) are carried as data.

use vstd::prelude::*;
use crate::field::{felt, BABY_BEAR_P};

verus! {

/// The table an interaction talks to.
#[derive(Clone, Copy, Debug, PartialEq, Eq, Structural)]
pub enum InteractionKind {
    Memory,
    Program,
    Instruction,
    Alu,
    Byte,
    Range,
    Field,
    Syscall,
}

/// Whether an interaction is balanced within a shard or across all shards.
#[derive(Clone, Copy, Debug, PartialEq, Eq, Structural)]
pub enum InteractionScope {
    Global,
    Local,
}

/// Whether the chip sends or receives a message.
#[derive(Clone, Copy, Debug, PartialEq, Eq, Structural)]
pub enum Direction {
    Send,
    Receive,
}

/// The operation an emulated field gadget constrains.
#[derive(Clone, Copy, Debug, PartialEq, Eq, Structural)]
pub enum FieldOperation {
    Add,
    Mul,
    Sub,
    Div,
}

/// A polynomial expression over the main trace, evaluated in the BabyBear field.
#[derive(Debug, PartialEq, Eq)]
pub enum Expr {
    /// A column of the current row.
    Local(usize),
    /// A column of the next row.
    Next(usize),
    /// A constant, taken modulo the field prime.
    Constant(u32),
    Add(Box<Expr>, Box<Expr>),
    Sub(Box<Expr>, Box<Expr>),
    Mul(Box<Expr>, Box<Expr>),
}

/// The rows on which an assertion applies: a builder's `when_*` filters.
#[derive(Debug, PartialEq, Eq)]
pub enum RowFilter {
    EveryRow,
    FirstRow,
    Transition,
    /// The assertion is multiplied by this expression.
    When(Expr),
}

/// The columns of one memory access: where its previous value word starts and
/// where its access columns (value word, previous shard and clock, comparison
/// flag, difference limbs) start. For a read the previous value is the value.
#[derive(Clone, Copy, Debug, PartialEq, Eq, Structural)]
pub struct MemoryColsRef {
    pub prev_value: usize,
    pub access: usize,
}

/// One call of a chip's AIR on its constraint builder.
#[derive(Debug, PartialEq, Eq)]
pub enum AirStatement {
    /// `expr == 0` on the filtered rows.
    AssertZero { filter: RowFilter, expr: Expr },
    /// `lhs == rhs` on the filtered rows.
    AssertEq { filter: RowFilter, lhs: Expr, rhs: Expr },
    /// `expr` is 0 or 1 on the filtered rows.
    AssertBool { filter: RowFilter, expr: Expr },
    /// A message sent to or received from another table, with a multiplicity.
    Interaction {
        direction: Direction,
        kind: InteractionKind,
        scope: InteractionScope,
        values: Vec<Expr>,
        multiplicity: Expr,
    },
    /// The is-zero gadget on `input`, with its columns starting at `cols`.
    IsZero { input: Expr, cols: usize, is_real: Expr },
    /// The emulated field gadget computing `a op b` modulo the polynomial `modulus`,
    /// with its columns starting at `cols`.
    FieldOpWithModulus {
        op: FieldOperation,
        a: Vec<Expr>,
        b: Vec<Expr>,
        modulus: Vec<Expr>,
        cols: usize,
        is_real: Expr,
    },
    /// The gadget asserting `lhs < rhs` as little-endian limb numbers when
    /// `condition` holds, with its columns starting at `cols`.
    FieldLessThan { lhs_limbs: Vec<Expr>, rhs_limbs: Vec<Expr>, cols: usize, condition: Expr },
    /// Consecutive word accesses from `ptr` at `(shard, clk)`.
    MemoryAccessSlice {
        shard: Expr,
        clk: Expr,
        ptr: Expr,
        accesses: Vec<MemoryColsRef>,
        is_real: Expr,
    },
}

/// The mathematical content of an [`AirStatement`]: its vectors as sequences.
pub enum StmtView {
    AssertZero { filter: RowFilter, expr: Expr },
    AssertEq { filter: RowFilter, lhs: Expr, rhs: Expr },
    AssertBool { filter: RowFilter, expr: Expr },
    Interaction {
        direction: Direction,
        kind: InteractionKind,
        scope: InteractionScope,
        values: Seq<Expr>,
        multiplicity: Expr,
    },
    IsZero { input: Expr, cols: usize, is_real: Expr },
    FieldOpWithModulus {
        op: FieldOperation,
        a: Seq<Expr>,
        b: Seq<Expr>,
        modulus: Seq<Expr>,
        cols: usize,
        is_real: Expr,
    },
    FieldLessThan { lhs_limbs: Seq<Expr>, rhs_limbs: Seq<Expr>, cols: usize, condition: Expr },
    MemoryAccessSlice {
        shard: Expr,
        clk: Expr,
        ptr: Expr,
        accesses: Seq<MemoryColsRef>,
        is_real: Expr,
    },
}

impl View for AirStatement {
    type V = StmtView;

    open spec fn view(&self) -> StmtView {
        match self {
            AirStatement::AssertZero { filter, expr } => StmtView::AssertZero {
                filter: *filter,
                expr: *expr,
            },
            AirStatement::AssertEq { filter, lhs, rhs } => StmtView::AssertEq {
                filter: *filter,
                lhs: *lhs,
                rhs: *rhs,
            },
            AirStatement::AssertBool { filter, expr } => StmtView::AssertBool {
                filter: *filter,
                expr: *expr,
            },
            AirStatement::Interaction { direction, kind, scope, values, multiplicity } =>
                StmtView::Interaction {
                direction: *direction,
                kind: *kind,
                scope: *scope,
                values: values@,
                multiplicity: *multiplicity,
            },
            AirStatement::IsZero { input, cols, is_real } => StmtView::IsZero {
                input: *input,
                cols: *cols,
                is_real: *is_real,
            },
            AirStatement::FieldOpWithModulus { op, a, b, modulus, cols, is_real } =>
                StmtView::FieldOpWithModulus {
                op: *op,
                a: a@,
                b: b@,
                modulus: modulus@,
                cols: *cols,
                is_real: *is_real,
            },
            AirStatement::FieldLessThan { lhs_limbs, rhs_limbs, cols, condition } =>
                StmtView::FieldLessThan {
                lhs_limbs: lhs_limbs@,
                rhs_limbs: rhs_limbs@,
                cols: *cols,
                condition: *condition,
            },
            AirStatement::MemoryAccessSlice { shard, clk, ptr, accesses, is_real } =>
                StmtView::MemoryAccessSlice {
                shard: *shard,
                clk: *clk,
                ptr: *ptr,
                accesses: accesses@,
                is_real: *is_real,
            },
        }
    }
}

/// The view of a whole program.
pub open spec fn program_view(p: Seq<AirStatement>) -> Seq<StmtView> {
    p.map_values(|s: AirStatement| s@)
}

/// The value of an expression on a pair of rows, as a canonical field element.
pub open spec fn eval_expr(e: Expr, local: Seq<u32>, next: Seq<u32>) -> int
    decreases e,
{
    match e {
        Expr::Local(c) => felt(local[c as int] as int),
        Expr::Next(c) => felt(next[c as int] as int),
        Expr::Constant(v) => felt(v as int),
        Expr::Add(a, b) => felt(eval_expr(*a, local, next) + eval_expr(*b, local, next)),
        Expr::Sub(a, b) => felt(eval_expr(*a, local, next) - eval_expr(*b, local, next)),
        Expr::Mul(a, b) => felt(eval_expr(*a, local, next) * eval_expr(*b, local, next)),
    }
}

/// The factor a filter puts in front of an assertion on a given row.
pub open spec fn filter_factor(
    f: RowFilter,
    local: Seq<u32>,
    next: Seq<u32>,
    is_first_row: bool,
    is_transition: bool,
) -> int {
    match f {
        RowFilter::EveryRow => 1,
        RowFilter::FirstRow => if is_first_row { 1 } else { 0 },
        RowFilter::Transition => if is_transition { 1 } else { 0 },
        RowFilter::When(c) => eval_expr(c, local, next),
    }
}

/// Whether a primitive assertion holds on a pair of rows. Interactions and gadget
/// calls assert nothing here: their meaning lies in the tables and gadgets they name.
pub open spec fn stmt_holds(
    s: StmtView,
    local: Seq<u32>,
    next: Seq<u32>,
    is_first_row: bool,
    is_transition: bool,
) -> bool {
    match s {
        StmtView::AssertZero { filter, expr } => felt(
            filter_factor(filter, local, next, is_first_row, is_transition) * eval_expr(
                expr,
                local,
                next,
            ),
        ) == 0,
        StmtView::AssertEq { filter, lhs, rhs } => felt(
            filter_factor(filter, local, next, is_first_row, is_transition) * (eval_expr(
                lhs,
                local,
                next,
            ) - eval_expr(rhs, local, next)),
        ) == 0,
        StmtView::AssertBool { filter, expr } => felt(
            filter_factor(filter, local, next, is_first_row, is_transition) * (eval_expr(
                expr,
                local,
                next,
            ) * (eval_expr(expr, local, next) - 1)),
        ) == 0,
        _ => true,
    }
}

/// Every primitive assertion of a program holds on a pair of rows.
pub open spec fn program_holds(
    p: Seq<StmtView>,
    local: Seq<u32>,
    next: Seq<u32>,
    is_first_row: bool,
    is_transition: bool,
) -> bool {
    forall|k: int|
        0 <= k < p.len() ==> stmt_holds(#[trigger] p[k], local, next, is_first_row, is_transition)
}

/// The largest column index an expression reads, plus one (0 for a constant).
pub open spec fn expr_width(e: Expr) -> nat
    decreases e,
{
    match e {
        Expr::Local(c) => (c + 1) as nat,
        Expr::Next(c) => (c + 1) as nat,
        Expr::Constant(_) => 0,
        Expr::Add(a, b) => max_nat(expr_width(*a), expr_width(*b)),
        Expr::Sub(a, b) => max_nat(expr_width(*a), expr_width(*b)),
        Expr::Mul(a, b) => max_nat(expr_width(*a), expr_width(*b)),
    }
}

pub open spec fn max_nat(a: nat, b: nat) -> nat {
    if a >= b { a } else { b }
}

/// Every column an expression reads lies below `width`.
pub open spec fn expr_within(e: Expr, width: nat) -> bool {
    expr_width(e) <= width
}

pub open spec fn exprs_within(es: Seq<Expr>, width: nat) -> bool {
    forall|i: int| 0 <= i < es.len() ==> expr_within(#[trigger] es[i], width)
}

pub open spec fn filter_within(f: RowFilter, width: nat) -> bool {
    match f {
        RowFilter::When(c) => expr_within(c, width),
        _ => true,
    }
}

/// Every column a statement reads, its own gadget columns included (each gadget's
/// first column), lies below `width`.
pub open spec fn stmt_within(s: StmtView, width: nat) -> bool {
    match s {
        StmtView::AssertZero { filter, expr } => filter_within(filter, width) && expr_within(
            expr,
            width,
        ),
        StmtView::AssertEq { filter, lhs, rhs } => filter_within(filter, width) && expr_within(
            lhs,
            width,
        ) && expr_within(rhs, width),
        StmtView::AssertBool { filter, expr } => filter_within(filter, width) && expr_within(
            expr,
            width,
        ),
        StmtView::Interaction { values, multiplicity, .. } => exprs_within(values, width)
            && expr_within(multiplicity, width),
        StmtView::IsZero { input, cols, is_real } => expr_within(input, width) && cols < width
            && expr_within(is_real, width),
        StmtView::FieldOpWithModulus { a, b, modulus, cols, is_real, .. } => exprs_within(
            a,
            width,
        ) && exprs_within(b, width) && exprs_within(modulus, width) && cols < width
            && expr_within(is_real, width),
        StmtView::FieldLessThan { lhs_limbs, rhs_limbs, cols, condition } => exprs_within(
            lhs_limbs,
            width,
        ) && exprs_within(rhs_limbs, width) && cols < width && expr_within(condition, width),
        StmtView::MemoryAccessSlice { shard, clk, ptr, accesses, is_real } => expr_within(
            shard,
            width,
        ) && expr_within(clk, width) && expr_within(ptr, width) && expr_within(is_real, width)
            && forall|i: int|
            0 <= i < accesses.len() ==> #[trigger] accesses[i].prev_value < width
                && accesses[i].access < width,
    }
}

/// Every statement of a program reads only columns below `width`.
pub open spec fn program_within(p: Seq<StmtView>, width: nat) -> bool {
    forall|k: int| 0 <= k < p.len() ==> stmt_within(#[trigger] p[k], width)
}

/// A trace satisfies a program when every row does, each with the following row as
/// its next (the last row with the first), the first row flagged as such and every
/// row but the last as a transition.
pub open spec fn trace_satisfies(p: Seq<StmtView>, trace: Seq<Seq<u32>>) -> bool {
    forall|r: int|
        0 <= r < trace.len() ==> program_holds(
            p,
            #[trigger] trace[r],
            if r + 1 < trace.len() {
                trace[r + 1]
            } else {
                trace[0]
            },
            r == 0,
            r + 1 < trace.len(),
        )
}

/// The number a little-endian sequence of base-256 digits stands for.
pub open spec fn limbs_value(s: Seq<int>) -> int
    decreases s.len(),
{
    if s.len() == 0 {
        0
    } else {
        s[0] + 256 * limbs_value(s.drop_first())
    }
}

/// `256^k`.
pub open spec fn byte_power(k: nat) -> int
    decreases k,
{
    if k == 0 {
        1
    } else {
        256 * byte_power((k - 1) as nat)
    }
}

/// Every value of a sequence is a byte.
pub open spec fn all_bytes(s: Seq<int>) -> bool {
    forall|i: int| 0 <= i < s.len() ==> 0 <= #[trigger] s[i] < 256
}

/// The values of a list of expressions on a pair of rows.
pub open spec fn eval_exprs(es: Seq<Expr>, local: Seq<u32>, next: Seq<u32>) -> Seq<int> {
    Seq::new(es.len(), |i: int| eval_expr(es[i], local, next))
}

/// `n` consecutive cells of a row from `start`, as field values.
pub open spec fn field_cells(local: Seq<u32>, start: int, n: nat) -> Seq<int> {
    Seq::new(n, |i: int| felt(local[start + i] as int))
}

/// What the is-zero gadget establishes on a real row, between its input, the
/// inverse column and the result column, in the field: the result is a root of
/// `X * (X - 1)`, it equals `1 - inverse * input`, and its product with the input
/// vanishes.
pub open spec fn is_zero_relation(input: int, inverse: int, result: int) -> bool {
    &&& felt(result * (result - 1)) == 0
    &&& result == felt(1 - inverse * input)
    &&& felt(result * input) == 0
}

/// What the emulated field gadget establishes between its operands `a` and `b`, its
/// result `r` and the modulus `m`, as integers: the operation's equation holds
/// modulo `m`, subtraction and division being checked as `r + b` and `r * b`.
pub open spec fn field_op_relation(op: FieldOperation, a: int, b: int, r: int, m: int) -> bool {
    match op {
        FieldOperation::Add => (a + b - r) % m == 0,
        FieldOperation::Mul => (a * b - r) % m == 0,
        FieldOperation::Sub => (r + b - a) % m == 0,
        FieldOperation::Div => (r * b - a) % m == 0,
    }
}

/// What a gadget call asserts about a row, as the gadget's own soundness argument
/// states it; primitive assertions, interactions and memory accesses assert nothing
/// here. These relations are not derived in this library from the polynomial
/// constraints the gadgets emit: laws that rest on them take them as hypotheses.
/// - is-zero: on a real row, [`is_zero_relation`] between the input and the
///   gadget's inverse and result columns;
/// - emulated field operation: on a real row, the result limbs (the gadget's first
///   columns, one per operand limb) are bytes and stand in [`field_op_relation`] to
///   the operands and the modulus, all read as little-endian base-256 numbers;
/// - less-than: when the condition is one, the left limbs read as a number lie
///   below the right ones.
pub open spec fn gadget_holds(s: StmtView, local: Seq<u32>, next: Seq<u32>) -> bool {
    match s {
        StmtView::IsZero { input, cols, is_real } => eval_expr(is_real, local, next) == 1
            ==> is_zero_relation(
            eval_expr(input, local, next),
            felt(local[cols as int] as int),
            felt(local[cols + 1] as int),
        ),
        StmtView::FieldOpWithModulus { op, a, b, modulus, cols, is_real } => eval_expr(
            is_real,
            local,
            next,
        ) == 1 ==> {
            let r = field_cells(local, cols as int, a.len());
            &&& all_bytes(r)
            &&& field_op_relation(
                op,
                limbs_value(eval_exprs(a, local, next)),
                limbs_value(eval_exprs(b, local, next)),
                limbs_value(r),
                limbs_value(eval_exprs(modulus, local, next)),
            )
        },
        StmtView::FieldLessThan { lhs_limbs, rhs_limbs, condition, .. } => eval_expr(
            condition,
            local,
            next,
        ) == 1 ==> limbs_value(eval_exprs(lhs_limbs, local, next)) < limbs_value(
            eval_exprs(rhs_limbs, local, next),
        ),
        _ => true,
    }
}

/// Every gadget call of a program asserts what [`gadget_holds`] says on a pair of rows.
pub open spec fn program_gadgets_hold(p: Seq<StmtView>, local: Seq<u32>, next: Seq<u32>) -> bool {
    forall|k: int| 0 <= k < p.len() ==> gadget_holds(#[trigger] p[k], local, next)
}

impl Expr {
    /// The value of the expression on a pair of concrete rows.
    pub fn evaluate(&self, local: &[u32], next: &[u32]) -> (r: u32)
        requires
            expr_width(*self) <= local@.len(),
            expr_width(*self) <= next@.len(),
        ensures
            r == eval_expr(*self, local@, next@),
            r < BABY_BEAR_P,
        decreases self,
    {
        let p = BABY_BEAR_P as u64;
        match self {
            Expr::Local(c) => local[*c] % BABY_BEAR_P,
            Expr::Next(c) => next[*c] % BABY_BEAR_P,
            Expr::Constant(v) => *v % BABY_BEAR_P,
            Expr::Add(a, b) => {
                let x = a.evaluate(local, next) as u64;
                let y = b.evaluate(local, next) as u64;
                ((x + y) % p) as u32
            },
            Expr::Sub(a, b) => {
                let x = a.evaluate(local, next) as u64;
                let y = b.evaluate(local, next) as u64;
                proof {
                    vstd::arithmetic::div_mod::lemma_mod_add_multiples_vanish(x - y, p as int);
                }
                ((x + p - y) % p) as u32
            },
            Expr::Mul(a, b) => {
                let x = a.evaluate(local, next) as u64;
                let y = b.evaluate(local, next) as u64;
                proof {
                    assert(x * y < 0x1_0000_0000_0000_0000) by (nonlinear_arith)
                        requires
                            x < 0x7800_0001,
                            y < 0x7800_0001,
                    ;
                }
                ((x * y) % p) as u32
            },
        }
    }
}

impl RowFilter {
    /// The factor the filter puts in front of an assertion on a pair of concrete rows.
    pub fn factor(&self, local: &[u32], next: &[u32], is_first_row: bool, is_transition: bool) -> (r: u32)
        requires
            filter_within(*self, local@.len() as nat),
            filter_within(*self, next@.len() as nat),
        ensures
            r == filter_factor(*self, local@, next@, is_first_row, is_transition),
            r < BABY_BEAR_P,
    {
        match self {
            RowFilter::EveryRow => 1,
            RowFilter::FirstRow => if is_first_row { 1 } else { 0 },
            RowFilter::Transition => if is_transition { 1 } else { 0 },
            RowFilter::When(c) => c.evaluate(local, next),
        }
    }
}

/// `factor * value` in the field, for canonical operands.
fn field_mul(factor: u32, value: u32) -> (r: u32)
    requires
        factor < BABY_BEAR_P,
        value < BABY_BEAR_P,
    ensures
        r == felt(factor * value),
{
    proof {
        assert(factor * value < 0x1_0000_0000_0000_0000) by (nonlinear_arith)
            requires
                factor < 0x7800_0001,
                value < 0x7800_0001,
        ;
    }
    ((factor as u64 * value as u64) % (BABY_BEAR_P as u64)) as u32
}

/// `a - b` in the field, for canonical operands.
fn field_sub(a: u32, b: u32) -> (r: u32)
    requires
        a < BABY_BEAR_P,
        b < BABY_BEAR_P,
    ensures
        r == felt(a - b),
        r < BABY_BEAR_P,
{
    proof {
        vstd::arithmetic::div_mod::lemma_mod_add_multiples_vanish(a - b, BABY_BEAR_P as int);
    }
    ((a as u64 + BABY_BEAR_P as u64 - b as u64) % (BABY_BEAR_P as u64)) as u32
}

impl AirStatement {
    /// Whether the statement holds on a pair of concrete rows (interactions and
    /// gadget calls always do, see [`stmt_holds`]).
    pub fn holds(&self, local: &[u32], next: &[u32], is_first_row: bool, is_transition: bool) -> (r: bool)
        requires
            stmt_within(self@, local@.len() as nat),
            stmt_within(self@, next@.len() as nat),
        ensures
            r == stmt_holds(self@, local@, next@, is_first_row, is_transition),
    {
        match self {
            AirStatement::AssertZero { filter, expr } => {
                let f = filter.factor(local, next, is_first_row, is_transition);
                let v = expr.evaluate(local, next);
                field_mul(f, v) == 0
            },
            AirStatement::AssertEq { filter, lhs, rhs } => {
                let f = filter.factor(local, next, is_first_row, is_transition);
                let a = lhs.evaluate(local, next);
                let b = rhs.evaluate(local, next);
                let d = field_sub(a, b);
                proof {
                    vstd::arithmetic::div_mod::lemma_mul_mod_noop_right(f as int, a - b, BABY_BEAR_P as int);
                }
                field_mul(f, d) == 0
            },
            AirStatement::AssertBool { filter, expr } => {
                let f = filter.factor(local, next, is_first_row, is_transition);
                let v = expr.evaluate(local, next);
                let v_minus_one = field_sub(v, 1);
                let sq = field_mul(v, v_minus_one);
                proof {
                    vstd::arithmetic::div_mod::lemma_mul_mod_noop_right(v as int, v - 1, BABY_BEAR_P as int);
                    vstd::arithmetic::div_mod::lemma_mul_mod_noop_right(f as int, v * (v - 1), BABY_BEAR_P as int);
                }
                field_mul(f, sq) == 0
            },
            _ => true,
        }
    }
}

/// Whether every statement of a program holds on a pair of concrete rows.
pub fn program_holds_on(
    program: &Vec<AirStatement>,
    local: &[u32],
    next: &[u32],
    is_first_row: bool,
    is_transition: bool,
) -> (r: bool)
    requires
        program_within(program_view(program@), local@.len() as nat),
        program_within(program_view(program@), next@.len() as nat),
    ensures
        r == program_holds(program_view(program@), local@, next@, is_first_row, is_transition),
{
    let mut k: usize = 0;
    while k < program.len()
        invariant
            program_within(program_view(program@), local@.len() as nat),
            program_within(program_view(program@), next@.len() as nat),
            k <= program@.len(),
            forall|j: int|
                0 <= j < k ==> stmt_holds(
                    #[trigger] program_view(program@)[j],
                    local@,
                    next@,
                    is_first_row,
                    is_transition,
                ),
        decreases program@.len() - k,
    {
        proof {
            assert(stmt_within(program_view(program@)[k as int], local@.len() as nat));
            assert(stmt_within(program_view(program@)[k as int], next@.len() as nat));
        }
        if !program[k].holds(local, next, is_first_row, is_transition) {
            proof {
                assert(!stmt_holds(program_view(program@)[k as int], local@, next@, is_first_row, is_transition));
            }
            return false;
        }
        k = k + 1;
    }
    true
}

} // verus!
