//! Memory access columns and the byte lookups that range-check them.
//!
//! An access is laid out as its value word, the shard and clock of the previous
//! access to the same address, a flag telling whether both accesses fall in the
//! same shard (then their clocks are compared, else their shards), and the
//! difference minus one of the compared times, split into a 16-bit and an 8-bit limb.
//! Reading or writing such columns records a 16-bit and an 8-bit range check.

use vstd::prelude::*;
use crate::field::{all_canonical, BABY_BEAR_P};
use crate::memory_local::WORD_SIZE;

verus! {

/// A byte table operation.
#[derive(Clone, Copy, Debug, PartialEq, Eq, Structural)]
pub enum ByteOpcode {
    AND,
    OR,
    XOR,
    SLL,
    U8Range,
    ShrCarry,
    LTU,
    MSB,
    U16Range,
}

/// A request to the byte table.
#[derive(Clone, Copy, Debug, PartialEq, Eq, Structural)]
pub struct ByteLookupEvent {
    pub shard: u32,
    pub opcode: ByteOpcode,
    pub a1: u16,
    pub a2: u8,
    pub b: u8,
    pub c: u8,
}

/// The time and value of a memory access.
#[derive(Clone, Copy, Debug, PartialEq, Eq, Structural)]
pub struct MemoryRecord {
    pub shard: u32,
    pub timestamp: u32,
    pub value: u32,
}

/// A read, with the time of the previous access to the same address.
#[derive(Clone, Copy, Debug, PartialEq, Eq, Structural)]
pub struct MemoryReadRecord {
    pub value: u32,
    pub shard: u32,
    pub timestamp: u32,
    pub prev_shard: u32,
    pub prev_timestamp: u32,
}

/// A write, with the value and time of the previous access to the same address.
#[derive(Clone, Copy, Debug, PartialEq, Eq, Structural)]
pub struct MemoryWriteRecord {
    pub value: u32,
    pub shard: u32,
    pub timestamp: u32,
    pub prev_value: u32,
    pub prev_shard: u32,
    pub prev_timestamp: u32,
}

/// Offsets inside the access columns.
pub const ACCESS_VALUE: usize = 0;
pub const ACCESS_PREV_SHARD: usize = ACCESS_VALUE + WORD_SIZE;
pub const ACCESS_PREV_CLK: usize = ACCESS_PREV_SHARD + 1;
pub const ACCESS_COMPARE_CLK: usize = ACCESS_PREV_CLK + 1;
pub const ACCESS_DIFF_16BIT_LIMB: usize = ACCESS_COMPARE_CLK + 1;
pub const ACCESS_DIFF_8BIT_LIMB: usize = ACCESS_DIFF_16BIT_LIMB + 1;
pub const NUM_MEMORY_ACCESS_COLS: usize = ACCESS_DIFF_8BIT_LIMB + 1;

/// Read columns are access columns alone.
pub const NUM_MEMORY_READ_COLS: usize = NUM_MEMORY_ACCESS_COLS;

/// Write and read-write columns: the previous value word, then the access columns.
pub const PREV_VALUE: usize = 0;
pub const ACCESS: usize = PREV_VALUE + WORD_SIZE;
pub const NUM_MEMORY_WRITE_COLS: usize = ACCESS + NUM_MEMORY_ACCESS_COLS;
pub const NUM_MEMORY_READ_WRITE_COLS: usize = NUM_MEMORY_WRITE_COLS;

/// The little-endian bytes of a word, as field cells.
pub open spec fn le_bytes(v: u32) -> Seq<u32> {
    seq![v % 0x100, (v / 0x100) % 0x100, (v / 0x1_0000) % 0x100, v / 0x100_0000]
}

/// Both accesses fall in the same shard, so their clocks are compared.
pub open spec fn compares_clk(current: MemoryRecord, prev: MemoryRecord) -> bool {
    prev.shard == current.shard
}

/// The compared time of the current access minus that of the previous one, minus one.
pub open spec fn diff_minus_one(current: MemoryRecord, prev: MemoryRecord) -> int {
    if compares_clk(current, prev) {
        current.timestamp - prev.timestamp - 1
    } else {
        current.shard - prev.shard - 1
    }
}

/// The current access comes strictly after the previous one in the compared time.
pub open spec fn access_in_order(current: MemoryRecord, prev: MemoryRecord) -> bool {
    diff_minus_one(current, prev) >= 0
}

/// The access columns for an access following `prev`.
pub open spec fn access_cells(current: MemoryRecord, prev: MemoryRecord) -> Seq<u32> {
    let d = diff_minus_one(current, prev);
    le_bytes(current.value) + seq![
        prev.shard,
        prev.timestamp,
        if compares_clk(current, prev) { 1u32 } else { 0u32 },
        (d % 0x1_0000) as u32,
        ((d / 0x1_0000) % 0x100) as u32,
    ]
}

/// A 16-bit range check of `a`.
pub open spec fn u16_range_event(shard: u32, a: u16) -> ByteLookupEvent {
    ByteLookupEvent { shard, opcode: ByteOpcode::U16Range, a1: a, a2: 0, b: 0, c: 0 }
}

/// A range check that `a` and `b` are bytes.
pub open spec fn u8_range_event(shard: u32, a: u8, b: u8) -> ByteLookupEvent {
    ByteLookupEvent { shard, opcode: ByteOpcode::U8Range, a1: 0, a2: 0, b: a, c: b }
}

/// The range checks of the difference limbs of an access, in the current shard.
pub open spec fn access_events(current: MemoryRecord, prev: MemoryRecord) -> Seq<ByteLookupEvent> {
    let d = diff_minus_one(current, prev);
    seq![
        u16_range_event(current.shard, (d % 0x1_0000) as u16),
        u8_range_event(current.shard, 0, ((d / 0x1_0000) % 0x100) as u8),
    ]
}

/// The byte range checks of a slice: one event per pair of bytes, the last byte of
/// an odd-length slice paired with zero.
pub open spec fn u8_range_events(shard: u32, bytes: Seq<u8>) -> Seq<ByteLookupEvent> {
    Seq::new(
        ((bytes.len() + 1) / 2) as nat,
        |i: int|
            u8_range_event(
                shard,
                bytes[2 * i],
                if 2 * i + 1 < bytes.len() { bytes[2 * i + 1] } else { 0u8 },
            ),
    )
}

/// The read as the current access and its predecessor.
pub open spec fn read_current(r: MemoryReadRecord) -> MemoryRecord {
    MemoryRecord { shard: r.shard, timestamp: r.timestamp, value: r.value }
}

pub open spec fn read_prev(r: MemoryReadRecord) -> MemoryRecord {
    MemoryRecord { shard: r.prev_shard, timestamp: r.prev_timestamp, value: r.value }
}

/// The write as the current access and its predecessor.
pub open spec fn write_current(r: MemoryWriteRecord) -> MemoryRecord {
    MemoryRecord { shard: r.shard, timestamp: r.timestamp, value: r.value }
}

pub open spec fn write_prev(r: MemoryWriteRecord) -> MemoryRecord {
    MemoryRecord { shard: r.prev_shard, timestamp: r.prev_timestamp, value: r.prev_value }
}

/// A record can be placed in columns: its previous time fits in the field and
/// its time comes after it.
pub open spec fn access_fits(current: MemoryRecord, prev: MemoryRecord) -> bool {
    &&& prev.shard < BABY_BEAR_P
    &&& prev.timestamp < BABY_BEAR_P
    &&& access_in_order(current, prev)
}

/// Read-write columns filled from a read: the previous value is the value read.
pub open spec fn read_write_cells_of_read(r: MemoryReadRecord) -> Seq<u32> {
    le_bytes(r.value) + access_cells(read_current(r), read_prev(r))
}

/// Read-write (or write) columns filled from a write.
pub open spec fn read_write_cells_of_write(r: MemoryWriteRecord) -> Seq<u32> {
    le_bytes(r.prev_value) + access_cells(write_current(r), write_prev(r))
}

/// `s` with `cells` written from `offset` on.
pub open spec fn overwrite(s: Seq<u32>, offset: int, cells: Seq<u32>) -> Seq<u32> {
    Seq::new(
        s.len(),
        |k: int|
            if offset <= k < offset + cells.len() {
                cells[k - offset]
            } else {
                s[k]
            },
    )
}

/// Records a byte table request.
fn add_byte_lookup_event(output: &mut Vec<ByteLookupEvent>, event: ByteLookupEvent)
    ensures
        final(output)@ == old(output)@.push(event),
{
    output.push(event);
}

/// Records a check that `a` and `b` are bytes.
pub fn add_u8_range_check(output: &mut Vec<ByteLookupEvent>, shard: u32, a: u8, b: u8)
    ensures
        final(output)@ == old(output)@.push(u8_range_event(shard, a, b)),
{
    add_byte_lookup_event(
        output,
        ByteLookupEvent { shard, opcode: ByteOpcode::U8Range, a1: 0, a2: 0, b: a, c: b },
    );
}

/// Records a check that `a` fits in 16 bits.
pub fn add_u16_range_check(output: &mut Vec<ByteLookupEvent>, shard: u32, a: u16)
    ensures
        final(output)@ == old(output)@.push(u16_range_event(shard, a)),
{
    add_byte_lookup_event(
        output,
        ByteLookupEvent { shard, opcode: ByteOpcode::U16Range, a1: a, a2: 0, b: 0, c: 0 },
    );
}

/// Records checks that every entry of `bytes` is a byte, two bytes per request.
pub fn add_u8_range_checks(output: &mut Vec<ByteLookupEvent>, shard: u32, bytes: &[u8])
    ensures
        final(output)@ == old(output)@ + u8_range_events(shard, bytes@),
{
    let ghost start = output@;
    let mut index: usize = 0;
    while index + 1 < bytes.len()
        invariant
            index % 2 == 0,
            index <= bytes@.len(),
            output@ == start + u8_range_events(shard, bytes@.take(index as int)),
        decreases bytes@.len() - index,
    {
        proof {
            assert(u8_range_events(shard, bytes@.take(index + 2)) =~= u8_range_events(
                shard,
                bytes@.take(index as int),
            ).push(u8_range_event(shard, bytes@[index as int], bytes@[index + 1])));
        }
        add_u8_range_check(output, shard, bytes[index], bytes[index + 1]);
        index += 2;
        proof {
            assert(output@ =~= start + u8_range_events(shard, bytes@.take(index as int)));
        }
    }
    if index < bytes.len() {
        proof {
            assert(index + 1 == bytes@.len());
            assert(u8_range_events(shard, bytes@) =~= u8_range_events(
                shard,
                bytes@.take(index as int),
            ).push(u8_range_event(shard, bytes@[index as int], 0)));
        }
        add_u8_range_check(output, shard, bytes[index], 0);
        proof {
            assert(output@ =~= start + u8_range_events(shard, bytes@));
        }
    } else {
        proof {
            assert(bytes@.take(index as int) =~= bytes@);
        }
    }
}

/// The little-endian bytes of a word.
pub fn to_le_bytes(v: u32) -> (r: [u8; 4])
    ensures
        r@.len() == 4,
        r@[0] == v % 0x100,
        r@[1] == (v / 0x100) % 0x100,
        r@[2] == (v / 0x1_0000) % 0x100,
        r@[3] == v / 0x100_0000,
{
    [(v % 0x100) as u8, ((v / 0x100) % 0x100) as u8, ((v / 0x1_0000) % 0x100) as u8, (v
        / 0x100_0000) as u8]
}

/// Writes `cells` into `chunk` from `offset` on.
pub fn write_cells(chunk: &mut Vec<u32>, offset: usize, cells: &[u32])
    requires
        offset + cells@.len() <= old(chunk)@.len(),
    ensures
        final(chunk)@ == overwrite(old(chunk)@, offset as int, cells@),
{
    let ghost start = chunk@;
    let len = chunk.len();
    assert(offset + cells@.len() <= len);
    let mut i: usize = 0;
    while i < cells.len()
        invariant
            offset + cells@.len() <= start.len(),
            i <= cells@.len(),
            chunk@.len() == start.len(),
            len == start.len(),
            chunk@ == overwrite(start, offset as int, cells@.take(i as int)),
        decreases cells@.len() - i,
    {
        chunk.set(offset + i, cells[i]);
        i += 1;
        proof {
            assert(chunk@ =~= overwrite(start, offset as int, cells@.take(i as int)));
        }
    }
    proof {
        assert(cells@.take(i as int) =~= cells@);
    }
}

/// Fills the access columns at `offset` for an access following `prev`, and records
/// the range checks of its difference limbs.
fn populate_access(
    current: MemoryRecord,
    prev: MemoryRecord,
    chunk: &mut Vec<u32>,
    offset: usize,
    output: &mut Vec<ByteLookupEvent>,
)
    requires
        offset + NUM_MEMORY_ACCESS_COLS <= old(chunk)@.len(),
        access_fits(current, prev),
    ensures
        final(chunk)@ == overwrite(old(chunk)@, offset as int, access_cells(current, prev)),
        final(output)@ == old(output)@ + access_events(current, prev),
{
    let use_clk_comparison = prev.shard == current.shard;
    let prev_time_value = if use_clk_comparison {
        prev.timestamp
    } else {
        prev.shard
    };
    let current_time_value = if use_clk_comparison {
        current.timestamp
    } else {
        current.shard
    };
    let diff_minus_one = current_time_value - prev_time_value - 1;
    let diff_16bit_limb = (diff_minus_one & 0xffff) as u16;
    let diff_8bit_limb = (diff_minus_one >> 16) & 0xff;
    proof {
        assert(diff_minus_one & 0xffff == diff_minus_one % 0x1_0000) by (bit_vector);
        assert((diff_minus_one >> 16) & 0xff == (diff_minus_one / 0x1_0000) % 0x100) by (bit_vector);
    }
    let bytes = to_le_bytes(current.value);
    let cells: [u32; 9] = [
        bytes[0] as u32,
        bytes[1] as u32,
        bytes[2] as u32,
        bytes[3] as u32,
        prev.shard,
        prev.timestamp,
        if use_clk_comparison { 1 } else { 0 },
        diff_16bit_limb as u32,
        diff_8bit_limb,
    ];
    proof {
        assert(cells@ =~= access_cells(current, prev));
    }
    write_cells(chunk, offset, &cells);
    let shard = current.shard;
    add_u16_range_check(output, shard, diff_16bit_limb);
    add_u8_range_check(output, shard, 0, diff_8bit_limb as u8);
    proof {
        assert(output@ =~= old(output)@ + access_events(current, prev));
    }
}

/// Fills read-write columns at `offset` from a read, and records its range checks.
pub fn populate_read(
    record: &MemoryReadRecord,
    chunk: &mut Vec<u32>,
    offset: usize,
    output: &mut Vec<ByteLookupEvent>,
)
    requires
        offset + NUM_MEMORY_READ_WRITE_COLS <= old(chunk)@.len(),
        access_fits(read_current(*record), read_prev(*record)),
    ensures
        final(chunk)@ == overwrite(old(chunk)@, offset as int, read_write_cells_of_read(*record)),
        final(output)@ == old(output)@ + access_events(read_current(*record), read_prev(*record)),
{
    let bytes = to_le_bytes(record.value);
    let prev_value: [u32; 4] = [bytes[0] as u32, bytes[1] as u32, bytes[2] as u32, bytes[3] as u32];
    proof {
        assert(prev_value@ =~= le_bytes(record.value));
    }
    let ghost start = chunk@;
    let len = chunk.len();
    assert(offset + ACCESS + NUM_MEMORY_ACCESS_COLS <= len);
    write_cells(chunk, offset + PREV_VALUE, &prev_value);
    let current = MemoryRecord {
        shard: record.shard,
        timestamp: record.timestamp,
        value: record.value,
    };
    let prev = MemoryRecord {
        shard: record.prev_shard,
        timestamp: record.prev_timestamp,
        value: record.value,
    };
    populate_access(current, prev, chunk, offset + ACCESS, output);
    proof {
        assert(chunk@ =~= overwrite(start, offset as int, read_write_cells_of_read(*record)));
    }
}

/// Fills read-write (or write) columns at `offset` from a write, and records its
/// range checks.
pub fn populate_write(
    record: &MemoryWriteRecord,
    chunk: &mut Vec<u32>,
    offset: usize,
    output: &mut Vec<ByteLookupEvent>,
)
    requires
        offset + NUM_MEMORY_READ_WRITE_COLS <= old(chunk)@.len(),
        access_fits(write_current(*record), write_prev(*record)),
    ensures
        final(chunk)@ == overwrite(old(chunk)@, offset as int, read_write_cells_of_write(*record)),
        final(output)@ == old(output)@ + access_events(
            write_current(*record),
            write_prev(*record),
        ),
{
    let bytes = to_le_bytes(record.prev_value);
    let prev_value: [u32; 4] = [bytes[0] as u32, bytes[1] as u32, bytes[2] as u32, bytes[3] as u32];
    proof {
        assert(prev_value@ =~= le_bytes(record.prev_value));
    }
    let ghost start = chunk@;
    let len = chunk.len();
    assert(offset + ACCESS + NUM_MEMORY_ACCESS_COLS <= len);
    write_cells(chunk, offset + PREV_VALUE, &prev_value);
    let current = MemoryRecord {
        shard: record.shard,
        timestamp: record.timestamp,
        value: record.value,
    };
    let prev = MemoryRecord {
        shard: record.prev_shard,
        timestamp: record.prev_timestamp,
        value: record.prev_value,
    };
    populate_access(current, prev, chunk, offset + ACCESS, output);
    proof {
        assert(chunk@ =~= overwrite(start, offset as int, read_write_cells_of_write(*record)));
    }
}

/// The access columns of an access following `prev` describe it: their value bytes
/// rebuild the value, they hold the previous access's shard and clock, the flag is
/// one exactly when both accesses fall in the same shard, and the two difference
/// limbs, a 16-bit one and a byte, rebuild the compared time difference minus one
/// (clocks within a shard, else shards) whenever that lies below `2^24`. The range
/// checks recorded for the access ask, in the current access's shard, for exactly
/// those two limbs: a 16-bit check of the low one, a byte check of the high one.
pub proof fn lemma_access_columns_describe_access(current: MemoryRecord, prev: MemoryRecord)
    requires
        0 <= (if prev.shard == current.shard {
            current.timestamp - prev.timestamp
        } else {
            current.shard - prev.shard
        }) - 1 < 0x100_0000,
    ensures
        access_cells(current, prev).len() == NUM_MEMORY_ACCESS_COLS,
        forall|i: int| 0 <= i < 4 ==> #[trigger] access_cells(current, prev)[ACCESS_VALUE + i] < 0x100,
        access_cells(current, prev)[ACCESS_VALUE as int] + 0x100 * access_cells(current, prev)[ACCESS_VALUE + 1]
            + 0x1_0000 * access_cells(current, prev)[ACCESS_VALUE + 2] + 0x100_0000 * access_cells(
            current,
            prev,
        )[ACCESS_VALUE + 3] == current.value,
        access_cells(current, prev)[ACCESS_PREV_SHARD as int] == prev.shard,
        access_cells(current, prev)[ACCESS_PREV_CLK as int] == prev.timestamp,
        access_cells(current, prev)[ACCESS_COMPARE_CLK as int] <= 1,
        access_cells(current, prev)[ACCESS_COMPARE_CLK as int] == 1 <==> prev.shard == current.shard,
        access_cells(current, prev)[ACCESS_DIFF_16BIT_LIMB as int] < 0x1_0000,
        access_cells(current, prev)[ACCESS_DIFF_8BIT_LIMB as int] < 0x100,
        access_cells(current, prev)[ACCESS_DIFF_16BIT_LIMB as int] + 0x1_0000 * access_cells(
            current,
            prev,
        )[ACCESS_DIFF_8BIT_LIMB as int] == (if prev.shard == current.shard {
            current.timestamp - prev.timestamp
        } else {
            current.shard - prev.shard
        }) - 1,
        access_events(current, prev).len() == 2,
        access_events(current, prev)[0] == (ByteLookupEvent {
            shard: current.shard,
            opcode: ByteOpcode::U16Range,
            a1: access_cells(current, prev)[ACCESS_DIFF_16BIT_LIMB as int] as u16,
            a2: 0,
            b: 0,
            c: 0,
        }),
        access_events(current, prev)[1] == (ByteLookupEvent {
            shard: current.shard,
            opcode: ByteOpcode::U8Range,
            a1: 0,
            a2: 0,
            b: 0,
            c: access_cells(current, prev)[ACCESS_DIFF_8BIT_LIMB as int] as u8,
        }),
{
    lemma_access_layout();
    let v = current.value;
    assert(v % 0x100 + 0x100 * ((v / 0x100) % 0x100) + 0x1_0000 * ((v / 0x1_0000) % 0x100) + 0x100_0000 * (
    v / 0x100_0000) == v) by (bit_vector);
    assert(v / 0x100_0000 < 0x100) by (bit_vector);
    let d = diff_minus_one(current, prev);
    vstd::arithmetic::div_mod::lemma_fundamental_div_mod(d, 0x1_0000);
    assert(0 <= d / 0x1_0000 < 0x100) by {
        vstd::arithmetic::div_mod::lemma_div_pos_is_pos(d, 0x1_0000);
        vstd::arithmetic::div_mod::lemma_div_is_ordered(d, 0x100_0000 - 1, 0x1_0000);
    }
    vstd::arithmetic::div_mod::lemma_small_mod((d / 0x1_0000) as nat, 0x100);
    let c = access_cells(current, prev);
    assert(c[ACCESS_VALUE + 3] == v / 0x100_0000);
}

/// Access columns hold canonical field elements.
pub proof fn lemma_access_cells_canonical(current: MemoryRecord, prev: MemoryRecord)
    requires
        access_fits(current, prev),
    ensures
        access_cells(current, prev).len() == NUM_MEMORY_ACCESS_COLS,
        all_canonical(access_cells(current, prev)),
{
}

/// The values of the layout constants.
#[verifier::spinoff_prover]
pub proof fn lemma_access_layout()
    ensures
        ACCESS_VALUE == 0,
        ACCESS_PREV_SHARD == 4,
        ACCESS_PREV_CLK == 5,
        ACCESS_COMPARE_CLK == 6,
        ACCESS_DIFF_16BIT_LIMB == 7,
        ACCESS_DIFF_8BIT_LIMB == 8,
        NUM_MEMORY_ACCESS_COLS == 9,
        NUM_MEMORY_READ_COLS == 9,
        PREV_VALUE == 0,
        ACCESS == 4,
        NUM_MEMORY_WRITE_COLS == 13,
        NUM_MEMORY_READ_WRITE_COLS == 13,
{
    assert(WORD_SIZE == 4);
    assert(ACCESS_VALUE == 0);
    assert(ACCESS_PREV_SHARD == 4);
    assert(ACCESS_PREV_CLK == 5);
    assert(ACCESS_COMPARE_CLK == 6);
    assert(ACCESS_DIFF_16BIT_LIMB == 7);
    assert(ACCESS_DIFF_8BIT_LIMB == 8);
    assert(NUM_MEMORY_ACCESS_COLS == 9);
    assert(NUM_MEMORY_READ_COLS == 9);
    assert(PREV_VALUE == 0);
    assert(ACCESS == 4);
    assert(NUM_MEMORY_WRITE_COLS == 13);
}

/// Reads `N` consecutive cells of `row` from `base`.
pub fn read_cells<const N: usize>(row: &[u32], base: usize) -> (r: [u32; N])
    requires
        base + N <= row@.len(),
    ensures
        forall|i: int| 0 <= i < N ==> #[trigger] r@[i] == row@[base + i],
{
    let len = row.len();
    let mut r = [0u32; N];
    let mut i: usize = 0;
    while i < N
        invariant
            len == row@.len(),
            base + N <= row@.len(),
            i <= N,
            r@.len() == N,
            forall|j: int| 0 <= j < i ==> #[trigger] r@[j] == row@[base + j],
        decreases N - i,
    {
        r[i] = row[base + i];
        i = i + 1;
    }
    r
}

/// Appends the cells of `a` to `row`.
pub fn push_cells<const N: usize>(a: &[u32; N], row: &mut Vec<u32>)
    ensures
        final(row)@ == old(row)@ + a@,
{
    let ghost start = row@;
    let mut i: usize = 0;
    while i < N
        invariant
            i <= N,
            a@.len() == N,
            row@ == start + a@.take(i as int),
        decreases N - i,
    {
        row.push(a[i]);
        i = i + 1;
        proof {
            assert(row@ =~= start + a@.take(i as int));
        }
    }
    proof {
        assert(a@.take(N as int) =~= a@);
    }
}

/// The access columns of a memory access.
#[derive(Clone, Copy, Debug, PartialEq, Eq)]
pub struct MemoryAccessCols {
    pub value: [u32; 4],
    pub prev_shard: u32,
    pub prev_clk: u32,
    pub compare_clk: u32,
    pub diff_16bit_limb: u32,
    pub diff_8bit_limb: u32,
}

impl MemoryAccessCols {
    /// The value kept in column `f` of the access columns.
    pub open spec fn cell(&self, f: int) -> u32 {
        if f < ACCESS_PREV_SHARD {
            self.value@[f]
        } else if f == ACCESS_PREV_SHARD {
            self.prev_shard
        } else if f == ACCESS_PREV_CLK {
            self.prev_clk
        } else if f == ACCESS_COMPARE_CLK {
            self.compare_clk
        } else if f == ACCESS_DIFF_16BIT_LIMB {
            self.diff_16bit_limb
        } else {
            self.diff_8bit_limb
        }
    }

    pub open spec fn cells(&self) -> Seq<u32> {
        Seq::new(NUM_MEMORY_ACCESS_COLS as nat, |f: int| self.cell(f))
    }

    /// The access columns laid out in `row` from `base` on.
    pub fn from_row(row: &[u32], base: usize) -> (r: Self)
        requires
            base + NUM_MEMORY_ACCESS_COLS <= row@.len(),
        ensures
            forall|f: int| 0 <= f < NUM_MEMORY_ACCESS_COLS ==> #[trigger] r.cell(f) == row@[base + f],
    {
        let len = row.len();
        proof {
            lemma_access_layout();
        }
        MemoryAccessCols {
            value: read_cells(row, base + ACCESS_VALUE),
            prev_shard: row[base + ACCESS_PREV_SHARD],
            prev_clk: row[base + ACCESS_PREV_CLK],
            compare_clk: row[base + ACCESS_COMPARE_CLK],
            diff_16bit_limb: row[base + ACCESS_DIFF_16BIT_LIMB],
            diff_8bit_limb: row[base + ACCESS_DIFF_8BIT_LIMB],
        }
    }

    /// Appends the access columns to `row`.
    pub fn push_to(&self, row: &mut Vec<u32>)
        ensures
            final(row)@ == old(row)@ + self.cells(),
    {
        let ghost start = row@;
        push_cells(&self.value, row);
        row.push(self.prev_shard);
        row.push(self.prev_clk);
        row.push(self.compare_clk);
        row.push(self.diff_16bit_limb);
        row.push(self.diff_8bit_limb);
        proof {
            assert(row@ =~= start + self.cells());
        }
    }

    /// The access columns are determined by their cells.
    pub proof fn lemma_determined(a: Self, b: Self)
        requires
            a.cells() == b.cells(),
        ensures
            a == b,
    {
        lemma_access_layout();
        assert forall|f: int| 0 <= f < NUM_MEMORY_ACCESS_COLS implies #[trigger] a.cell(f) == b.cell(f) by {
            assert(a.cells()[f] == a.cell(f));
            assert(b.cells()[f] == b.cell(f));
        }
        assert(a.value =~= b.value) by {
            assert forall|i: int| 0 <= i < 4 implies a.value@[i] == b.value@[i] by {
                assert(a.cell(i) == b.cell(i));
            }
        }
        assert(a.cell(ACCESS_PREV_SHARD as int) == b.cell(ACCESS_PREV_SHARD as int));
        assert(a.cell(ACCESS_PREV_CLK as int) == b.cell(ACCESS_PREV_CLK as int));
        assert(a.cell(ACCESS_COMPARE_CLK as int) == b.cell(ACCESS_COMPARE_CLK as int));
        assert(a.cell(ACCESS_DIFF_16BIT_LIMB as int) == b.cell(ACCESS_DIFF_16BIT_LIMB as int));
        assert(a.cell(ACCESS_DIFF_8BIT_LIMB as int) == b.cell(ACCESS_DIFF_8BIT_LIMB as int));
    }
}

/// The columns of a memory read: its access columns.
#[derive(Clone, Copy, Debug, PartialEq, Eq)]
pub struct MemoryReadCols {
    pub access: MemoryAccessCols,
}

/// The columns of a memory write: the previous value, then the access columns.
#[derive(Clone, Copy, Debug, PartialEq, Eq)]
pub struct MemoryWriteCols {
    pub prev_value: [u32; 4],
    pub access: MemoryAccessCols,
}

impl MemoryReadCols {
    pub open spec fn cells(&self) -> Seq<u32> {
        self.access.cells()
    }

    pub fn from_row(row: &[u32], base: usize) -> (r: Self)
        requires
            base + NUM_MEMORY_READ_COLS <= row@.len(),
        ensures
            forall|f: int| 0 <= f < NUM_MEMORY_READ_COLS ==> #[trigger] r.cells()[f] == row@[base + f],
    {
        MemoryReadCols { access: MemoryAccessCols::from_row(row, base) }
    }

    pub fn push_to(&self, row: &mut Vec<u32>)
        ensures
            final(row)@ == old(row)@ + self.cells(),
    {
        self.access.push_to(row);
    }
}

impl MemoryWriteCols {
    pub open spec fn cells(&self) -> Seq<u32> {
        self.prev_value@ + self.access.cells()
    }

    pub fn from_row(row: &[u32], base: usize) -> (r: Self)
        requires
            base + NUM_MEMORY_WRITE_COLS <= row@.len(),
        ensures
            r.cells().len() == NUM_MEMORY_WRITE_COLS,
            forall|f: int| 0 <= f < NUM_MEMORY_WRITE_COLS ==> #[trigger] r.cells()[f] == row@[base + f],
    {
        let len = row.len();
        proof {
            lemma_access_layout();
        }
        let r = MemoryWriteCols {
            prev_value: read_cells(row, base + PREV_VALUE),
            access: MemoryAccessCols::from_row(row, base + ACCESS),
        };
        proof {
            assert forall|f: int| 0 <= f < NUM_MEMORY_WRITE_COLS implies #[trigger] r.cells()[f]
                == row@[base + f] by {
                if f >= ACCESS {
                    assert(r.access.cells()[f - ACCESS] == r.access.cell(f - ACCESS));
                }
            }
        }
        r
    }

    pub fn push_to(&self, row: &mut Vec<u32>)
        ensures
            final(row)@ == old(row)@ + self.cells(),
    {
        let ghost start = row@;
        push_cells(&self.prev_value, row);
        self.access.push_to(row);
        proof {
            assert(row@ =~= start + self.cells());
        }
    }

    /// Write columns are determined by their cells.
    pub proof fn lemma_determined(a: Self, b: Self)
        requires
            a.cells() == b.cells(),
        ensures
            a == b,
    {
        lemma_access_layout();
        assert(a.prev_value@.len() == 4 && b.prev_value@.len() == 4);
        assert(a.access.cells().len() == 9 && b.access.cells().len() == 9);
        assert(a.prev_value =~= b.prev_value) by {
            assert forall|i: int| 0 <= i < 4 implies a.prev_value@[i] == b.prev_value@[i] by {
                assert(a.cells()[i] == a.prev_value@[i]);
                assert(b.cells()[i] == b.prev_value@[i]);
            }
        }
        assert(a.access.cells() =~= b.access.cells()) by {
            assert forall|i: int| 0 <= i < NUM_MEMORY_ACCESS_COLS implies a.access.cells()[i]
                == b.access.cells()[i] by {
                assert(a.cells()[4 + i] == a.access.cells()[i]);
                assert(b.cells()[4 + i] == b.access.cells()[i]);
            }
        }
        MemoryAccessCols::lemma_determined(a.access, b.access);
    }
}

} // verus!
