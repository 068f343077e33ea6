//! The Keccak permutation chip: one permutation event fills 24 consecutive rows,
//! one per round. Each row starts with the round's columns of the Keccak AIR and
//! carries the event's shard, clock and state address; the first row also reads
//! the 25-lane state from memory and receives the syscall, the last row writes the
//! permuted state back.

use vstd::prelude::*;
use crate::field::{all_canonical, is_canonical, BABY_BEAR_P};
use crate::memory_access::{
    access_events,
    access_fits,
    add_u8_range_checks,
    populate_read,
    populate_write,
    read_current,
    read_prev,
    read_write_cells_of_read,
    read_write_cells_of_write,
    to_le_bytes,
    u8_range_events,
    write_cells,
    write_current,
    write_prev,
    ByteLookupEvent,
    ByteOpcode,
    MemoryReadRecord,
    MemoryWriteRecord,
    NUM_MEMORY_READ_WRITE_COLS,
};
use crate::record::{chip_included, ShardRecord};
use p3_field::PrimeField32;
use p3_matrix::Matrix;

verus! {

/// Number of rounds, hence of rows, of one permutation.
pub const NUM_ROUNDS: usize = 24;

/// Number of 64-bit lanes of the Keccak state.
pub const STATE_SIZE: usize = 25;

/// Number of 32-bit memory words of the Keccak state.
pub const STATE_NUM_WORDS: usize = STATE_SIZE * 2;

/// Number of columns of the Keccak AIR, which open every row.
pub const NUM_KECCAK_COLS: usize = 2633;

/// Column offsets after the Keccak AIR columns.
pub const SHARD: usize = NUM_KECCAK_COLS;
pub const CLK: usize = SHARD + 1;
pub const NONCE: usize = CLK + 1;
pub const STATE_ADDR: usize = NONCE + 1;
pub const STATE_MEM: usize = STATE_ADDR + 1;
pub const DO_MEMORY_CHECK: usize = STATE_MEM + STATE_NUM_WORDS * NUM_MEMORY_READ_WRITE_COLS;
pub const RECEIVE_ECALL: usize = DO_MEMORY_CHECK + 1;
pub const IS_REAL: usize = RECEIVE_ECALL + 1;

/// Number of columns of the chip.
pub const NUM_KECCAK_MEM_COLS: usize = IS_REAL + 1;

/// A Keccak permutation syscall, as the chip reads it.
pub struct KeccakPermuteEvent {
    pub shard: u32,
    pub clk: u32,
    /// The state before the permutation, lane by lane.
    pub pre_state: [u64; 25],
    /// The reads of the state words.
    pub state_read_records: Vec<MemoryReadRecord>,
    /// The writes of the permuted state words.
    pub state_write_records: Vec<MemoryWriteRecord>,
    /// The address of the state in memory.
    pub state_addr: u32,
}

/// The rows the Keccak AIR of the proof system generates for one permutation of
/// `pre_state`, each cell as its canonical value in the BabyBear field.
pub uninterp spec fn keccak_permutation_trace(pre_state: Seq<u64>) -> Seq<Seq<u32>>;

/// Calls `p3_keccak_air::generate_trace_rows` over BabyBear on the single input
/// `pre_state` and hands out its rows, each cell by `as_canonical_u32`. Claimed:
/// the rows are `keccak_permutation_trace(pre_state)`; there are 32 of them (24
/// rounds padded to a power of two), each `NUM_KECCAK_COLS` wide, every cell below
/// the BabyBear modulus.
#[verifier::external_body]
fn generate_keccak_trace_rows(pre_state: [u64; 25]) -> (rows: Vec<Vec<u32>>)
    ensures
        rows.deep_view() == keccak_permutation_trace(pre_state@),
        rows@.len() == 32,
        forall|i: int|
            0 <= i < rows@.len() ==> (#[trigger] rows@[i])@.len() == NUM_KECCAK_COLS
                && all_canonical(rows@[i]@),
{
    let trace = p3_keccak_air::generate_trace_rows::<p3_baby_bear::BabyBear>(vec![pre_state]);
    trace.rows().map(|row| row.map(|x| x.as_canonical_u32()).collect()).collect()
}

/// The value the populated chunk holds in column `c` of round row `row`, given
/// the chunk `old` before: the Keccak AIR row, the event's shard, clock, state
/// address and `is_real`, the state reads on the first row and the writes on
/// the last, the memory-check flag on both and the syscall flag on the first.
/// Every other cell keeps its value.
pub open spec fn keccak_cell(old: Seq<u32>, ev: KeccakPermuteEvent, row: int, c: int) -> u32 {
    let j = (c - STATE_MEM) / NUM_MEMORY_READ_WRITE_COLS as int;
    let t = (c - STATE_MEM) % NUM_MEMORY_READ_WRITE_COLS as int;
    if c < NUM_KECCAK_COLS {
        keccak_permutation_trace(ev.pre_state@)[row][c]
    } else if c == SHARD {
        ev.shard
    } else if c == CLK {
        ev.clk
    } else if c == STATE_ADDR {
        ev.state_addr
    } else if c == IS_REAL {
        1
    } else if c == DO_MEMORY_CHECK && (row == 0 || row == NUM_ROUNDS - 1) {
        1
    } else if c == RECEIVE_ECALL && row == 0 {
        1
    } else if row == 0 && STATE_MEM <= c < STATE_MEM + NUM_MEMORY_READ_WRITE_COLS
        * ev.state_read_records@.len() {
        read_write_cells_of_read(ev.state_read_records@[j])[t]
    } else if row == NUM_ROUNDS - 1 && STATE_MEM <= c < STATE_MEM + NUM_MEMORY_READ_WRITE_COLS
        * ev.state_write_records@.len() {
        read_write_cells_of_write(ev.state_write_records@[j])[t]
    } else {
        old[row * NUM_KECCAK_MEM_COLS + c]
    }
}

/// The little-endian bytes of a word.
pub open spec fn le_bytes_u8(v: u32) -> Seq<u8> {
    seq![(v % 0x100) as u8, ((v / 0x100) % 0x100) as u8, ((v / 0x1_0000) % 0x100) as u8, (v / 0x100_0000) as u8]
}

/// The byte requests of reading state word `j`: the range checks of its access,
/// then the byte checks of the value read.
pub open spec fn read_word_events(ev: KeccakPermuteEvent, j: int) -> Seq<ByteLookupEvent> {
    let r = ev.state_read_records@[j];
    access_events(read_current(r), read_prev(r)) + u8_range_events(ev.shard, le_bytes_u8(r.value))
}

/// The byte requests of writing state word `j`.
pub open spec fn write_word_events(ev: KeccakPermuteEvent, j: int) -> Seq<ByteLookupEvent> {
    let w = ev.state_write_records@[j];
    access_events(write_current(w), write_prev(w)) + u8_range_events(ev.shard, le_bytes_u8(w.value))
}

/// The byte requests of reading the first `n` state words.
pub open spec fn read_events(ev: KeccakPermuteEvent, n: int) -> Seq<ByteLookupEvent>
    decreases n,
{
    if n <= 0 {
        seq![]
    } else {
        read_events(ev, n - 1) + read_word_events(ev, n - 1)
    }
}

/// The byte requests of writing the first `n` state words.
pub open spec fn write_events(ev: KeccakPermuteEvent, n: int) -> Seq<ByteLookupEvent>
    decreases n,
{
    if n <= 0 {
        seq![]
    } else {
        write_events(ev, n - 1) + write_word_events(ev, n - 1)
    }
}

/// All byte requests of one permutation: the reads, then the writes.
pub open spec fn keccak_byte_events(ev: KeccakPermuteEvent) -> Seq<ByteLookupEvent> {
    read_events(ev, ev.state_read_records@.len() as int) + write_events(
        ev,
        ev.state_write_records@.len() as int,
    )
}

/// The event can be laid out: its shard, clock and address are field elements, it
/// has at most one record per state word, and every record comes after the access
/// it follows.
pub open spec fn event_fits(ev: KeccakPermuteEvent) -> bool {
    &&& ev.shard < BABY_BEAR_P
    &&& ev.clk < BABY_BEAR_P
    &&& ev.state_addr < BABY_BEAR_P
    &&& ev.state_read_records@.len() <= STATE_NUM_WORDS
    &&& ev.state_write_records@.len() <= STATE_NUM_WORDS
    &&& forall|j: int|
        0 <= j < ev.state_read_records@.len() ==> access_fits(
            read_current(#[trigger] ev.state_read_records@[j]),
            read_prev(ev.state_read_records@[j]),
        )
    &&& forall|j: int|
        0 <= j < ev.state_write_records@.len() ==> access_fits(
            write_current(#[trigger] ev.state_write_records@[j]),
            write_prev(ev.state_write_records@[j]),
        )
}

/// The values of the layout constants.
#[verifier::spinoff_prover]
pub proof fn lemma_keccak_layout()
    ensures
        NUM_MEMORY_READ_WRITE_COLS == 13,
        STATE_NUM_WORDS == 50,
        SHARD == 2633,
        CLK == 2634,
        NONCE == 2635,
        STATE_ADDR == 2636,
        STATE_MEM == 2637,
        DO_MEMORY_CHECK == 3287,
        RECEIVE_ECALL == 3288,
        IS_REAL == 3289,
        NUM_KECCAK_MEM_COLS == 3290,
{
    crate::memory_access::lemma_access_layout();
    assert(STATE_SIZE == 25);
    assert(STATE_NUM_WORDS == 50);
    assert(STATE_NUM_WORDS * NUM_MEMORY_READ_WRITE_COLS == 650) by (nonlinear_arith)
        requires
            STATE_NUM_WORDS == 50,
            NUM_MEMORY_READ_WRITE_COLS == 13,
    ;
    assert(SHARD == 2633);
    assert(CLK == 2634);
    assert(NONCE == 2635);
    assert(STATE_ADDR == 2636);
    assert(STATE_MEM == 2637);
    assert(DO_MEMORY_CHECK == 3287);
    assert(RECEIVE_ECALL == 3288);
    assert(IS_REAL == 3289);
    assert(NUM_KECCAK_MEM_COLS == 3290);
}

/// The chip that proves Keccak permutation syscalls.
pub struct KeccakPermuteChip;

impl KeccakPermuteChip {
    pub fn new() -> (r: Self)
        ensures
            r == KeccakPermuteChip,
    {
        KeccakPermuteChip
    }

    /// The chip's name.
    pub fn name(&self) -> (r: String)
        ensures
            r@ == "Keccak256"@,
    {
        String::from_str("Keccak256")
    }

    /// Whether the shard's proof includes this chip: as the shard's shape says if it
    /// has one, otherwise when the shard has a Keccak permutation event.
    pub fn included(&self, shard: &ShardRecord) -> (r: bool)
        ensures
            r == chip_included(shard.shape, "Keccak256"@, shard.keccak_permute_events > 0),
    {
        match &shard.shape {
            Some(shape) => shape.included(&self.name()),
            None => shard.keccak_permute_events != 0,
        }
    }

    /// Fills the 24 rows of `chunk` for one permutation event and records the byte
    /// requests its memory accesses make.
    pub fn populate_chunk(
        event: &KeccakPermuteEvent,
        chunk: &mut Vec<u32>,
        new_byte_lookup_events: &mut Vec<ByteLookupEvent>,
    )
        requires
            NUM_ROUNDS * NUM_KECCAK_MEM_COLS <= old(chunk)@.len(),
            event_fits(*event),
        ensures
            final(chunk)@.len() == old(chunk)@.len(),
            forall|r: int, c: int|
                0 <= r < NUM_ROUNDS && 0 <= c < NUM_KECCAK_MEM_COLS ==> #[trigger] final(chunk)@[r * NUM_KECCAK_MEM_COLS + c] == keccak_cell(old(chunk)@, *event, r, c),
            forall|k: int|
                NUM_ROUNDS * NUM_KECCAK_MEM_COLS <= k < old(chunk)@.len() ==> #[trigger] final(chunk)@[k] == old(chunk)@[k],
            final(new_byte_lookup_events)@ == old(new_byte_lookup_events)@ + keccak_byte_events(
                *event,
            ),
            all_canonical(old(chunk)@) ==> all_canonical(final(chunk)@),
    {
        proof {
            lemma_keccak_layout();
        }
        let p3_keccak_trace = generate_keccak_trace_rows(event.pre_state);
        let ghost start = chunk@;
        let ghost start_events = new_byte_lookup_events@;
        let mut i: usize = 0;
        while i < NUM_ROUNDS
            invariant
                event_fits(*event),
                NUM_ROUNDS * NUM_KECCAK_MEM_COLS <= start.len(),
                p3_keccak_trace.deep_view() == keccak_permutation_trace(event.pre_state@),
                p3_keccak_trace@.len() == 32,
                forall|q: int|
                    0 <= q < p3_keccak_trace@.len() ==> (#[trigger] p3_keccak_trace@[q])@.len()
                        == NUM_KECCAK_COLS && all_canonical(p3_keccak_trace@[q]@),
                i <= NUM_ROUNDS,
                chunk@.len() == start.len(),
                forall|r: int, c: int|
                    0 <= r < i && 0 <= c < NUM_KECCAK_MEM_COLS ==> #[trigger] chunk@[r
                        * NUM_KECCAK_MEM_COLS + c] == keccak_cell(start, *event, r, c),
                forall|k: int|
                    i * NUM_KECCAK_MEM_COLS <= k < start.len() ==> #[trigger] chunk@[k]
                        == start[k],
                new_byte_lookup_events@ == start_events + (if i >= 1 {
                    read_events(*event, event.state_read_records@.len() as int)
                } else {
                    seq![]
                }) + (if i >= NUM_ROUNDS {
                    write_events(*event, event.state_write_records@.len() as int)
                } else {
                    seq![]
                }),
                all_canonical(start) ==> (forall|k: int|
                    0 <= k < i * NUM_KECCAK_MEM_COLS ==> is_canonical(#[trigger] chunk@[k])),
            decreases NUM_ROUNDS - i,
        {
            proof {
                lemma_keccak_layout();
            }
            let ghost before = chunk@;
            let ghost before_events = new_byte_lookup_events@;
            proof {
                assert(p3_keccak_trace@[i as int]@ =~= p3_keccak_trace.deep_view()[i as int]);
            }
            populate_row(event, &p3_keccak_trace[i], i, chunk, new_byte_lookup_events);
            proof {
                assert forall|r: int, c: int|
                    0 <= r < i + 1 && 0 <= c < NUM_KECCAK_MEM_COLS implies #[trigger] chunk@[r
                        * NUM_KECCAK_MEM_COLS + c] == keccak_cell(start, *event, r, c) by {
                    if r < i {
                        assert(r * NUM_KECCAK_MEM_COLS + c < i * NUM_KECCAK_MEM_COLS);
                        assert(chunk@[r * NUM_KECCAK_MEM_COLS + c] == before[r
                            * NUM_KECCAK_MEM_COLS + c]);
                    } else {
                        assert(r == i);
                        assert(before[r * NUM_KECCAK_MEM_COLS + c] == start[r
                            * NUM_KECCAK_MEM_COLS + c]);
                    }
                }
                if i == 0 {
                    assert(new_byte_lookup_events@ =~= start_events + read_events(
                        *event,
                        event.state_read_records@.len() as int,
                    ) + seq![]);
                } else if i == NUM_ROUNDS - 1 {
                    assert(new_byte_lookup_events@ =~= start_events + read_events(
                        *event,
                        event.state_read_records@.len() as int,
                    ) + write_events(*event, event.state_write_records@.len() as int));
                } else {
                    assert(new_byte_lookup_events@ =~= before_events);
                }
                if all_canonical(start) {
                    assert forall|k: int|
                        0 <= k < (i + 1) * NUM_KECCAK_MEM_COLS implies is_canonical(
                        #[trigger] chunk@[k],
                    ) by {
                        if k >= i * NUM_KECCAK_MEM_COLS {
                            let c = k - i * NUM_KECCAK_MEM_COLS;
                            assert(k == i * NUM_KECCAK_MEM_COLS + c);
                            lemma_keccak_cell_canonical(start, *event, i as int, c);
                        } else {
                            assert(chunk@[k] == before[k]);
                        }
                    }
                }
            }
            i = i + 1;
        }
        proof {
            assert(new_byte_lookup_events@ =~= start_events + keccak_byte_events(*event));
            if all_canonical(start) {
                assert forall|k: int| 0 <= k < chunk@.len() implies is_canonical(
                    #[trigger] chunk@[k],
                ) by {
                    if k >= NUM_ROUNDS * NUM_KECCAK_MEM_COLS {
                        assert(chunk@[k] == start[k]);
                    }
                }
            }
        }
    }
}

proof fn lemma_read_events_len(ev: KeccakPermuteEvent, n: int)
    requires
        0 <= n <= ev.state_read_records@.len(),
    ensures
        read_events(ev, n).len() == 4 * n,
    decreases n,
{
    if n > 0 {
        lemma_read_events_len(ev, n - 1);
    }
}

proof fn lemma_write_events_len(ev: KeccakPermuteEvent, n: int)
    requires
        0 <= n <= ev.state_write_records@.len(),
    ensures
        write_events(ev, n).len() == 4 * n,
    decreases n,
{
    if n > 0 {
        lemma_write_events_len(ev, n - 1);
    }
}

/// The four byte requests of reading state word `i`, within the first `n` reads.
proof fn lemma_read_events_at(ev: KeccakPermuteEvent, n: int, i: int, t: int)
    requires
        0 <= i < n <= ev.state_read_records@.len(),
        0 <= t < 4,
    ensures
        read_events(ev, n).len() == 4 * n,
        read_events(ev, n)[4 * i + t] == read_word_events(ev, i)[t],
    decreases n,
{
    lemma_read_events_len(ev, n);
    lemma_read_events_len(ev, n - 1);
    if i < n - 1 {
        lemma_read_events_at(ev, n - 1, i, t);
    }
}

/// The four byte requests of writing state word `i`, within the first `n` writes.
proof fn lemma_write_events_at(ev: KeccakPermuteEvent, n: int, i: int, t: int)
    requires
        0 <= i < n <= ev.state_write_records@.len(),
        0 <= t < 4,
    ensures
        write_events(ev, n).len() == 4 * n,
        write_events(ev, n)[4 * i + t] == write_word_events(ev, i)[t],
    decreases n,
{
    lemma_write_events_len(ev, n);
    lemma_write_events_len(ev, n - 1);
    if i < n - 1 {
        lemma_write_events_at(ev, n - 1, i, t);
    }
}

/// The byte requests of accessing a word of value `v` in an access whose current
/// shard is `current_shard`, the word's byte checks being made in `shard`: the two
/// difference checks in the access's shard, then a byte check of the value's bytes
/// 0 and 1 and one of bytes 2 and 3, in `shard`.
pub open spec fn word_request_shards_and_bytes(
    e: Seq<ByteLookupEvent>,
    at: int,
    current_shard: u32,
    shard: u32,
    v: u32,
) -> bool {
    &&& e[at].shard == current_shard
    &&& e[at].opcode == ByteOpcode::U16Range
    &&& e[at + 1].shard == current_shard
    &&& e[at + 1].opcode == ByteOpcode::U8Range
    &&& e[at + 2] == (ByteLookupEvent {
        shard,
        opcode: ByteOpcode::U8Range,
        a1: 0,
        a2: 0,
        b: (v % 0x100) as u8,
        c: ((v / 0x100) % 0x100) as u8,
    })
    &&& e[at + 3] == (ByteLookupEvent {
        shard,
        opcode: ByteOpcode::U8Range,
        a1: 0,
        a2: 0,
        b: ((v / 0x1_0000) % 0x100) as u8,
        c: (v / 0x100_0000) as u8,
    })
}

/// The byte requests a permutation records come four per state access, reads first,
/// then writes: for each access, the two range checks of its time difference in the
/// access's own shard, then the byte checks of the word read (or written), two bytes
/// each, in the event's shard. So when every record of the event was made in the
/// event's shard, as the executor makes them, every request carries that shard.
pub proof fn lemma_keccak_byte_events_shards(ev: KeccakPermuteEvent)
    ensures
        forall|j: int|
            0 <= j < ev.state_read_records@.len() ==> word_request_shards_and_bytes(
                keccak_byte_events(ev),
                4 * j,
                (#[trigger] ev.state_read_records@[j]).shard,
                ev.shard,
                ev.state_read_records@[j].value,
            ),
        forall|j: int|
            0 <= j < ev.state_write_records@.len() ==> word_request_shards_and_bytes(
                keccak_byte_events(ev),
                4 * ev.state_read_records@.len() + 4 * j,
                (#[trigger] ev.state_write_records@[j]).shard,
                ev.shard,
                ev.state_write_records@[j].value,
            ),
        (forall|j: int|
            0 <= j < ev.state_read_records@.len() ==> (#[trigger] ev.state_read_records@[j]).shard
                == ev.shard) && (forall|j: int|
            0 <= j < ev.state_write_records@.len() ==> (#[trigger] ev.state_write_records@[j]).shard
                == ev.shard) ==> forall|k: int|
            0 <= k < keccak_byte_events(ev).len() ==> (#[trigger] keccak_byte_events(ev)[k]).shard
                == ev.shard,
{
    let nr = ev.state_read_records@.len() as int;
    let nw = ev.state_write_records@.len() as int;
    let all = keccak_byte_events(ev);
    lemma_read_events_len(ev, nr);
    lemma_write_events_len(ev, nw);
    assert forall|j: int| 0 <= j < nr implies word_request_shards_and_bytes(
        all,
        4 * j,
        (#[trigger] ev.state_read_records@[j]).shard,
        ev.shard,
        ev.state_read_records@[j].value,
    ) by {
        lemma_read_events_at(ev, nr, j, 0);
        lemma_read_events_at(ev, nr, j, 1);
        lemma_read_events_at(ev, nr, j, 2);
        lemma_read_events_at(ev, nr, j, 3);
    }
    assert forall|j: int| 0 <= j < nw implies word_request_shards_and_bytes(
        all,
        4 * nr + 4 * j,
        (#[trigger] ev.state_write_records@[j]).shard,
        ev.shard,
        ev.state_write_records@[j].value,
    ) by {
        lemma_write_events_at(ev, nw, j, 0);
        lemma_write_events_at(ev, nw, j, 1);
        lemma_write_events_at(ev, nw, j, 2);
        lemma_write_events_at(ev, nw, j, 3);
    }
    if (forall|j: int|
        0 <= j < nr ==> (#[trigger] ev.state_read_records@[j]).shard == ev.shard) && (forall|j: int|
        0 <= j < nw ==> (#[trigger] ev.state_write_records@[j]).shard == ev.shard) {
        assert forall|k: int| 0 <= k < all.len() implies (#[trigger] all[k]).shard == ev.shard by {
            if k < 4 * nr {
                let j = k / 4;
                lemma_read_events_at(ev, nr, j, k % 4);
                assert(ev.state_read_records@[j].shard == ev.shard);
            } else {
                let j = (k - 4 * nr) / 4;
                lemma_write_events_at(ev, nw, j, (k - 4 * nr) % 4);
                assert(ev.state_write_records@[j].shard == ev.shard);
            }
        }
    }
}

/// A permutation asks the byte table four times per state access: a 16-bit and an
/// 8-bit check of the access's time difference, then two checks of the word's bytes.
pub proof fn lemma_keccak_byte_event_count(ev: KeccakPermuteEvent)
    ensures
        keccak_byte_events(ev).len() == 4 * (ev.state_read_records@.len()
            + ev.state_write_records@.len()),
{
    lemma_read_events_len(ev, ev.state_read_records@.len() as int);
    lemma_write_events_len(ev, ev.state_write_records@.len() as int);
}

/// On a zeroed chunk, every round row is real and carries the event's shard, clock
/// and state address; only the first row receives the syscall, only the first and
/// the last check memory, and the nonce stays zero.
pub proof fn lemma_keccak_row_flags(old: Seq<u32>, ev: KeccakPermuteEvent, row: int)
    requires
        0 <= row < NUM_ROUNDS,
        event_fits(ev),
        NUM_ROUNDS * NUM_KECCAK_MEM_COLS <= old.len(),
        forall|k: int| 0 <= k < old.len() ==> #[trigger] old[k] == 0,
    ensures
        keccak_cell(old, ev, row, IS_REAL as int) == 1,
        keccak_cell(old, ev, row, SHARD as int) == ev.shard,
        keccak_cell(old, ev, row, CLK as int) == ev.clk,
        keccak_cell(old, ev, row, STATE_ADDR as int) == ev.state_addr,
        keccak_cell(old, ev, row, NONCE as int) == 0,
        keccak_cell(old, ev, row, RECEIVE_ECALL as int) == (if row == 0 { 1u32 } else { 0u32 }),
        keccak_cell(old, ev, row, DO_MEMORY_CHECK as int) == (if row == 0 || row == NUM_ROUNDS - 1 {
            1u32
        } else {
            0u32
        }),
{
    lemma_keccak_layout();
    assert(old[row * NUM_KECCAK_MEM_COLS + NONCE] == 0);
    assert(old[row * NUM_KECCAK_MEM_COLS + RECEIVE_ECALL] == 0);
    assert(old[row * NUM_KECCAK_MEM_COLS + DO_MEMORY_CHECK] == 0);
}

/// A populated cell is canonical when the chunk was: the Keccak AIR rows, the
/// event's fields and the memory columns all are.
proof fn lemma_keccak_cell_canonical(old: Seq<u32>, ev: KeccakPermuteEvent, row: int, c: int)
    requires
        all_canonical(old),
        event_fits(ev),
        0 <= row < NUM_ROUNDS,
        0 <= c < NUM_KECCAK_MEM_COLS,
        NUM_ROUNDS * NUM_KECCAK_MEM_COLS <= old.len(),
        forall|q: int|
            0 <= q < NUM_ROUNDS ==> (#[trigger] keccak_permutation_trace(ev.pre_state@)[q]).len()
                == NUM_KECCAK_COLS && all_canonical(keccak_permutation_trace(ev.pre_state@)[q]),
    ensures
        is_canonical(keccak_cell(old, ev, row, c)),
{
    lemma_keccak_layout();
    let j = (c - STATE_MEM) / NUM_MEMORY_READ_WRITE_COLS as int;
    let t = (c - STATE_MEM) % NUM_MEMORY_READ_WRITE_COLS as int;
    if c < NUM_KECCAK_COLS {
        assert(keccak_permutation_trace(ev.pre_state@)[row].len() == NUM_KECCAK_COLS);
    } else if row == 0 && STATE_MEM <= c < STATE_MEM + NUM_MEMORY_READ_WRITE_COLS
        * ev.state_read_records@.len() && c != SHARD && c != CLK && c != STATE_ADDR && c != IS_REAL
        && c != DO_MEMORY_CHECK && c != RECEIVE_ECALL {
        assert(0 <= j < ev.state_read_records@.len());
        let r = ev.state_read_records@[j];
        assert(access_fits(read_current(r), read_prev(r)));
    } else if row == NUM_ROUNDS - 1 && STATE_MEM <= c < STATE_MEM + NUM_MEMORY_READ_WRITE_COLS
        * ev.state_write_records@.len() && c != SHARD && c != CLK && c != STATE_ADDR && c
        != IS_REAL && c != DO_MEMORY_CHECK && c != RECEIVE_ECALL {
        assert(0 <= j < ev.state_write_records@.len());
        let w = ev.state_write_records@[j];
        assert(access_fits(write_current(w), write_prev(w)));
    } else {
        assert(0 <= row * NUM_KECCAK_MEM_COLS + c < old.len());
    }
}

/// Fills round row `i` of `chunk` from the Keccak AIR row `trace_row`.
fn populate_row(
    event: &KeccakPermuteEvent,
    trace_row: &Vec<u32>,
    i: usize,
    chunk: &mut Vec<u32>,
    new_byte_lookup_events: &mut Vec<ByteLookupEvent>,
)
    requires
        i < NUM_ROUNDS,
        NUM_ROUNDS * NUM_KECCAK_MEM_COLS <= old(chunk)@.len(),
        event_fits(*event),
        trace_row@ == keccak_permutation_trace(event.pre_state@)[i as int],
        trace_row@.len() == NUM_KECCAK_COLS,
    ensures
        final(chunk)@.len() == old(chunk)@.len(),
        forall|c: int|
            0 <= c < NUM_KECCAK_MEM_COLS ==> #[trigger] final(chunk)@[i * NUM_KECCAK_MEM_COLS + c]
                == keccak_cell(old(chunk)@, *event, i as int, c),
        forall|k: int|
            0 <= k < old(chunk)@.len() && !(i * NUM_KECCAK_MEM_COLS <= k < (i + 1)
                * NUM_KECCAK_MEM_COLS) ==> #[trigger] final(chunk)@[k] == old(chunk)@[k],
        final(new_byte_lookup_events)@ == old(new_byte_lookup_events)@ + (if i == 0 {
            read_events(*event, event.state_read_records@.len() as int)
        } else {
            seq![]
        }) + (if i == NUM_ROUNDS - 1 {
            write_events(*event, event.state_write_records@.len() as int)
        } else {
            seq![]
        }),
{
    proof {
        lemma_keccak_layout();
    }
    let row_start = i * NUM_KECCAK_MEM_COLS;
    let ghost old_chunk = chunk@;
    let ghost old_events = new_byte_lookup_events@;
    write_cells(chunk, row_start, trace_row.as_slice());
    chunk.set(row_start + SHARD, event.shard);
    chunk.set(row_start + CLK, event.clk);
    chunk.set(row_start + STATE_ADDR, event.state_addr);
    chunk.set(row_start + IS_REAL, 1);
    let ghost after_fields = chunk@;
    if i == 0 {
        populate_state_reads(event, row_start, chunk, new_byte_lookup_events);
        chunk.set(row_start + DO_MEMORY_CHECK, 1);
        chunk.set(row_start + RECEIVE_ECALL, 1);
    }
    let ghost after_reads = chunk@;
    let ghost mid_events = new_byte_lookup_events@;
    if i == NUM_ROUNDS - 1 {
        populate_state_writes(event, row_start, chunk, new_byte_lookup_events);
        let ghost after_writes = chunk@;
        chunk.set(row_start + DO_MEMORY_CHECK, 1);
        proof {
            assert forall|j: int, t: int|
                0 <= j < event.state_write_records@.len() && 0 <= t < NUM_MEMORY_READ_WRITE_COLS
                    implies #[trigger] chunk@[row_start + STATE_MEM + j * NUM_MEMORY_READ_WRITE_COLS
                    + t] == read_write_cells_of_write(event.state_write_records@[j])[t] by {
                assert(after_writes[row_start + STATE_MEM + j * NUM_MEMORY_READ_WRITE_COLS + t]
                    == read_write_cells_of_write(event.state_write_records@[j])[t]);
            }
        }
    }
    proof {
        assert forall|c: int| 0 <= c < NUM_KECCAK_MEM_COLS implies #[trigger] chunk@[i
            * NUM_KECCAK_MEM_COLS + c] == keccak_cell(old_chunk, *event, i as int, c) by {
            let k = i * NUM_KECCAK_MEM_COLS + c;
            let j = (c - STATE_MEM) / NUM_MEMORY_READ_WRITE_COLS as int;
            let t = (c - STATE_MEM) % NUM_MEMORY_READ_WRITE_COLS as int;
            if c < STATE_MEM || c >= DO_MEMORY_CHECK {
                assert(after_reads[k] == after_fields[k] || c == DO_MEMORY_CHECK || c == RECEIVE_ECALL);
                assert(chunk@[k] == after_reads[k] || c == DO_MEMORY_CHECK);
                if c < NUM_KECCAK_COLS {
                    assert(after_fields[k] == trace_row@[c]);
                } else if c == NONCE {
                    assert(after_fields[k] == old_chunk[k]);
                }
            } else {
                assert(c == STATE_MEM + j * NUM_MEMORY_READ_WRITE_COLS + t);
                assert(0 <= j < STATE_NUM_WORDS);
                assert(after_fields[k] == old_chunk[k]);
                if i == 0 {
                    if j < event.state_read_records@.len() {
                        assert(after_reads[k] == read_write_cells_of_read(
                            event.state_read_records@[j],
                        )[t]);
                    } else {
                        assert(after_reads[k] == old_chunk[k]);
                    }
                    assert(chunk@[k] == after_reads[k]);
                } else if i == NUM_ROUNDS - 1 {
                    assert(after_reads[k] == old_chunk[k]);
                    if j < event.state_write_records@.len() {
                        assert(k == row_start + STATE_MEM + j * NUM_MEMORY_READ_WRITE_COLS + t);
                        assert(chunk@[row_start + STATE_MEM + j * NUM_MEMORY_READ_WRITE_COLS + t]
                            == read_write_cells_of_write(event.state_write_records@[j])[t]);
                        assert(chunk@[k] == read_write_cells_of_write(
                            event.state_write_records@[j],
                        )[t]);
                    } else {
                        assert(chunk@[k] == old_chunk[k]);
                    }
                } else {
                    assert(chunk@[k] == old_chunk[k]);
                }
            }
        }
        if i == 0 {
            assert(new_byte_lookup_events@ =~= old_events + read_events(
                *event,
                event.state_read_records@.len() as int,
            ) + seq![]);
        } else if i == NUM_ROUNDS - 1 {
            assert(new_byte_lookup_events@ =~= old_events + seq![] + write_events(
                *event,
                event.state_write_records@.len() as int,
            ));
        } else {
            assert(new_byte_lookup_events@ =~= old_events + seq![] + seq![]);
        }
    }
}

/// Fills the state memory columns of the row starting at `row_start` from the
/// state reads.
fn populate_state_reads(
    event: &KeccakPermuteEvent,
    row_start: usize,
    chunk: &mut Vec<u32>,
    new_byte_lookup_events: &mut Vec<ByteLookupEvent>,
)
    requires
        row_start + NUM_KECCAK_MEM_COLS <= old(chunk)@.len(),
        event_fits(*event),
    ensures
        final(chunk)@.len() == old(chunk)@.len(),
        forall|j: int, t: int|
            0 <= j < event.state_read_records@.len() && 0 <= t < NUM_MEMORY_READ_WRITE_COLS
                ==> #[trigger] final(chunk)@[row_start + STATE_MEM + j * NUM_MEMORY_READ_WRITE_COLS
                + t] == read_write_cells_of_read(event.state_read_records@[j])[t],
        forall|k: int|
            0 <= k < old(chunk)@.len() && !(row_start + STATE_MEM <= k < row_start + STATE_MEM
                + event.state_read_records@.len() * NUM_MEMORY_READ_WRITE_COLS) ==> #[trigger] final(chunk)@[k] == old(chunk)@[k],
        final(new_byte_lookup_events)@ == old(new_byte_lookup_events)@ + read_events(
            *event,
            event.state_read_records@.len() as int,
        ),
{
    proof {
        lemma_keccak_layout();
    }
    let ghost start = chunk@;
    let ghost start_events = new_byte_lookup_events@;
    let len = chunk.len();
    let n = event.state_read_records.len();
    let mut j: usize = 0;
    while j < n
        invariant
            len == start.len(),
            n == event.state_read_records@.len(),
            row_start + NUM_KECCAK_MEM_COLS <= start.len(),
            event_fits(*event),
            j <= n,
            chunk@.len() == start.len(),
            forall|j2: int, t: int|
                0 <= j2 < j && 0 <= t < NUM_MEMORY_READ_WRITE_COLS ==> #[trigger] chunk@[row_start
                    + STATE_MEM + j2 * NUM_MEMORY_READ_WRITE_COLS + t] == read_write_cells_of_read(
                    event.state_read_records@[j2],
                )[t],
            forall|k: int|
                0 <= k < start.len() && !(row_start + STATE_MEM <= k < row_start + STATE_MEM + j
                    * NUM_MEMORY_READ_WRITE_COLS) ==> #[trigger] chunk@[k] == start[k],
            new_byte_lookup_events@ == start_events + read_events(*event, j as int),
        decreases n - j,
    {
        proof {
            lemma_keccak_layout();
        }
        let record = &event.state_read_records[j];
        let offset = row_start + STATE_MEM + j * NUM_MEMORY_READ_WRITE_COLS;
        let ghost before = chunk@;
        proof {
            assert(access_fits(read_current(*record), read_prev(*record)));
        }
        populate_read(record, chunk, offset, new_byte_lookup_events);
        let bytes = to_le_bytes(record.value);
        proof {
            assert(bytes@ =~= le_bytes_u8(record.value));
        }
        add_u8_range_checks(new_byte_lookup_events, event.shard, &bytes);
        proof {
            assert(new_byte_lookup_events@ =~= start_events + read_events(*event, j + 1));
            assert forall|j2: int, t: int|
                0 <= j2 < j + 1 && 0 <= t < NUM_MEMORY_READ_WRITE_COLS implies #[trigger] chunk@[row_start
                    + STATE_MEM + j2 * NUM_MEMORY_READ_WRITE_COLS + t] == read_write_cells_of_read(
                    event.state_read_records@[j2],
                )[t] by {
                if j2 < j {
                    assert(before[row_start + STATE_MEM + j2 * NUM_MEMORY_READ_WRITE_COLS + t]
                        == chunk@[row_start + STATE_MEM + j2 * NUM_MEMORY_READ_WRITE_COLS + t]);
                }
            }
        }
        j = j + 1;
    }
}

/// Fills the state memory columns of the row starting at `row_start` from the
/// state writes.
fn populate_state_writes(
    event: &KeccakPermuteEvent,
    row_start: usize,
    chunk: &mut Vec<u32>,
    new_byte_lookup_events: &mut Vec<ByteLookupEvent>,
)
    requires
        row_start + NUM_KECCAK_MEM_COLS <= old(chunk)@.len(),
        event_fits(*event),
    ensures
        final(chunk)@.len() == old(chunk)@.len(),
        forall|j: int, t: int|
            0 <= j < event.state_write_records@.len() && 0 <= t < NUM_MEMORY_READ_WRITE_COLS
                ==> #[trigger] final(chunk)@[row_start + STATE_MEM + j * NUM_MEMORY_READ_WRITE_COLS
                + t] == read_write_cells_of_write(event.state_write_records@[j])[t],
        forall|k: int|
            0 <= k < old(chunk)@.len() && !(row_start + STATE_MEM <= k < row_start + STATE_MEM
                + event.state_write_records@.len() * NUM_MEMORY_READ_WRITE_COLS) ==> #[trigger] final(chunk)@[k] == old(chunk)@[k],
        final(new_byte_lookup_events)@ == old(new_byte_lookup_events)@ + write_events(
            *event,
            event.state_write_records@.len() as int,
        ),
{
    proof {
        lemma_keccak_layout();
    }
    let ghost start = chunk@;
    let ghost start_events = new_byte_lookup_events@;
    let len = chunk.len();
    let n = event.state_write_records.len();
    let mut j: usize = 0;
    while j < n
        invariant
            len == start.len(),
            n == event.state_write_records@.len(),
            row_start + NUM_KECCAK_MEM_COLS <= start.len(),
            event_fits(*event),
            j <= n,
            chunk@.len() == start.len(),
            forall|j2: int, t: int|
                0 <= j2 < j && 0 <= t < NUM_MEMORY_READ_WRITE_COLS ==> #[trigger] chunk@[row_start
                    + STATE_MEM + j2 * NUM_MEMORY_READ_WRITE_COLS + t] == read_write_cells_of_write(
                    event.state_write_records@[j2],
                )[t],
            forall|k: int|
                0 <= k < start.len() && !(row_start + STATE_MEM <= k < row_start + STATE_MEM + j
                    * NUM_MEMORY_READ_WRITE_COLS) ==> #[trigger] chunk@[k] == start[k],
            new_byte_lookup_events@ == start_events + write_events(*event, j as int),
        decreases n - j,
    {
        proof {
            lemma_keccak_layout();
        }
        let record = &event.state_write_records[j];
        let offset = row_start + STATE_MEM + j * NUM_MEMORY_READ_WRITE_COLS;
        let ghost before = chunk@;
        proof {
            assert(access_fits(write_current(*record), write_prev(*record)));
        }
        populate_write(record, chunk, offset, new_byte_lookup_events);
        let bytes = to_le_bytes(record.value);
        proof {
            assert(bytes@ =~= le_bytes_u8(record.value));
        }
        add_u8_range_checks(new_byte_lookup_events, event.shard, &bytes);
        proof {
            assert(new_byte_lookup_events@ =~= start_events + write_events(*event, j + 1));
            assert forall|j2: int, t: int|
                0 <= j2 < j + 1 && 0 <= t < NUM_MEMORY_READ_WRITE_COLS implies #[trigger] chunk@[row_start
                    + STATE_MEM + j2 * NUM_MEMORY_READ_WRITE_COLS + t] == read_write_cells_of_write(
                    event.state_write_records@[j2],
                )[t] by {
                if j2 < j {
                    assert(before[row_start + STATE_MEM + j2 * NUM_MEMORY_READ_WRITE_COLS + t]
                        == chunk@[row_start + STATE_MEM + j2 * NUM_MEMORY_READ_WRITE_COLS + t]);
                }
            }
        }
        j = j + 1;
    }
}

} // verus!
