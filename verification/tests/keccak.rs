use machine_chips::keccak::{
    KeccakPermuteChip, KeccakPermuteEvent, CLK, DO_MEMORY_CHECK, IS_REAL, NONCE, NUM_KECCAK_COLS,
    NUM_KECCAK_MEM_COLS, NUM_ROUNDS, RECEIVE_ECALL, SHARD, STATE_ADDR, STATE_MEM,
};
use machine_chips::memory_access::{
    add_u8_range_checks, to_le_bytes, ByteLookupEvent, ByteOpcode, MemoryReadRecord, MemoryWriteRecord,
};
use machine_chips::record::ShardRecord;
use p3_baby_bear::BabyBear;
use p3_field::PrimeField32;
use p3_matrix::Matrix;

fn event() -> KeccakPermuteEvent {
    let mut pre_state = [0u64; 25];
    for (i, lane) in pre_state.iter_mut().enumerate() {
        *lane = 0x0123_4567_89ab_cdef_u64.rotate_left(i as u32);
    }
    let reads = (0..50u32)
        .map(|j| MemoryReadRecord {
            value: 0x0102_0304 + j,
            shard: 3,
            timestamp: 100,
            // Words of even index were last touched in this shard, the others in an earlier one.
            prev_shard: if j % 2 == 0 { 3 } else { 1 },
            prev_timestamp: 90 - j,
        })
        .collect();
    let writes = (0..50u32)
        .map(|j| MemoryWriteRecord {
            value: 0xaabb_ccdd ^ j,
            shard: 3,
            timestamp: 101,
            prev_value: 0x0102_0304 + j,
            prev_shard: 3,
            prev_timestamp: 100,
        })
        .collect();
    KeccakPermuteEvent {
        shard: 3,
        clk: 100,
        pre_state,
        state_read_records: reads,
        state_write_records: writes,
        state_addr: 0x2000,
    }
}

#[test]
fn keccak_layout_starts_with_the_keccak_air_columns() {
    assert_eq!(NUM_KECCAK_COLS, p3_keccak_air::NUM_KECCAK_COLS);
    assert_eq!(NUM_ROUNDS, p3_keccak_air::NUM_ROUNDS);
    assert_eq!(NUM_KECCAK_MEM_COLS, NUM_KECCAK_COLS + 4 + 50 * 13 + 3);
}

#[test]
fn keccak_name_and_inclusion() {
    let chip = KeccakPermuteChip::new();
    assert_eq!(chip.name(), "Keccak256");
    let rec = |n| ShardRecord {
        shape: None,
        local_memory_events: 1,
        keccak_permute_events: n,
        uint256_mul_events: 1,
    };
    assert!(chip.included(&rec(2)));
    assert!(!chip.included(&rec(0)));
}

#[test]
fn keccak_populate_chunk_fills_one_row_per_round() {
    let ev = event();
    let width = NUM_KECCAK_MEM_COLS;
    let mut chunk = vec![0u32; NUM_ROUNDS * width + 5];
    chunk[NUM_ROUNDS * width + 2] = 77;
    let mut blu = Vec::new();
    KeccakPermuteChip::populate_chunk(&ev, &mut chunk, &mut blu);

    let trace = p3_keccak_air::generate_trace_rows::<BabyBear>(vec![ev.pre_state]);
    for i in 0..NUM_ROUNDS {
        let row = &chunk[i * width..(i + 1) * width];
        let expected: Vec<u32> = trace.row(i).map(|x| x.as_canonical_u32()).collect();
        assert_eq!(&row[..NUM_KECCAK_COLS], expected.as_slice());
        assert_eq!(row[SHARD], 3);
        assert_eq!(row[CLK], 100);
        assert_eq!(row[STATE_ADDR], 0x2000);
        assert_eq!(row[IS_REAL], 1);
        assert_eq!(row[NONCE], 0);
        assert_eq!(row[RECEIVE_ECALL], if i == 0 { 1 } else { 0 });
        assert_eq!(row[DO_MEMORY_CHECK], if i == 0 || i == NUM_ROUNDS - 1 { 1 } else { 0 });
        if i != 0 && i != NUM_ROUNDS - 1 {
            assert!(row[STATE_MEM..STATE_MEM + 650].iter().all(|&c| c == 0));
        }
    }
    // Cells past the 24 rows keep their values.
    assert_eq!(chunk[NUM_ROUNDS * width + 2], 77);

    // First read: same shard, clocks 90 then 100.
    let first = &chunk[STATE_MEM..STATE_MEM + 13];
    assert_eq!(first, &[4, 3, 2, 1, 4, 3, 2, 1, 3, 90, 1, 9, 0]);
    // Second read: earlier shard, shards 1 then 3.
    let second = &chunk[STATE_MEM + 13..STATE_MEM + 26];
    assert_eq!(second, &[5, 3, 2, 1, 5, 3, 2, 1, 1, 89, 0, 1, 0]);
    // First write on the last row: previous value, value, then the access.
    let last = (NUM_ROUNDS - 1) * width + STATE_MEM;
    assert_eq!(&chunk[last..last + 13], &[4, 3, 2, 1, 0xdd, 0xcc, 0xbb, 0xaa, 3, 100, 1, 0, 0]);

    // Each access asks for a 16-bit and an 8-bit range check, then two byte checks.
    assert_eq!(blu.len(), 100 * 4);
    let range16 = |shard, a| ByteLookupEvent { shard, opcode: ByteOpcode::U16Range, a1: a, a2: 0, b: 0, c: 0 };
    let range8 = |shard, a, b| ByteLookupEvent { shard, opcode: ByteOpcode::U8Range, a1: 0, a2: 0, b: a, c: b };
    assert_eq!(blu[0], range16(3, 9));
    assert_eq!(blu[1], range8(3, 0, 0));
    assert_eq!(blu[2], range8(3, 4, 3));
    assert_eq!(blu[3], range8(3, 2, 1));
    assert_eq!(blu[4], range16(3, 1));
    assert_eq!(blu[200], range16(3, 0));
    assert_eq!(blu[202], range8(3, 0xdd, 0xcc));
    assert_eq!(blu[203], range8(3, 0xbb, 0xaa));
}

#[test]
fn keccak_populated_cells_are_field_elements() {
    let ev = event();
    let mut chunk = vec![0u32; NUM_ROUNDS * NUM_KECCAK_MEM_COLS];
    let mut blu = Vec::new();
    KeccakPermuteChip::populate_chunk(&ev, &mut chunk, &mut blu);
    assert!(chunk.iter().all(|&c| c < machine_chips::field::BABY_BEAR_P));
}

#[test]
fn byte_range_checks_pair_bytes_and_pad_an_odd_one() {
    let mut out = Vec::new();
    add_u8_range_checks(&mut out, 9, &[1, 2, 3]);
    assert_eq!(out.len(), 2);
    assert_eq!(out[0].b, 1);
    assert_eq!(out[0].c, 2);
    assert_eq!(out[1].b, 3);
    assert_eq!(out[1].c, 0);
    assert_eq!(out[1].shard, 9);
    let mut none = Vec::new();
    add_u8_range_checks(&mut none, 9, &[]);
    assert!(none.is_empty());
    assert_eq!(to_le_bytes(0x1234_5678), 0x1234_5678u32.to_le_bytes());
}
