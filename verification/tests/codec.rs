use voxel_rs::block::BlockId;
use voxel_rs::network::{
    deserialize_blocks, deserialize_fragment, serialize_blocks, serialize_fragment,
    try_deserialize_blocks, try_deserialize_fragment,
};

fn run(id: u16, n: usize) -> Vec<BlockId> {
    vec![BlockId(id); n]
}

#[test]
fn empty_input_encodes_to_nothing() {
    assert_eq!(serialize_blocks(&[]), Vec::<u8>::new());
    assert_eq!(deserialize_blocks(&[]), Vec::<BlockId>::new());
}

#[test]
fn single_block_is_two_bytes_high_first() {
    assert_eq!(serialize_blocks(&[BlockId(0x1234)]), vec![0x12, 0x34]);
    assert_eq!(deserialize_blocks(&[0x12, 0x34]), vec![BlockId(0x1234)]);
}

#[test]
fn run_of_two_gets_a_count_byte() {
    assert_eq!(serialize_blocks(&run(5, 2)), vec![0x82, 0x00, 0x05]);
    assert_eq!(deserialize_blocks(&[0x82, 0x00, 0x05]), run(5, 2));
}

#[test]
fn column_of_air_is_three_bytes() {
    let column = [BlockId(0); 32];
    assert_eq!(serialize_fragment(&column), vec![0xA0, 0x00, 0x00]);
    assert_eq!(*deserialize_fragment(&[0xA0, 0x00, 0x00]), column);
}

#[test]
fn round_trip_all_equal_column() {
    let column = [BlockId(0x0507); 32];
    let bytes = serialize_fragment(&column);
    assert_eq!(bytes, vec![0xA0, 0x05, 0x07]);
    assert_eq!(*deserialize_fragment(&bytes), column);
}

#[test]
fn round_trip_all_distinct_column() {
    let mut column = [BlockId(0); 32];
    for (i, block) in column.iter_mut().enumerate() {
        *block = BlockId(i as u16 * 3 + 1);
    }
    let bytes = serialize_fragment(&column);
    assert_eq!(bytes.len(), 64);
    assert_eq!(*deserialize_fragment(&bytes), column);
}

#[test]
fn round_trip_mixed_column() {
    let mut column = [BlockId(0); 32];
    column[0] = BlockId(5);
    column[1] = BlockId(5);
    column[2] = BlockId(7);
    column[31] = BlockId(0x7fff);
    let bytes = serialize_fragment(&column);
    assert_eq!(
        bytes,
        vec![0x82, 0x00, 0x05, 0x00, 0x07, 0x80 | 28, 0x00, 0x00, 0x7f, 0xff]
    );
    assert_eq!(*deserialize_fragment(&bytes), column);
}

#[test]
fn round_trip_run_lengths_1_2_127() {
    for n in [1usize, 2, 127] {
        let blocks = run(9, n);
        assert_eq!(deserialize_blocks(&serialize_blocks(&blocks)), blocks);
    }
}

#[test]
fn run_of_127_has_count_byte_ff() {
    assert_eq!(serialize_blocks(&run(9, 127)), vec![0xFF, 0x00, 0x09]);
}

#[test]
fn run_of_128_loses_its_count() {
    // 0x80 | 128 is 0x80: the seven count bits read zero.
    let bytes = serialize_blocks(&run(9, 128));
    assert_eq!(bytes, vec![0x80, 0x00, 0x09]);
    assert_eq!(deserialize_blocks(&bytes), Vec::<BlockId>::new());
}

#[test]
fn run_of_255_is_one_run() {
    let bytes = serialize_blocks(&run(9, 255));
    assert_eq!(bytes, vec![0xFF, 0x00, 0x09]);
    assert_eq!(deserialize_blocks(&bytes), run(9, 127));
}

#[test]
fn run_of_256_is_cut_at_255() {
    let bytes = serialize_blocks(&run(9, 256));
    assert_eq!(bytes, vec![0xFF, 0x00, 0x09, 0x00, 0x09]);
}

#[test]
fn single_block_with_high_id_does_not_round_trip() {
    let mut column = [BlockId(0); 32];
    column[0] = BlockId(0x8000);
    let bytes = serialize_fragment(&column);
    assert_eq!(bytes, vec![0x80, 0x00, 0x80 | 31, 0x00, 0x00]);
    let back = try_deserialize_fragment(&bytes).unwrap();
    assert_ne!(*back, column);
}

#[test]
fn run_with_high_id_round_trips() {
    let blocks = run(0xFFFF, 4);
    let bytes = serialize_blocks(&blocks);
    assert_eq!(bytes, vec![0x84, 0xFF, 0xFF]);
    assert_eq!(deserialize_blocks(&bytes), blocks);
}

#[test]
fn truncated_stream_is_refused() {
    assert!(try_deserialize_blocks(&[0x00]).is_none());
    assert!(try_deserialize_blocks(&[0x82]).is_none());
    assert!(try_deserialize_blocks(&[0x82, 0x00]).is_none());
    assert!(try_deserialize_blocks(&[0x00, 0x01, 0x05]).is_none());
    assert!(try_deserialize_fragment(&[0x82, 0x00]).is_none());
}

#[test]
fn complete_stream_is_accepted() {
    assert_eq!(
        try_deserialize_blocks(&[0x00, 0x01, 0x83, 0x00, 0x02]),
        Some(vec![BlockId(1), BlockId(2), BlockId(2), BlockId(2)])
    );
}

#[test]
fn count_byte_of_zero_yields_no_block() {
    assert_eq!(deserialize_blocks(&[0x80, 0x00, 0x09, 0x00, 0x01]), vec![BlockId(1)]);
}

#[test]
fn short_stream_leaves_air_in_fragment() {
    let frag = deserialize_fragment(&[0x00, 0x07]);
    assert_eq!(frag[0], BlockId(7));
    for z in 1..32 {
        assert_eq!(frag[z], BlockId(0));
    }
}

#[test]
fn long_stream_is_cut_to_fragment() {
    let frag = deserialize_fragment(&[0x80 | 40, 0x00, 0x07]);
    assert_eq!(*frag, [BlockId(7); 32]);
}
