use densmap::densmap::{
    index2tuple, read_densmap_from_bytes, read_densmap_from_file_bytes, tuple2index,
    write_densmap_to_bytes, write_densmap_to_file_bytes, DensMap, GridError,
};

fn sample_map() -> DensMap {
    DensMap {
        bin_size: [0.5f64.to_bits(), 0.25f64.to_bits(), 0.0f64.to_bits()],
        origin: [(-1.5f64).to_bits(), 2.0f64.to_bits()],
        shape: [3, 2],
        center: [1.25f64.to_bits(), 0.75f64.to_bits()],
        data: vec![
            0.0f64.to_bits(),
            1.0f64.to_bits(),
            f64::NAN.to_bits(),
            (-0.0f64).to_bits(),
            1e300f64.to_bits(),
            0.1f64.to_bits(),
        ],
    }
}

fn same_map(a: &DensMap, b: &DensMap) -> bool {
    a.bin_size == b.bin_size
        && a.origin == b.origin
        && a.shape == b.shape
        && a.center == b.center
        && a.data == b.data
}

#[test]
fn test_correct_ix_values_from_index() {
    let shape = [6, 9];
    assert_eq!(0, index2tuple(0, shape).unwrap().0);
    assert_eq!(1, index2tuple(1, shape).unwrap().0);
    assert_eq!(5, index2tuple(5, shape).unwrap().0);
    assert_eq!(0, index2tuple(6, shape).unwrap().0);
    assert_eq!(1, index2tuple(7, shape).unwrap().0);
    assert_eq!(5, index2tuple(53, shape).unwrap().0);
    assert_eq!(None, index2tuple(54, shape));
}

#[test]
fn test_correct_iy_values_from_index() {
    let shape = [6, 9];
    assert_eq!(0, index2tuple(0, shape).unwrap().1);
    assert_eq!(0, index2tuple(1, shape).unwrap().1);
    assert_eq!(0, index2tuple(5, shape).unwrap().1);
    assert_eq!(1, index2tuple(6, shape).unwrap().1);
    assert_eq!(1, index2tuple(7, shape).unwrap().1);
    assert_eq!(8, index2tuple(53, shape).unwrap().1);
    assert_eq!(None, index2tuple(54, shape));
}

#[test]
fn test_correct_index_from_tuple() {
    let shape = [6, 9];
    assert_eq!(Some(0), tuple2index(0, 0, shape));
    assert_eq!(Some(1), tuple2index(1, 0, shape));
    assert_eq!(Some(5), tuple2index(5, 0, shape));
    assert_eq!(Some(6), tuple2index(0, 1, shape));
    assert_eq!(Some(7), tuple2index(1, 1, shape));
    assert_eq!(Some(53), tuple2index(5, 8, shape));
    assert_eq!(None, tuple2index(-1, 0, shape));
    assert_eq!(None, tuple2index(0, -1, shape));
    assert_eq!(None, tuple2index(6, 0, shape));
    assert_eq!(None, tuple2index(0, 9, shape));
}

#[test]
fn index_and_position_round_trip_over_whole_grid() {
    let shape = [7, 4];
    for i in 0..28usize {
        let (ix, iy) = index2tuple(i, shape).unwrap();
        assert_eq!(Some(i), tuple2index(ix as isize, iy as isize, shape));
    }
    assert_eq!(None, index2tuple(28, shape));
    assert_eq!(None, index2tuple(usize::MAX, shape));
}

#[test]
fn empty_grid_has_no_valid_index() {
    assert_eq!(None, index2tuple(0, [0, 5]));
    assert_eq!(None, index2tuple(0, [5, 0]));
    assert_eq!(None, tuple2index(0, 0, [0, 5]));
}

#[test]
fn record_layout_is_little_endian_words_in_order() {
    let map = sample_map();
    let bytes = write_densmap_to_bytes(&map, 12.5f64.to_bits());
    assert_eq!(8 * (10 + 6), bytes.len());
    assert_eq!(&0.5f64.to_le_bytes()[..], &bytes[0..8]);
    assert_eq!(&(-1.5f64).to_le_bytes()[..], &bytes[24..32]);
    assert_eq!(&3u64.to_le_bytes()[..], &bytes[40..48]);
    assert_eq!(&2u64.to_le_bytes()[..], &bytes[48..56]);
    assert_eq!(&12.5f64.to_le_bytes()[..], &bytes[72..80]);
    assert_eq!(&0.1f64.to_le_bytes()[..], &bytes[120..128]);
}

#[test]
fn write_then_read_round_trips_bit_exactly() {
    let map = sample_map();
    let time = 1234.5f64.to_bits();
    let bytes = write_densmap_to_bytes(&map, time);
    let (read, read_time) = read_densmap_from_bytes(&bytes).unwrap();
    assert!(same_map(&map, &read));
    assert_eq!(time, read_time);
}

#[test]
fn compressed_write_then_read_round_trips_bit_exactly() {
    let map = sample_map();
    let time = 0.002f64.to_bits();
    let raw = write_densmap_to_file_bytes(&map, time, false).unwrap();
    let packed = write_densmap_to_file_bytes(&map, time, true).unwrap();
    assert_ne!(raw, packed);
    assert_eq!(&[0x1f, 0x8b][..], &packed[0..2]);
    let (read, read_time) = read_densmap_from_file_bytes(&packed, true).unwrap();
    assert!(same_map(&map, &read));
    assert_eq!(time, read_time);
}

#[test]
fn trailing_bytes_after_record_are_ignored() {
    let map = sample_map();
    let mut bytes = write_densmap_to_bytes(&map, 7);
    bytes.extend_from_slice(&[1, 2, 3]);
    let (read, time) = read_densmap_from_bytes(&bytes).unwrap();
    assert!(same_map(&map, &read));
    assert_eq!(7, time);
}

#[test]
fn truncated_record_is_an_error() {
    let map = sample_map();
    let bytes = write_densmap_to_bytes(&map, 7);
    assert_eq!(Some(GridError::Truncated), read_densmap_from_bytes(&bytes[..79]).err());
    assert_eq!(
        Some(GridError::Truncated),
        read_densmap_from_bytes(&bytes[..bytes.len() - 1]).err()
    );
    assert_eq!(Some(GridError::Truncated), read_densmap_from_bytes(&[]).err());
}

#[test]
fn huge_declared_shape_is_truncated_not_a_crash() {
    let map = DensMap {
        bin_size: [0; 3],
        origin: [0; 2],
        shape: [u64::MAX, u64::MAX],
        center: [0; 2],
        data: vec![],
    };
    let bytes = write_densmap_to_bytes(&map, 0);
    assert_eq!(Some(GridError::Truncated), read_densmap_from_bytes(&bytes).err());
}

#[test]
fn corrupt_gzip_stream_is_a_compression_error() {
    let map = sample_map();
    let raw = write_densmap_to_bytes(&map, 1);
    assert_eq!(
        Some(GridError::Compression),
        read_densmap_from_file_bytes(&raw, true).err()
    );
}
