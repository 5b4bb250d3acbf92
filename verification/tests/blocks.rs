use dumac::blocks::blocks_from_bytes;

#[test]
fn rounds_allocations_up_to_whole_blocks() {
    assert_eq!(blocks_from_bytes(0), 0);
    assert_eq!(blocks_from_bytes(1), 1);
    assert_eq!(blocks_from_bytes(512), 1);
    assert_eq!(blocks_from_bytes(513), 2);
    assert_eq!(blocks_from_bytes(1000), 2);
    assert_eq!(blocks_from_bytes(2048), 4);
}

#[test]
fn rounds_negative_sizes_toward_zero() {
    assert_eq!(blocks_from_bytes(-1), 0);
    assert_eq!(blocks_from_bytes(-511), 0);
    assert_eq!(blocks_from_bytes(-512), 0);
    assert_eq!(blocks_from_bytes(-1022), 0);
    assert_eq!(blocks_from_bytes(-1023), -1);
    assert_eq!(blocks_from_bytes(i64::MIN), (i64::MIN + 511) / 512);
}

#[test]
fn largest_sizes_do_not_overflow() {
    assert_eq!(blocks_from_bytes(i64::MAX), 18014398509481984);
    assert_eq!(blocks_from_bytes(i64::MAX - 511), 18014398509481983);
}
