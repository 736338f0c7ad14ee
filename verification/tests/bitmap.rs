use krnl::bitmap::Bitmap;

#[test]
fn find_zeros() {
    let block: usize = 64;

    // Full block
    let mut bitmap = Bitmap::new(vec![u64::MAX, u64::MIN, u64::MAX]);
    println!("{bitmap:?}");
    assert_eq!(bitmap.consecutive_zeros(1).next(&bitmap), Some((block, block * 2)));
    assert_eq!(bitmap.consecutive_zeros(block).next(&bitmap), Some((block, block * 2)));
    assert_eq!(bitmap.consecutive_zeros(block + 1).next(&bitmap), None); // doesn't fit

    // Full block and one extra
    bitmap.set_zeros(block - 1, block * 2 + 1);
    println!("{bitmap:?}");
    assert_eq!(bitmap.consecutive_zeros(1).next(&bitmap), Some((block - 1, block)));
    assert_eq!(
        bitmap.consecutive_zeros(block).next(&bitmap),
        Some((block - 1, block * 2))
    ); // stop as soon as enough bits are found
    assert_eq!(
        bitmap.consecutive_zeros(block + 2).next(&bitmap),
        Some((block - 1, block * 2 + 1))
    );
    assert_eq!(bitmap.consecutive_zeros(block + 3).next(&bitmap), None); // doesn't
                                                                         // fit
}

#[test]
fn set_ones_marks_range_and_leaves_rest() {
    let mut bm = Bitmap::new(vec![0, 0]);
    bm.set_ones(3, 70);
    for i in 0..128 {
        assert_eq!(bm.get(i), 3 <= i && i < 70);
    }
}

#[test]
fn set_zeros_clears_range_and_leaves_rest() {
    let mut bm = Bitmap::new(vec![u64::MAX, u64::MAX]);
    bm.set_zeros(60, 68);
    for i in 0..128 {
        assert_eq!(bm.get(i), !(60 <= i && i < 68));
    }
}

#[test]
fn set_round_trip_restores_bitmap() {
    // bits 4-7 and 12-15 are ones; the range 16..40 holds only zeros
    let mut bm = Bitmap::new(vec![0xF0F0, 0]);
    let before: Vec<bool> = (0..128).map(|i| bm.get(i)).collect();
    bm.set_ones(16, 40);
    bm.set_zeros(16, 40);
    for i in 0..128 {
        assert_eq!(bm.get(i), before[i]);
    }
}

#[test]
fn count_zeros_counts_free_bits() {
    assert_eq!(Bitmap::new(vec![u64::MAX, 0]).count_zeros(), 64);
    assert_eq!(Bitmap::new(vec![1]).count_zeros(), 63);
    assert_eq!(Bitmap::new(vec![]).count_zeros(), 0);
}

#[test]
fn capacity_follows_blocks() {
    let mut bm = Bitmap::new(vec![0; 3]);
    assert_eq!(bm.capacity(), 192);
    bm.replace(vec![0; 5]);
    assert_eq!(bm.capacity(), 320);
}

#[test]
fn runs_come_in_order_and_hold_only_zeros() {
    // ones at bits 0, 1 and 63; zeros at 2..63 and the whole second block
    let bm = Bitmap::new(vec![0x8000_0000_0000_0003, 0]);
    let mut it = bm.consecutive_zeros(2);
    let mut runs = Vec::new();
    while let Some(run) = it.next(&bm) {
        runs.push(run);
    }
    assert_eq!(runs, vec![(2, 63), (64, 128)]);
    let mut last_start = 0;
    for (a, b) in runs {
        assert!(b - a >= 2);
        assert!(a >= last_start);
        last_start = a;
        for i in a..b {
            assert!(!bm.get(i));
        }
    }
}

#[test]
fn claiming_a_found_run_through_the_scan() {
    let mut bm = Bitmap::new(vec![0xFF, 0]);
    let it = bm.consecutive_zeros(16);
    let mut probe = bm.consecutive_zeros(16);
    let run = probe.next(&bm).unwrap();
    assert_eq!(run, (8, 64));
    it.set_ones(&mut bm, run.0, run.0 + 16);
    for i in 8..24 {
        assert!(bm.get(i));
    }
    assert!(!bm.get(24));
}
