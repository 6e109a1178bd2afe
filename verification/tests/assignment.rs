use luma_swarm_studio::assignment::{morton_interleave, scalable_spatial_assignment};

#[test]
fn morton_keys_interleave_axis_bits() {
    assert_eq!(morton_interleave(0, 0, 0), 0);
    assert_eq!(morton_interleave(1, 0, 0), 0b001);
    assert_eq!(morton_interleave(0, 1, 0), 0b010);
    assert_eq!(morton_interleave(0, 0, 1), 0b100);
    assert_eq!(morton_interleave(3, 0, 0), 0b001_001);
    assert_eq!(morton_interleave(0xffff, 0xffff, 0xffff), (1u64 << 48) - 1);
}

#[test]
fn order_preserving_assignment_matches_by_key_rank() {
    let source = [30u64, 10, 20, 0];
    let destination = [5u64, 7, 1, 3];
    let result = scalable_spatial_assignment(&source, &destination, |_, _, _, _| false);
    assert_eq!(result, vec![1, 3, 0, 2]);
}

#[test]
fn approved_swaps_keep_a_one_to_one_assignment() {
    let count = 1_024usize;
    let source: Vec<u64> = (0..count as u64).map(|i| (i * 7_919) % 1_031).collect();
    let destination: Vec<u64> = (0..count as u64).map(|i| (i * 104_729) % 2_053).collect();
    let result = scalable_spatial_assignment(&source, &destination, |a, b, da, db| (a + db) % 3 < (b + da) % 3);
    let mut unique = result.clone();
    unique.sort_unstable();
    unique.dedup();
    assert_eq!(unique.len(), count);
    assert!(result.iter().all(|&d| d < count));
}

#[test]
fn empty_fleets_need_no_assignment() {
    let result = scalable_spatial_assignment(&[], &[], |_, _, _, _| true);
    assert!(result.is_empty());
}
