use sandpile::avalanche::{contains_id, Avalanche};
use sandpile::draws::magnitude_count;
use sandpile::ids::{generateXyzId, num_bits_needed};
use sandpile::pile::AvalancheReport;
use sandpile::stats::histogram;

#[test]
fn avalanche_counts_distinct_grains() {
    let mut a = Avalanche::new(7);
    a.addGrain(3);
    a.addGrain(5);
    a.addGrain(3);
    assert_eq!(a.grainIds, vec![3, 5]);
    assert_eq!(a.totalGrainsInvolved, 2);
    a.removeGrain(3);
    assert_eq!(a.grainIds, vec![5]);
    a.addGrain(3);
    assert_eq!(a.grainIds, vec![5, 3]);
    assert_eq!(a.totalGrainsInvolved, 2);
    assert!(contains_id(&a.involvedIds, 5));
    assert!(!contains_id(&a.involvedIds, 4));
}

#[test]
fn histogram_buckets_sorted_with_counts() {
    let h = histogram(&vec![5, 1, 5, 3, 1, 5]);
    assert_eq!(h, vec![(1, 2), (3, 1), (5, 3)]);
    assert!(histogram(&vec![]).is_empty());
    assert_eq!(histogram(&vec![u128::MAX, 0]), vec![(0, 1), (u128::MAX, 1)]);
}

#[test]
fn magnitudes_become_counts() {
    assert_eq!(magnitude_count(-2), 0);
    assert_eq!(magnitude_count(0), 0);
    assert_eq!(magnitude_count(7), 7);
}

#[test]
fn bit_widths_and_cell_ids() {
    assert_eq!(num_bits_needed(0), 0);
    assert_eq!(num_bits_needed(1), 0);
    assert_eq!(num_bits_needed(2), 1);
    assert_eq!(num_bits_needed(15), 4);
    assert_eq!(num_bits_needed(16), 4);
    assert_eq!(num_bits_needed(17), 5);
    assert_eq!(num_bits_needed(31), 5);
    assert_eq!(generateXyzId(0, 0, 0), 0);
    assert_eq!(generateXyzId(1, 2, 3), 512 + 32 + 3);
    assert_eq!(generateXyzId(30, 30, 14), (30 << 9) | (30 << 4) | 14);
}

#[test]
fn report_magnitude_is_grains_times_movement() {
    let r = AvalancheReport { avalancheId: 0, totalGrainsInvolved: 3, totalMovement: 7, escaped: 0, complete: true, passes: 9 };
    assert_eq!(r.magnitude(), 21);
    let big = AvalancheReport { totalGrainsInvolved: usize::MAX, totalMovement: 2, ..r };
    assert_eq!(big.magnitude(), usize::MAX as u128 * 2);
}
