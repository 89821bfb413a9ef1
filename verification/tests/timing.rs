use sentinel::sys_info::timing::{
    bucket_of, get_cpu_timing_signature, get_robust_cpu_timing_signature, majority_value,
    median_of_samples, ratio_operands, sort_u64,
};

#[test]
fn median_is_the_middle_of_the_sorted_samples() {
    assert_eq!(median_of_samples(&vec![5, 1, 4, 2, 3]), 3);
    assert_eq!(median_of_samples(&vec![9, 7]), 9);
    assert_eq!(median_of_samples(&vec![42]), 42);
}

#[test]
fn sorting_keeps_every_sample() {
    assert_eq!(sort_u64(&vec![3, 1, 3, 0, u64::MAX, 2]), vec![0, 1, 2, 3, 3, u64::MAX]);
    assert!(sort_u64(&vec![]).is_empty());
}

#[test]
fn buckets_round_to_nearest_multiple_of_eighty() {
    assert_eq!(bucket_of(0), 0);
    assert_eq!(bucket_of(39), 0);
    assert_eq!(bucket_of(40), 1);
    assert_eq!(bucket_of(119), 1);
    assert_eq!(bucket_of(120), 2);
    assert_eq!(bucket_of(7040), 88);
    assert_eq!(bucket_of(u64::MAX), 230584300921369395);
}

#[test]
fn signature_uses_the_median_ratio_of_each_slot() {
    let samples: [Vec<u64>; 6] = [
        vec![7040, 7000, 7100, 6990, 7050],
        vec![6000, 6000, 6000, 6000, 6000],
        vec![2640, 2650, 2660],
        vec![37920, 37900],
        vec![],
        vec![100000, 99900, 99950, 100100, 100050],
    ];
    assert_eq!(get_cpu_timing_signature(&samples), [88, 75, 33, 0, 0, 1250]);
}

#[test]
fn majority_vote_is_taken_per_bucket() {
    let runs = vec![[1, 2, 3, 4, 5, 6], [1, 2, 3, 4, 5, 7], [2, 2, 3, 4, 9, 7]];
    assert_eq!(get_robust_cpu_timing_signature(&runs), [1, 2, 3, 4, 5, 7]);
}

#[test]
fn majority_vote_tie_goes_to_the_earliest_value() {
    let runs = vec![[1, 0, 0, 0, 0, 0], [2, 0, 0, 0, 0, 0], [2, 0, 0, 0, 0, 0], [1, 0, 0, 0, 0, 0]];
    assert_eq!(get_robust_cpu_timing_signature(&runs), [1, 0, 0, 0, 0, 0]);
    assert_eq!(majority_value(&vec![4, 5, 5, 4, 6]), 4);
    assert_eq!(majority_value(&vec![4, 5, 5, 6]), 5);
    assert_eq!(majority_value(&vec![]), 0);
}

#[test]
fn stable_runs_give_their_own_signature() {
    let runs = vec![[88, 75, 33, 474, 552, 1249]; 5];
    assert_eq!(get_robust_cpu_timing_signature(&runs), [88, 75, 33, 474, 552, 1249]);
    assert_eq!(get_robust_cpu_timing_signature(&vec![]), [0; 6]);
}

#[test]
fn ratio_slots_pair_the_documented_workloads() {
    // mul, div, fp, aes, rot, xor
    let ops = ratio_operands(&[10, 20, 30, 40, 50, 60]);
    assert_eq!(
        ops,
        [Some((10, 20)), Some((10, 30)), Some((10, 40)), Some((20, 40)), Some((30, 40)), Some((50, 60))]
    );
    let ops = ratio_operands(&[10, 0, 30, 0, 50, 60]);
    assert_eq!(ops, [None, Some((10, 30)), None, None, None, Some((50, 60))]);
}
