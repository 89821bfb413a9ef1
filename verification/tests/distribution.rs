use sentinel::distribution::{group_cores_by_signature, majority_signature};

const A: [u64; 6] = [1, 1, 1, 1, 1, 1];
const B: [u64; 6] = [2, 2, 2, 2, 2, 2];
const C: [u64; 6] = [3, 3, 3, 3, 3, 3];

#[test]
fn core_signature_is_its_most_frequent_run() {
    assert_eq!(majority_signature(&vec![A, B, B, C, B]), (B, 3));
    assert_eq!(majority_signature(&vec![A, B]), (A, 1));
    assert_eq!(majority_signature(&vec![]), ([0; 6], 0));
}

#[test]
fn cores_are_grouped_largest_group_first() {
    let groups = group_cores_by_signature(&vec![(0, A), (1, B), (2, A), (3, C), (4, B), (5, B)]);
    let view: Vec<([u64; 6], Vec<usize>)> = groups.into_iter().map(|g| (g.signature, g.cores)).collect();
    assert_eq!(view, vec![(B, vec![1, 4, 5]), (A, vec![0, 2]), (C, vec![3])]);
}

#[test]
fn equal_sized_groups_keep_first_core_order() {
    let groups = group_cores_by_signature(&vec![(0, C), (1, A), (2, B)]);
    let sigs: Vec<[u64; 6]> = groups.iter().map(|g| g.signature).collect();
    assert_eq!(sigs, vec![C, A, B]);
}

#[test]
fn a_homogeneous_cpu_forms_one_group() {
    let groups = group_cores_by_signature(&vec![(0, A), (1, A), (2, A), (3, A)]);
    assert_eq!(groups.len(), 1);
    assert_eq!(groups[0].cores, vec![0, 1, 2, 3]);
    assert!(group_cores_by_signature(&vec![]).is_empty());
}
