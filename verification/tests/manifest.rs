use sentinel::manifest::{signatures_within_tolerance, CollectionDiff, DiffStatus, HardwareManifest};
use sentinel::sys_info::linux::CpuInfo;

fn strings(items: &[&str]) -> Vec<String> {
    items.iter().map(|s| s.to_string()).collect()
}

fn cpu(model_name: &str, stepping: &str) -> CpuInfo {
    CpuInfo {
        model_name: model_name.to_string(),
        cpu_family: "6".to_string(),
        model: "154".to_string(),
        stepping: stepping.to_string(),
        microcode: "0x43b".to_string(),
        cache_size: "24576 KB".to_string(),
        cpuid_level: "32".to_string(),
    }
}

fn baseline() -> HardwareManifest {
    HardwareManifest {
        machine_id: "HW-0000000000000001".to_string(),
        motherboard_serial: Some("MB-123".to_string()),
        cpu_timing_signature: [88, 75, 33, 474, 552, 1249],
        cpu_info: cpu("12th Gen Intel Core i7-12700H", "3"),
        ram_serials: strings(&["Samsung M471 ChannelA-DIMM0 (S/N: 1111)"]),
        drive_serials: strings(&["Samsung SSD 980 (S/N: S1)", "WD Blue (S/N: W2)"]),
        gpu_uuids: strings(&["PCI-0x10de-0x2204"]),
        mac_addresses: strings(&["eth0 [AA:BB:CC:DD:EE:FF]", "wlan0 [11:22:33:44:55:66]"]),
    }
}

#[test]
fn identical_manifest_passes() {
    let base = baseline();
    let diff = base.compare(&base.clone());
    assert!(diff.is_identical);
    assert_eq!(diff.motherboard, DiffStatus::Unchanged);
    assert_eq!(diff.cpu, DiffStatus::Unchanged);
    assert_eq!(diff.cpu_info, DiffStatus::Unchanged);
    assert!(diff.ram.is_identical());
    assert_eq!(diff.drives.unchanged, base.drive_serials);
    assert!(diff.macs.added.is_empty() && diff.macs.missing.is_empty());
}

#[test]
fn machine_id_does_not_take_part_in_verification() {
    let base = baseline();
    let mut live = base.clone();
    live.machine_id = "HW-FFFFFFFFFFFFFFFF".to_string();
    assert!(base.compare(&live).is_identical);
}

#[test]
fn motherboard_change_is_reported_with_both_values() {
    let base = baseline();
    let mut live = base.clone();
    live.motherboard_serial = None;
    let diff = base.compare(&live);
    assert!(!diff.is_identical);
    assert_eq!(
        diff.motherboard,
        DiffStatus::Modified { expected: Some("MB-123".to_string()), actual: None }
    );
}

#[test]
fn timing_buckets_within_one_still_match() {
    let base = baseline();
    let mut live = base.clone();
    live.cpu_timing_signature = [89, 74, 33, 475, 551, 1249];
    let diff = base.compare(&live);
    assert_eq!(diff.cpu, DiffStatus::Unchanged);
    assert!(diff.is_identical);
}

#[test]
fn timing_bucket_off_by_two_is_a_different_cpu() {
    let base = baseline();
    let mut live = base.clone();
    live.cpu_timing_signature = [88, 75, 33, 474, 552, 1251];
    let diff = base.compare(&live);
    assert_eq!(
        diff.cpu,
        DiffStatus::Modified {
            expected: [88, 75, 33, 474, 552, 1249],
            actual: [88, 75, 33, 474, 552, 1251]
        }
    );
    assert!(!diff.is_identical);
}

#[test]
fn cpu_identity_is_compared_exactly() {
    let base = baseline();
    let mut live = base.clone();
    live.cpu_info = cpu("12th Gen Intel Core i7-12700H", "4");
    let diff = base.compare(&live);
    assert!(!diff.is_identical);
    match diff.cpu_info {
        DiffStatus::Modified { expected, actual } => {
            assert_eq!(expected.stepping, "3");
            assert_eq!(actual.stepping, "4");
        }
        DiffStatus::Unchanged => panic!("stepping change not detected"),
    }
}

#[test]
fn added_and_missing_components_are_isolated() {
    let base = baseline();
    let mut live = base.clone();
    live.ram_serials = strings(&[
        "Samsung M471 ChannelA-DIMM0 (S/N: 1111)",
        "Kingston KF3 ChannelB-DIMM0 (S/N: 2222)",
    ]);
    live.drive_serials = strings(&["WD Blue (S/N: W2)"]);
    let diff = base.compare(&live);
    assert!(!diff.is_identical);
    assert_eq!(diff.ram.added, strings(&["Kingston KF3 ChannelB-DIMM0 (S/N: 2222)"]));
    assert!(diff.ram.missing.is_empty());
    assert_eq!(diff.drives.missing, strings(&["Samsung SSD 980 (S/N: S1)"]));
    assert_eq!(diff.drives.unchanged, strings(&["WD Blue (S/N: W2)"]));
    assert!(diff.drives.added.is_empty());
    assert!(diff.gpus.is_identical());
}

#[test]
fn collections_compare_as_sets() {
    let diff = HardwareManifest::compare_collections(
        &strings(&["a", "b", "a", "c"]),
        &strings(&["c", "b", "b", "d", "d"]),
    );
    assert_eq!(
        diff,
        CollectionDiff {
            unchanged: strings(&["b", "c"]),
            added: strings(&["d"]),
            missing: strings(&["a"]),
        }
    );
    assert!(!diff.is_identical());
}

#[test]
fn reordering_and_repeats_do_not_matter() {
    let diff = HardwareManifest::compare_collections(
        &strings(&["x", "y", "z"]),
        &strings(&["z", "z", "x", "y"]),
    );
    assert!(diff.is_identical());
    assert_eq!(diff.unchanged, strings(&["x", "y", "z"]));
}

#[test]
fn empty_collections_are_identical() {
    let diff = HardwareManifest::compare_collections(&[], &[]);
    assert!(diff.is_identical());
    assert!(diff.unchanged.is_empty());
}

#[test]
fn reverse_diff_swaps_added_and_missing() {
    let a = strings(&["a", "b", "c"]);
    let b = strings(&["b", "d"]);
    let forward = HardwareManifest::compare_collections(&a, &b);
    let backward = HardwareManifest::compare_collections(&b, &a);
    assert_eq!(forward.added, backward.missing);
    assert_eq!(forward.missing, backward.added);
    assert_eq!(forward.unchanged, backward.unchanged);
}

#[test]
fn verification_verdict_is_symmetric() {
    let base = baseline();
    let mut live = base.clone();
    live.cpu_timing_signature = [90, 75, 33, 474, 552, 1249];
    live.gpu_uuids = strings(&[]);
    assert_eq!(base.compare(&live).is_identical, live.compare(&base).is_identical);
    let mut near = base.clone();
    near.cpu_timing_signature = [87, 76, 33, 474, 552, 1249];
    assert!(base.compare(&near).is_identical);
    assert!(near.compare(&base).is_identical);
}

#[test]
fn signature_tolerance_checks_every_bucket() {
    assert!(signatures_within_tolerance(&[0, 0, 0, 0, 0, 0], &[1, 1, 1, 1, 1, 1]));
    assert!(!signatures_within_tolerance(&[0, 0, 0, 0, 0, 0], &[0, 0, 0, 0, 0, 2]));
    assert!(!signatures_within_tolerance(&[5, 0, 0, 0, 0, 0], &[3, 0, 0, 0, 0, 0]));
    assert!(signatures_within_tolerance(&[u64::MAX; 6], &[u64::MAX - 1; 6]));
}
