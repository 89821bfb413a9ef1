use sentinel::manifest::{CollectionDiff, HardwareManifest};
use sentinel::report::{
    collection_report, diff_report, format_signature, manifest_summary, Mark, Tone,
};
use sentinel::sys_info::linux::CpuInfo;

fn strings(items: &[&str]) -> Vec<String> {
    items.iter().map(|s| s.to_string()).collect()
}

fn info(stepping: &str) -> CpuInfo {
    CpuInfo {
        model_name: "Test CPU".to_string(),
        cpu_family: "6".to_string(),
        model: "154".to_string(),
        stepping: stepping.to_string(),
        microcode: "0x43b".to_string(),
        cache_size: "24576 KB".to_string(),
        cpuid_level: "32".to_string(),
    }
}

fn manifest() -> HardwareManifest {
    HardwareManifest {
        machine_id: "HW-0000000000000000".to_string(),
        motherboard_serial: Some("MB-1".to_string()),
        cpu_timing_signature: [88, 75, 33, 474, 552, 1249],
        cpu_info: info("3"),
        ram_serials: strings(&["r0", "r1"]),
        drive_serials: vec![],
        gpu_uuids: strings(&["g0"]),
        mac_addresses: vec![],
    }
}

fn lines(v: &[sentinel::report::DiffLine]) -> Vec<(Mark, String)> {
    v.iter().map(|l| (l.mark, l.text.clone())).collect()
}

#[test]
fn unchanged_collection_is_one_ok_line() {
    let c = CollectionDiff { unchanged: strings(&["a"]), added: vec![], missing: vec![] };
    assert_eq!(lines(&collection_report("GPU UUIDs", &c)), vec![(Mark::Pass, "GPU UUIDs".to_string())]);
}

#[test]
fn changed_collection_lists_missing_then_added() {
    let c = CollectionDiff {
        unchanged: strings(&["a"]),
        added: strings(&["x", "y"]),
        missing: strings(&["m"]),
    };
    assert_eq!(
        lines(&collection_report("RAM Serials", &c)),
        vec![
            (Mark::Changed, "RAM Serials".to_string()),
            (Mark::Removed, "m".to_string()),
            (Mark::Added, "x".to_string()),
            (Mark::Added, "y".to_string()),
        ]
    );
}

#[test]
fn diff_report_covers_every_component() {
    let base = manifest();
    let mut live = manifest();
    live.motherboard_serial = None;
    live.cpu_timing_signature = [88, 75, 33, 474, 552, 1260];
    live.cpu_info = info("4");
    live.gpu_uuids = vec![];
    let report = lines(&diff_report(&base.compare(&live)));
    assert_eq!(
        report,
        vec![
            (Mark::Changed, "Motherboard Serial".to_string()),
            (Mark::Expected, "Some(\"MB-1\")".to_string()),
            (Mark::Actual, "None".to_string()),
            (Mark::Changed, "CPU Timing Signature".to_string()),
            (Mark::Expected, "[88, 75, 33, 474, 552, 1249]".to_string()),
            (Mark::Actual, "[88, 75, 33, 474, 552, 1260]".to_string()),
            (Mark::Changed, "CPU Identity".to_string()),
            (Mark::Expected, "Test CPU (family 6, model 154, stepping 3, microcode 0x43b, cache 24576 KB, cpuid level 32)".to_string()),
            (Mark::Actual, "Test CPU (family 6, model 154, stepping 4, microcode 0x43b, cache 24576 KB, cpuid level 32)".to_string()),
            (Mark::Pass, "RAM Serials".to_string()),
            (Mark::Pass, "Storage Drives".to_string()),
            (Mark::Changed, "GPU UUIDs".to_string()),
            (Mark::Removed, "g0".to_string()),
            (Mark::Pass, "MAC Addresses".to_string()),
        ]
    );
}

#[test]
fn identical_diff_report_is_all_ok() {
    let m = manifest();
    let report = diff_report(&m.compare(&m));
    assert_eq!(report.len(), 7);
    assert!(report.iter().all(|l| l.mark == Mark::Pass));
}

#[test]
fn signature_is_printed_in_decimal() {
    assert_eq!(format_signature(&[0, 7, 10, 99, 100, 18446744073709551615]), "[0, 7, 10, 99, 100, 18446744073709551615]");
}

#[test]
fn summary_numbers_each_identifier() {
    let summary: Vec<(String, String, Tone)> = manifest_summary(&manifest())
        .into_iter()
        .map(|l| (l.label, l.value, l.tone))
        .collect();
    assert_eq!(
        summary,
        vec![
            ("Motherboard Serial".to_string(), "MB-1".to_string(), Tone::Value),
            ("CPU Signature".to_string(), "[88, 75, 33, 474, 552, 1249]".to_string(), Tone::Value),
            ("CPU Identity".to_string(), "Test CPU (family 6, model 154, stepping 3, microcode 0x43b, cache 24576 KB, cpuid level 32)".to_string(), Tone::Value),
            ("RAM Serial [0]".to_string(), "r0".to_string(), Tone::Value),
            ("RAM Serial [1]".to_string(), "r1".to_string(), Tone::Value),
            ("Drive Serials".to_string(), "None found".to_string(), Tone::Warning),
            ("GPU UUID [0]".to_string(), "g0".to_string(), Tone::Value),
            ("MAC Addresses".to_string(), "None found".to_string(), Tone::Warning),
        ]
    );
}

#[test]
fn missing_motherboard_serial_is_a_warning() {
    let mut m = manifest();
    m.motherboard_serial = None;
    let first = &manifest_summary(&m)[0];
    assert_eq!(first.value, "Not available");
    assert_eq!(first.tone, Tone::Warning);
}

#[test]
fn modified_serial_is_shown_as_its_debug_text() {
    let mut base = manifest();
    base.motherboard_serial = Some("a\"b\\c".to_string());
    let mut live = manifest();
    live.motherboard_serial = Some("x\u{1b}y\u{e9}\n".to_string());
    let report = lines(&diff_report(&base.compare(&live)));
    assert_eq!(report[1], (Mark::Expected, "Some(\"a\\\"b\\\\c\")".to_string()));
    assert_eq!(report[1].1, format!("{:?}", base.motherboard_serial));
    assert_eq!(report[2], (Mark::Actual, format!("{:?}", live.motherboard_serial)));
}
