use std::hash::{DefaultHasher, Hash, Hasher};

use sentinel::identity::{collect_hardware_manifest, format_machine_id, sort_texts};
use sentinel::sys_info::linux::CpuInfo;

fn info() -> CpuInfo {
    CpuInfo {
        model_name: "Test CPU".to_string(),
        cpu_family: "6".to_string(),
        model: "1".to_string(),
        stepping: "0".to_string(),
        microcode: "0x1".to_string(),
        cache_size: "1 KB".to_string(),
        cpuid_level: "1".to_string(),
    }
}

fn strings(items: &[&str]) -> Vec<String> {
    items.iter().map(|s| s.to_string()).collect()
}

#[test]
fn machine_id_is_sixteen_uppercase_hex_digits() {
    assert_eq!(format_machine_id(0x1234), "HW-0000000000001234");
    assert_eq!(format_machine_id(0xDEADBEEFCAFEBABE), "HW-DEADBEEFCAFEBABE");
    assert_eq!(format_machine_id(0), "HW-0000000000000000");
    assert_eq!(format_machine_id(u64::MAX), "HW-FFFFFFFFFFFFFFFF");
}

#[test]
fn texts_sort_by_code_point() {
    let texts = vec![
        "wlan0".chars().collect::<Vec<char>>(),
        "eth1".chars().collect(),
        "eth0".chars().collect(),
        "Eth9".chars().collect(),
        "eth".chars().collect(),
        "\u{e9}".chars().collect(),
    ];
    let sorted: Vec<String> = sort_texts(texts).into_iter().map(|v| v.into_iter().collect()).collect();
    assert_eq!(sorted, strings(&["Eth9", "eth", "eth0", "eth1", "wlan0", "\u{e9}"]));
}

#[test]
fn manifest_lists_macs_in_sorted_order() {
    let m = collect_hardware_manifest(
        Some("MB1".to_string()),
        [1, 2, 3, 4, 5, 6],
        info(),
        strings(&["r"]),
        strings(&["d"]),
        strings(&["g"]),
        strings(&["wlan0 [11:22:33:44:55:66]", "eth0 [AA:BB:CC:DD:EE:FF]"]),
    );
    assert_eq!(m.mac_addresses, strings(&["eth0 [AA:BB:CC:DD:EE:FF]", "wlan0 [11:22:33:44:55:66]"]));
    assert_eq!(m.motherboard_serial, Some("MB1".to_string()));
    assert_eq!(m.cpu_timing_signature, [1, 2, 3, 4, 5, 6]);
    assert_eq!(m.cpu_info, info());
    assert_eq!(m.ram_serials, strings(&["r"]));
    assert_eq!(m.machine_id.len(), 19);
    assert!(m.machine_id.starts_with("HW-"));
    assert!(m.machine_id[3..].chars().all(|c| c.is_ascii_digit() || ('A'..='F').contains(&c)));
}

#[test]
fn machine_id_ignores_interface_enumeration_order() {
    let a = collect_hardware_manifest(
        None,
        [9, 9, 9, 9, 9, 9],
        info(),
        vec![],
        vec![],
        vec![],
        strings(&["b [2]", "a [1]", "c [3]"]),
    );
    let b = collect_hardware_manifest(
        None,
        [9, 9, 9, 9, 9, 9],
        info(),
        vec![],
        vec![],
        vec![],
        strings(&["c [3]", "a [1]", "b [2]"]),
    );
    assert_eq!(a.mac_addresses, b.mac_addresses);
    assert_eq!(a.machine_id, b.machine_id);
}

#[test]
fn machine_id_depends_on_the_immutable_hardware() {
    let base = collect_hardware_manifest(None, [1; 6], info(), vec![], vec![], vec![], strings(&["a"]));
    let other_sig = collect_hardware_manifest(None, [2; 6], info(), vec![], vec![], vec![], strings(&["a"]));
    let other_mac = collect_hardware_manifest(None, [1; 6], info(), vec![], vec![], vec![], strings(&["b"]));
    let with_serial = collect_hardware_manifest(Some("S".to_string()), [1; 6], info(), vec![], vec![], vec![], strings(&["a"]));
    assert_ne!(base.machine_id, other_sig.machine_id);
    assert_ne!(base.machine_id, other_mac.machine_id);
    assert_ne!(base.machine_id, with_serial.machine_id);
}

#[test]
fn machine_id_is_the_std_hash_of_the_identifiers_on_this_machine() {
    let sig = [88u64, 75, 33, 474, 552, 1249];
    let m = collect_hardware_manifest(
        Some("MB1".to_string()),
        sig,
        info(),
        vec![],
        vec![],
        vec![],
        strings(&["wlan0 [1]", "eth0 [2]"]),
    );
    // `Hash for [u64; 6]` writes native-endian bytes of a native-size length.
    if usize::BITS == 64 && u16::from_ne_bytes([1, 0]) == 1 {
        let mut h = DefaultHasher::new();
        "MB1".to_string().hash(&mut h);
        sig.hash(&mut h);
        "eth0 [2]".to_string().hash(&mut h);
        "wlan0 [1]".to_string().hash(&mut h);
        assert_eq!(m.machine_id, format!("HW-{:016X}", h.finish()));
    }
}
