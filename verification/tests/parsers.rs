use sentinel::sys_info::linux::{
    drive_serials_from_devices, get_cpu_info, get_drive_serials, get_gpu_uuids,
    get_mac_addresses, get_motherboard_serial, get_ram_serials, parse_lspci_gpus,
    parse_ram_serials, read_sysfs_hex, sysfs_and_nvidia_gpu_ids, BlockDevice, DrmCard,
    NetInterface,
};

#[test]
fn board_serial_is_trimmed() {
    assert_eq!(get_motherboard_serial(Some("  PF2ABC12 \n")), Some("PF2ABC12".to_string()));
}

#[test]
fn board_serial_placeholders_are_absent() {
    assert_eq!(get_motherboard_serial(Some("Default string\n")), None);
    assert_eq!(get_motherboard_serial(Some(" \n\t")), None);
    assert_eq!(get_motherboard_serial(None), None);
    assert_eq!(
        get_motherboard_serial(Some("Default string 2")),
        Some("Default string 2".to_string())
    );
}

#[test]
fn board_serial_trims_unicode_whitespace() {
    assert_eq!(get_motherboard_serial(Some("\u{a0}\u{3000}XY\u{2028}")), Some("XY".to_string()));
}

#[test]
fn sysfs_values_are_trimmed_or_absent() {
    assert_eq!(read_sysfs_hex(&Some("0x10de\n".to_string())), Some("0x10de".to_string()));
    assert_eq!(read_sysfs_hex(&Some("\n".to_string())), None);
    assert_eq!(read_sysfs_hex(&None), None);
}

#[test]
fn lsblk_json_gives_model_and_serial() {
    let json = br#"{"blockdevices": [
        {"model": "Samsung SSD 980 ", "serial": " S1ABC "},
        {"model": null, "serial": "X9"},
        {"model": "Loop", "serial": null},
        {"model": "CD", "serial": ""},
        {"serial": "Z1"}
    ]}"#;
    assert_eq!(
        get_drive_serials(json),
        vec![
            "Samsung SSD 980 (S/N: S1ABC)".to_string(),
            "Unknown Drive (S/N: X9)".to_string(),
            "Unknown Drive (S/N: Z1)".to_string(),
        ]
    );
}

#[test]
fn unreadable_lsblk_output_gives_no_drives() {
    assert!(get_drive_serials(b"not json").is_empty());
    assert!(get_drive_serials(b"").is_empty());
    assert!(get_drive_serials(br#"{"devices": []}"#).is_empty());
    assert!(get_drive_serials(br#"{"blockdevices": 3}"#).is_empty());
}

#[test]
fn block_devices_without_serial_are_skipped() {
    let devices = vec![
        BlockDevice { model: Some("A".to_string()), serial: Some("  ".to_string()) },
        BlockDevice { model: Some(" B ".to_string()), serial: Some("S".to_string()) },
    ];
    assert_eq!(drive_serials_from_devices(&devices), vec!["B (S/N: S)".to_string()]);
}

fn iface(name: &str, has_device: bool, address: Option<&str>) -> NetInterface {
    NetInterface {
        name: name.to_string(),
        has_device,
        address: address.map(|a| a.to_string()),
    }
}

#[test]
fn only_physical_interfaces_with_real_addresses_are_kept() {
    let ifaces = vec![
        iface("eth0", true, Some("aa:bb:cc:dd:ee:0f\n")),
        iface("lo", false, Some("00:00:00:00:00:00\n")),
        iface("docker0", false, Some("02:42:ac:11:00:02\n")),
        iface("wlan0", true, Some("00:00:00:00:00:00\n")),
        iface("enp3s0", true, None),
        iface("usb0", true, Some("\n")),
        iface("wlp2s0", true, Some("3c:a9:f4:12:34:56")),
    ];
    assert_eq!(
        get_mac_addresses(&ifaces),
        vec!["eth0 [AA:BB:CC:DD:EE:0F]".to_string(), "wlp2s0 [3C:A9:F4:12:34:56]".to_string()]
    );
}

const DMIDECODE: &str = "# dmidecode 3.3
Getting SMBIOS data from sysfs.

Handle 0x0040, DMI type 17, 92 bytes
Memory Device
\tSize: 16 GB
\tLocator: ChannelA-DIMM0
\tBank Locator: BANK 0
\tManufacturer: Samsung
\tSerial Number: 12345678
\tPart Number: M471A2K43DB1-CWE
\tRank: 2

Handle 0x0041, DMI type 17, 92 bytes
Memory Device
\tSize: No Module Installed
\tLocator: ChannelA-DIMM1
\tManufacturer: Not Specified
\tSerial Number: Not Specified

Handle 0x0042, DMI type 17, 92 bytes
Memory Device
\tLocator: ChannelB-DIMM0
\tManufacturer: Kingston
\tPart Number: KF3200C16D4/8GX
\tSerial Number: 9ABCDEF0
";

#[test]
fn dmidecode_modules_are_listed() {
    assert_eq!(
        parse_ram_serials(DMIDECODE),
        vec![
            "Samsung  ChannelA-DIMM0 (S/N: 12345678)".to_string(),
            "Kingston KF3200C16D4/8GX ChannelB-DIMM0 (S/N: 9ABCDEF0)".to_string(),
        ]
    );
    assert_eq!(get_ram_serials(DMIDECODE.as_bytes()), parse_ram_serials(DMIDECODE));
}

#[test]
fn dmidecode_fields_reset_after_each_serial() {
    let report = "Manufacturer: Micron\nSerial Number: 1\nSerial Number: 2\r\n";
    assert_eq!(
        parse_ram_serials(report),
        vec![
            "Micron  Unknown (S/N: 1)".to_string(),
            "Unknown  Unknown (S/N: 2)".to_string(),
        ]
    );
}

#[test]
fn dmidecode_filler_serials_are_skipped() {
    let report = "Serial Number: Unknown\nSerial Number:\nSerial Number:    \n";
    assert!(parse_ram_serials(report).is_empty());
    assert!(get_ram_serials(b"").is_empty());
}

#[test]
fn dmidecode_key_is_removed_wherever_it_occurs() {
    let report = "Locator: Locator:X\nSerial Number: 7\n";
    assert_eq!(parse_ram_serials(report), vec!["Unknown  X (S/N: 7)".to_string()]);
}

#[test]
fn invalid_utf8_is_replaced() {
    let bytes = b"Serial Number: AB\xffCD\n";
    assert_eq!(get_ram_serials(bytes), vec!["Unknown  Unknown (S/N: AB\u{fffd}CD)".to_string()]);
}

fn card(name: &str, ids: Option<(&str, &str)>, sub: Option<(&str, &str)>) -> DrmCard {
    DrmCard {
        name: name.to_string(),
        has_device: ids.is_some(),
        vendor: ids.map(|i| i.0.to_string()),
        device: ids.map(|i| i.1.to_string()),
        subsystem_vendor: sub.map(|s| s.0.to_string()),
        subsystem_device: sub.map(|s| s.1.to_string()),
    }
}

#[test]
fn drm_cards_give_pci_identifiers() {
    let cards = vec![
        card("card0", Some(("0x10de\n", "0x2204\n")), Some(("0x1458\n", "0x4037\n"))),
        card("card0-DP-1", Some(("0x10de\n", "0x2204\n")), None),
        card("renderD128", Some(("0x8086\n", "0x9a49\n")), None),
        card("card1", Some(("0x8086\n", "0x9a49\n")), Some(("0x1028\n", ""))),
        card("card2", None, None),
        card("card3", Some(("", "0x0001\n")), None),
    ];
    assert_eq!(
        sysfs_and_nvidia_gpu_ids(&cards, None),
        vec!["PCI-0x10de-0x2204-0x1458-0x4037".to_string(), "PCI-0x8086-0x9a49".to_string()]
    );
}

#[test]
fn nvidia_descriptions_are_added_without_overlaps() {
    let cards = vec![card("card0", Some(("0x10de", "0x2204")), None)];
    let listing = b"GPU 0: NVIDIA GeForce RTX 3080 (UUID: GPU-abcd)\n\n  GPU 0: NVIDIA GeForce RTX 3080 (UUID: GPU-abcd)  \nPCI-0x10de\nGPU 1: Tesla (UUID: GPU-ef01)\n";
    assert_eq!(
        sysfs_and_nvidia_gpu_ids(&cards, Some(listing)),
        vec![
            "PCI-0x10de-0x2204".to_string(),
            "GPU 0: NVIDIA GeForce RTX 3080 (UUID: GPU-abcd)".to_string(),
            "GPU 1: Tesla (UUID: GPU-ef01)".to_string(),
        ]
    );
}

#[test]
fn lspci_is_the_fallback_only_when_nothing_was_found() {
    let lspci = b"00:02.0 VGA compatible controller [0300]: Intel Corporation\n01:00.0 3D controller [0302]: NVIDIA\n00:1f.3 Audio device [0403]: Intel\n";
    assert_eq!(
        get_gpu_uuids(Vec::new(), Some(lspci)),
        vec!["LSPCI-00:02.0".to_string(), "LSPCI-01:00.0".to_string()]
    );
    let found = vec!["PCI-0x8086-0x9a49".to_string()];
    assert_eq!(get_gpu_uuids(found.clone(), Some(lspci)), found);
    assert!(get_gpu_uuids(Vec::new(), None).is_empty());
}

#[test]
fn lspci_slot_is_the_first_token() {
    assert_eq!(
        parse_lspci_gpus("   0000:03:00.0\tVGA x\nVGA\n"),
        vec!["LSPCI-0000:03:00.0".to_string(), "LSPCI-VGA".to_string()]
    );
}

const CPUINFO: &str = "processor\t: 0
vendor_id\t: GenuineIntel
cpu family\t: 6
model\t\t: 154
model name\t: 12th Gen Intel(R) Core(TM) i7-12700H
stepping\t: 3
microcode\t: 0x43b
cache size\t: 24576 KB
cpuid level\t: 32
flags\t\t: fpu vme de pse

processor\t: 1
model name\t: Another CPU
stepping\t: 9
";

#[test]
fn cpuinfo_first_block_is_parsed() {
    let info = get_cpu_info(Some(CPUINFO));
    assert_eq!(info.model_name, "12th Gen Intel(R) Core(TM) i7-12700H");
    assert_eq!(info.cpu_family, "6");
    assert_eq!(info.model, "154");
    assert_eq!(info.stepping, "3");
    assert_eq!(info.microcode, "0x43b");
    assert_eq!(info.cache_size, "24576 KB");
    assert_eq!(info.cpuid_level, "32");
}

#[test]
fn unreadable_cpuinfo_gives_empty_fields() {
    let info = get_cpu_info(None);
    assert_eq!(info.model_name, "");
    assert_eq!(info.cpuid_level, "");
    let partial = get_cpu_info(Some("model name: X: Y\nbogus line\nmodel name : Z\n"));
    assert_eq!(partial.model_name, "Z");
    assert_eq!(partial.stepping, "");
    let split = get_cpu_info(Some("model name: X: Y"));
    assert_eq!(split.model_name, "X: Y");
}
