use isolation_probes::device_access::{
    memory_device_paths, DeviceAccessResult, DeviceAccessTest, DeviceEntry, NodeKind,
};
use isolation_probes::probe::{Test, TestCategory, TestResult};

fn entry(name: &str, kind: NodeKind) -> DeviceEntry {
    DeviceEntry { name: name.to_string(), path: format!("/dev/{}", name), kind }
}

fn strings(v: &[&str]) -> Vec<String> {
    v.iter().map(|s| s.to_string()).collect()
}

fn evaluate(present: &[&str], entries: Vec<DeviceEntry>, dri: &[&str]) -> DeviceAccessResult {
    DeviceAccessTest {}.evaluate(&strings(present), &entries, &strings(dri))
}

#[test]
fn storage_block_device_fails() {
    let r = evaluate(&[], vec![entry("sda", NodeKind::Block)], &[]);
    assert_eq!(r.block_devices, strings(&["/dev/sda"]));
    assert!(!r.success());
}

#[test]
fn three_character_devices_are_tolerated() {
    let entries = vec![
        entry("tty1", NodeKind::Character),
        entry("tty2", NodeKind::Character),
        entry("console", NodeKind::Character),
    ];
    let r = evaluate(&[], entries, &[]);
    assert_eq!(r.character_devices.len(), 3);
    assert!(r.success());
    assert_eq!(r.as_string(), "no");
    assert_eq!(
        r.explain(),
        "container has tolerated device access: access to 3 character devices including: \
         /dev/console, /dev/tty1, /dev/tty2"
    );
}

#[test]
fn four_character_devices_fail() {
    let entries = vec![
        entry("tty1", NodeKind::Character),
        entry("tty2", NodeKind::Character),
        entry("tty3", NodeKind::Character),
        entry("tty4", NodeKind::Character),
    ];
    let r = evaluate(&[], entries, &[]);
    assert!(!r.success());
    assert_eq!(r.as_string(), "yes");
    assert_eq!(
        r.explain(),
        "container has dangerous device access: access to 4 character devices including: \
         /dev/tty1, /dev/tty2, /dev/tty3"
    );
}

#[test]
fn nothing_found_passes() {
    let r = evaluate(&[], vec![], &[]);
    assert_eq!(r.explain(), "container has minimal device access - good isolation");
    assert!(r.dangerous_devices.is_empty());
    assert!(r.block_devices.is_empty());
    assert!(r.hardware_rngs.is_empty());
    assert!(r.gpu_devices.is_empty());
    assert!(r.character_devices.is_empty());
    assert!(r.success());
}

#[test]
fn memory_devices_count_by_existence() {
    let r = evaluate(&["/dev/port", "/dev/mem", "/dev/other"], vec![], &[]);
    assert_eq!(r.dangerous_devices, strings(&["/dev/mem", "/dev/port"]));
    assert!(!r.success());
    assert_eq!(
        r.explain(),
        "container has dangerous device access: access to dangerous memory devices: /dev/mem, /dev/port"
    );
    assert_eq!(memory_device_paths(), vec!["/dev/mem", "/dev/kmem", "/dev/port"]);
}

#[test]
fn block_devices_need_a_storage_prefix_and_block_type() {
    let entries = vec![
        entry("loop0", NodeKind::Block),
        entry("sda", NodeKind::Character),
        entry("nvme0n1", NodeKind::Block),
        entry("xvda", NodeKind::Block),
    ];
    let r = evaluate(&[], entries, &[]);
    assert_eq!(r.block_devices, strings(&["/dev/nvme0n1", "/dev/xvda"]));
}

#[test]
fn random_devices_do_not_fail() {
    let entries = vec![
        entry("urandom", NodeKind::Character),
        entry("random", NodeKind::Character),
        entry("hwrng", NodeKind::Character),
        entry("randomx", NodeKind::Character),
    ];
    let r = evaluate(&[], entries, &[]);
    assert_eq!(r.hardware_rngs, strings(&["/dev/hwrng", "/dev/random", "/dev/urandom"]));
    assert!(r.success());
    assert_eq!(
        r.explain(),
        "container has tolerated device access: access to random number generators: \
         /dev/hwrng, /dev/random, /dev/urandom"
    );
}

#[test]
fn every_non_empty_device_class_has_a_section() {
    let entries = vec![entry("sda", NodeKind::Block), entry("tty1", NodeKind::Character)];
    let r = evaluate(&[], entries, &[]);
    assert!(!r.success());
    assert_eq!(
        r.explain(),
        "container has dangerous device access: access to 1 block devices: /dev/sda; \
         access to 1 character devices including: /dev/tty1"
    );
    assert_eq!(r.explain().matches("; ").count(), 1);
}

#[test]
fn gpu_devices_are_deduplicated() {
    let entries = vec![entry("nvidia0", NodeKind::Character), entry("nvidiactl", NodeKind::Character)];
    let r = evaluate(&[], entries, &["/dev/dri/card0", "/dev/dri/renderD128", "/dev/dri/card0"]);
    assert_eq!(
        r.gpu_devices,
        strings(&["/dev/dri/card0", "/dev/dri/renderD128", "/dev/nvidia0", "/dev/nvidiactl"])
    );
    assert!(!r.success());
}

#[test]
fn block_explanation_counts_and_lists_three() {
    let names = ["sda", "sdb", "sdc", "sdd", "sde", "sdf", "sdg", "sdh", "sdi", "sdj", "sdk", "sdl"];
    let entries = names.iter().map(|n| entry(n, NodeKind::Block)).collect();
    let r = evaluate(&[], entries, &[]);
    assert_eq!(
        r.explain(),
        "container has dangerous device access: access to 12 block devices: /dev/sda, /dev/sdb, /dev/sdc"
    );
}

#[test]
fn device_explanation_joins_sections() {
    let entries = vec![entry("sda", NodeKind::Block), entry("nvidia0", NodeKind::Character)];
    let r = evaluate(&["/dev/kmem"], entries, &[]);
    assert_eq!(
        r.explain(),
        "container has dangerous device access: access to dangerous memory devices: /dev/kmem; \
         access to 1 block devices: /dev/sda; access to GPU/graphics devices: /dev/nvidia0"
    );
}

#[test]
fn device_fault_code_is_fixed() {
    assert_eq!(evaluate(&[], vec![], &[]).fault_code(), "AII3100");
    assert_eq!(evaluate(&["/dev/mem"], vec![], &[]).fault_code(), "AII3100");
}

#[test]
fn device_probe_identity() {
    let t = DeviceAccessTest {};
    assert_eq!(t.name(), "device node access");
    assert_eq!(t.category(), TestCategory::High);
}
