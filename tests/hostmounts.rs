use isolation_probes::hostmounts::{mount_rows, runtime_socket_paths, HostMountsResult, HostMountsTest};
use isolation_probes::probe::{Test, TestCategory, TestResult};

fn evaluate(table: &str, existing: &[&str], live: &[&str]) -> HostMountsResult {
    let existing: Vec<String> = existing.iter().map(|s| s.to_string()).collect();
    let live: Vec<String> = live.iter().map(|s| s.to_string()).collect();
    HostMountsTest {}.evaluate(table, &existing, &live)
}

fn is_strictly_sorted(v: &[String]) -> bool {
    v.windows(2).all(|w| w[0] < w[1])
}

#[test]
fn root_tmpfs_is_a_dangerous_mount() {
    let r = evaluate("tmpfs / tmpfs rw,relatime 0 0\n", &[], &[]);
    assert!(r.dangerous_mounts.contains(&"tmpfs -> /".to_string()));
    assert!(!r.success());
    assert_eq!(r.as_string(), "yes");
}

#[test]
fn disk_under_host_is_host_root_and_writable() {
    let r = evaluate("/dev/sda1 /host/root ext4 rw 0 0\n", &[], &[]);
    assert_eq!(r.host_root_mounts, vec!["/dev/sda1 -> /host/root (ext4)".to_string()]);
    assert_eq!(r.writable_host_mounts, vec!["/dev/sda1 -> /host/root (writable)".to_string()]);
    assert!(r.dangerous_mounts.is_empty());
    assert!(r.socket_mounts.is_empty());
    assert!(!r.success());
}

#[test]
fn missing_mount_table_gives_no_evidence() {
    let r = evaluate("", &[], &[]);
    assert!(r.dangerous_mounts.is_empty());
    assert!(r.writable_host_mounts.is_empty());
    assert!(r.socket_mounts.is_empty());
    assert!(r.host_root_mounts.is_empty());
    assert!(r.success());
    assert_eq!(r.as_string(), "no");
    assert_eq!(r.explain(), "container filesystem isolation is secure");
}

#[test]
fn evidence_is_sorted_and_deduplicated() {
    let table = "proc /proc proc rw 0 0\n\
                 sysfs /sys sysfs rw 0 0\n\
                 proc /proc proc rw 0 0\n\
                 cgroup /etc cgroup rw 0 0\n";
    let r = evaluate(table, &[], &[]);
    assert_eq!(
        r.dangerous_mounts,
        vec!["cgroup -> /etc".to_string(), "proc -> /proc".to_string(), "sysfs -> /sys".to_string()]
    );
    assert!(is_strictly_sorted(&r.dangerous_mounts));
}

#[test]
fn short_lines_are_skipped() {
    let r = evaluate("tmpfs / tmpfs\n\n   \nnone\n", &[], &[]);
    assert!(r.success());
}

#[test]
fn fields_split_on_any_whitespace() {
    let r = evaluate("  tmpfs\t/\ttmpfs   rw \r\n", &[], &[]);
    assert_eq!(r.dangerous_mounts, vec!["tmpfs -> /".to_string()]);
}

#[test]
fn read_only_option_is_an_exact_item() {
    let r = evaluate("/dev/sdb1 /mnt/data xfs ro,relatime 0 0\n", &[], &[]);
    assert!(r.writable_host_mounts.is_empty());
    let r = evaluate("/dev/sdb1 /mnt/data xfs rw,errors=remount-ro 0 0\n", &[], &[]);
    assert_eq!(r.writable_host_mounts, vec!["/dev/sdb1 -> /mnt/data (writable)".to_string()]);
    let r = evaluate("/dev/sdb1 /media/usb xfs rw,noatime,ro 0 0\n", &[], &[]);
    assert!(r.writable_host_mounts.is_empty());
}

#[test]
fn existing_source_path_is_a_writable_host_mount() {
    let table = "/srv/data /data ext4 rw 0 0\n/srv/gone /gone ext4 rw 0 0\n";
    let r = evaluate(table, &["/srv/data"], &[]);
    assert_eq!(r.writable_host_mounts, vec!["/srv/data -> /data (writable)".to_string()]);
    let r = evaluate("/dev/sdc /data ext4 rw 0 0\n", &["/dev/sdc"], &[]);
    assert!(r.writable_host_mounts.is_empty());
}

#[test]
fn host_root_needs_a_disk_filesystem() {
    let r = evaluate("/dev/sda1 / overlay rw 0 0\n", &[], &[]);
    assert!(r.host_root_mounts.is_empty());
    let r = evaluate("/dev/sda1 / btrfs rw 0 0\n", &[], &[]);
    assert_eq!(r.host_root_mounts, vec!["/dev/sda1 -> / (btrfs)".to_string()]);
    assert_eq!(r.dangerous_mounts, vec!["/dev/sda1 -> /".to_string()]);
}

#[test]
fn runtime_socket_in_mount_table() {
    let r = evaluate("tmpfs /var/run/docker.sock tmpfs rw 0 0\n", &[], &[]);
    assert_eq!(r.socket_mounts, vec!["tmpfs -> /var/run/docker.sock".to_string()]);
    let r = evaluate("/var/lib/kubelet/pods /pods ext4 ro 0 0\n", &[], &[]);
    assert_eq!(r.socket_mounts, vec!["/var/lib/kubelet/pods -> /pods".to_string()]);
}

#[test]
fn live_runtime_sockets_are_reported() {
    let r = evaluate("", &[], &["/run/docker.sock", "/tmp/other.sock"]);
    assert_eq!(r.socket_mounts, vec!["socket access: /run/docker.sock".to_string()]);
    assert!(!r.success());
    assert_eq!(runtime_socket_paths().len(), 5);
}

#[test]
fn mount_explanation_lists_non_empty_classes() {
    let table = "tmpfs / tmpfs rw 0 0\n\
                 a /host/a x rw 0 0\nb /host/b x rw 0 0\nc /host/c x rw 0 0\nd /host/d x rw 0 0\n";
    let r = evaluate(table, &[], &[]);
    assert_eq!(
        r.explain(),
        "container has dangerous host access: dangerous system paths mounted: tmpfs -> /; \
         writable host directories mounted: a -> /host/a (writable), b -> /host/b (writable), \
         c -> /host/c (writable)"
    );
}

#[test]
fn mount_fault_code_is_fixed() {
    assert_eq!(evaluate("", &[], &[]).fault_code(), "AII3200");
    assert_eq!(evaluate("tmpfs / tmpfs rw 0 0", &[], &[]).fault_code(), "AII3200");
}

#[test]
fn mount_probe_identity() {
    let t = HostMountsTest {};
    assert_eq!(t.name(), "host filesystem mounts");
    assert_eq!(t.category(), TestCategory::High);
}

#[test]
fn rows_of_a_table() {
    let rows = mount_rows("a b\n\nc  d e\nf");
    assert_eq!(
        rows,
        vec![
            vec!["a".to_string(), "b".to_string()],
            vec![],
            vec!["c".to_string(), "d".to_string(), "e".to_string()],
            vec!["f".to_string()],
        ]
    );
}
