use vstd::prelude::*;
use vstd::string::StrSliceExecFns;
use vstd::string::StringExecFns;

use crate::probe::{verdict_string, Test, TestCategory, TestResult};
use crate::text::{
    all_collected, chars_of, lemma_infix_middle, lemma_infix_transitive, lemma_join_contains, collected, first_three, contains_text, text_eq, either_contains_one_of, has_infix, has_item, has_prefix, insert_sorted,
    is_one_of, join, join_first, lemma_collected_empty, lemma_collected_step,
    lemma_sorted_unique_no_duplicates, lines, list_has_item, no_duplicates, sorted_unique, space,
    split_scan, starts_with, starts_with_one_of, strs, texts, present_if, word_scan, words,
};

verus! {

/// The whitespace-separated fields of each line of a mount table.
pub open spec fn rows(table: Seq<char>) -> Seq<Seq<Seq<char>>> {
    lines(table).map_values(|l: Seq<char>| words(l))
}

/// The character sequences of rows of strings.
pub open spec fn row_texts(r: Seq<Vec<String>>) -> Seq<Seq<Seq<char>>> {
    r.map_values(|row: Vec<String>| texts(row@))
}

/// Cuts a mount table into lines, and each line into its whitespace-separated
/// fields.
pub fn mount_rows(table: &str) -> (r: Vec<Vec<String>>)
    ensures
        row_texts(r@) == rows(table@),
{
    let cs = chars_of(table);
    let n = cs.len();
    let mut out: Vec<Vec<String>> = Vec::new();
    let mut line: Vec<String> = Vec::new();
    let mut ls: usize = 0;
    let mut ws: usize = 0;
    let mut i: usize = 0;
    assert(table@.subrange(0, 0) =~= seq![]);
    assert(row_texts(out@) =~= seq![]);
    assert(texts(line@) =~= seq![]);
    while i < n
        invariant
            cs@ == table@,
            n == cs@.len(),
            ls <= ws <= i <= n,
            split_scan(table@.subrange(0, i as int), '\n').0.map_values(|l: Seq<char>| words(l))
                == row_texts(out@),
            split_scan(table@.subrange(0, i as int), '\n').1 == table@.subrange(ls as int, i as int),
            word_scan(table@.subrange(ls as int, i as int)).0 == texts(line@),
            word_scan(table@.subrange(ls as int, i as int)).1 == table@.subrange(ws as int, i as int),
        decreases n - i,
    {
        let c = cs[i];
        let ghost t = table@;
        let ghost done0 = split_scan(t.subrange(0, i as int), '\n').0;
        let ghost line0 = t.subrange(ls as int, i as int);
        let ghost wline0 = texts(line@);
        assert(t.subrange(0, i + 1).drop_last() =~= t.subrange(0, i as int));
        assert(t.subrange(ls as int, i + 1).drop_last() =~= line0);
        if c == '\n' || space(c) {
            if ws < i {
                let w = String::from_str(table.substring_char(ws, i));
                line.push(w);
                assert(texts(line@) =~= wline0.push(t.subrange(ws as int, i as int)));
            } else {
                assert(t.subrange(ws as int, i as int) =~= seq![]);
            }
            assert(words(line0) == texts(line@));
            if c == '\n' {
                out.push(line);
                line = Vec::new();
                ls = i + 1;
                proof {
                    assert(split_scan(t.subrange(0, i + 1), '\n').0 =~= done0.push(line0));
                    assert(row_texts(out@) =~= done0.map_values(|l: Seq<char>| words(l)).push(
                        words(line0),
                    ));
                    assert(done0.push(line0).map_values(|l: Seq<char>| words(l)) =~= done0.map_values(
                        |l: Seq<char>| words(l),
                    ).push(words(line0)));
                    assert(t.subrange(ls as int, i + 1) =~= seq![]);
                    assert(texts(line@) =~= seq![]);
                }
            }
            ws = i + 1;
            assert(t.subrange(ws as int, i + 1) =~= seq![]);
        } else {
            assert(t.subrange(ws as int, i + 1) =~= t.subrange(ws as int, i as int).push(c));
            assert(t.subrange(ls as int, i + 1) =~= line0.push(c));
        }
        i = i + 1;
    }
    let ghost t = table@;
    assert(t.subrange(0, n as int) =~= t);
    if ls < n {
        let ghost done0 = split_scan(t, '\n').0;
        let ghost line0 = t.subrange(ls as int, n as int);
        let ghost wline0 = texts(line@);
        if ws < n {
            let w = String::from_str(table.substring_char(ws, n));
            line.push(w);
            assert(texts(line@) =~= wline0.push(t.subrange(ws as int, n as int)));
        } else {
            assert(t.subrange(ws as int, n as int) =~= seq![]);
        }
        out.push(line);
        assert(row_texts(out@) =~= done0.map_values(|l: Seq<char>| words(l)).push(words(line0)));
        assert(done0.push(line0).map_values(|l: Seq<char>| words(l)) =~= done0.map_values(
            |l: Seq<char>| words(l),
        ).push(words(line0)));
    } else {
        assert(t.subrange(ls as int, n as int) =~= seq![]);
    }
    out
}

/// Mount points that expose a sensitive part of the host when mounted over.
pub open spec fn dangerous_mount_points() -> Seq<Seq<char>> {
    seq![
        "/"@,
        "/etc"@,
        "/boot"@,
        "/var/run"@,
        "/sys"@,
        "/proc"@,
        "/var/lib/docker"@,
        "/var/lib/containerd"@,
        "/run"@,
        "/usr"@,
        "/lib"@,
        "/bin"@,
        "/sbin"@,
        "/opt"@,
        "/home"@,
    ]
}

/// File system types of real disks.
pub open spec fn disk_filesystems() -> Seq<Seq<char>> {
    seq!["ext4"@, "xfs"@, "btrfs"@, "zfs"@]
}

/// Mount point prefixes under which host directories are usually mounted.
pub open spec fn host_dir_prefixes() -> Seq<Seq<char>> {
    seq!["/host"@, "/mnt"@, "/media"@]
}

/// Fragments of the names of container runtime sockets.
pub open spec fn socket_fragments() -> Seq<Seq<char>> {
    seq![
        "docker.sock"@,
        "containerd.sock"@,
        "crio.sock"@,
        "podman.sock"@,
        "lxd/unix.socket"@,
        "kubelet"@,
    ]
}

/// Well-known container runtime socket files.
pub open spec fn runtime_sockets() -> Seq<Seq<char>> {
    seq![
        "/var/run/docker.sock"@,
        "/var/run/containerd/containerd.sock"@,
        "/var/run/crio/crio.sock"@,
        "/run/docker.sock"@,
        "/run/containerd/containerd.sock"@,
    ]
}

fn dangerous_mount_point_table() -> (r: Vec<&'static str>)
    ensures
        strs(r@) == dangerous_mount_points(),
{
    let r = vec![
        "/",
        "/etc",
        "/boot",
        "/var/run",
        "/sys",
        "/proc",
        "/var/lib/docker",
        "/var/lib/containerd",
        "/run",
        "/usr",
        "/lib",
        "/bin",
        "/sbin",
        "/opt",
        "/home",
    ];
    assert(strs(r@) =~= dangerous_mount_points());
    r
}

fn disk_filesystem_table() -> (r: Vec<&'static str>)
    ensures
        strs(r@) == disk_filesystems(),
{
    let r = vec!["ext4", "xfs", "btrfs", "zfs"];
    assert(strs(r@) =~= disk_filesystems());
    r
}

fn host_dir_prefix_table() -> (r: Vec<&'static str>)
    ensures
        strs(r@) == host_dir_prefixes(),
{
    let r = vec!["/host", "/mnt", "/media"];
    assert(strs(r@) =~= host_dir_prefixes());
    r
}

fn socket_fragment_table() -> (r: Vec<&'static str>)
    ensures
        strs(r@) == socket_fragments(),
{
    let r = vec![
        "docker.sock",
        "containerd.sock",
        "crio.sock",
        "podman.sock",
        "lxd/unix.socket",
        "kubelet",
    ];
    assert(strs(r@) =~= socket_fragments());
    r
}

/// The well-known container runtime socket files, for the caller to look up.
pub fn runtime_socket_paths() -> (r: Vec<&'static str>)
    ensures
        strs(r@) == runtime_sockets(),
{
    let r = vec![
        "/var/run/docker.sock",
        "/var/run/containerd/containerd.sock",
        "/var/run/crio/crio.sock",
        "/run/docker.sock",
        "/run/containerd/containerd.sock",
    ];
    assert(strs(r@) =~= runtime_sockets());
    r
}

/// `source -> target`
pub open spec fn arrow(source: Seq<char>, target: Seq<char>) -> Seq<char> {
    source + " -> "@ + target
}

/// The mount point is one of the sensitive paths.
pub open spec fn is_dangerous_mount(row: Seq<Seq<char>>) -> bool {
    dangerous_mount_points().contains(row[1])
}

/// A disk device with a real disk file system, mounted at the root or under
/// `/host`.
pub open spec fn is_host_root_mount(row: Seq<Seq<char>>) -> bool {
    &&& has_prefix(row[0], "/dev/"@)
    &&& disk_filesystems().contains(row[2])
    &&& (row[1] == "/"@ || has_prefix(row[1], "/host"@))
}

/// Mounted without the `ro` option, at a host directory location or from an
/// existing absolute source path outside `/dev/`.
pub open spec fn is_writable_host_mount(row: Seq<Seq<char>>, existing: Set<Seq<char>>) -> bool {
    &&& !has_item(row[3], "ro"@)
    &&& ((exists|j: int|
        0 <= j < host_dir_prefixes().len() && has_prefix(row[1], #[trigger] host_dir_prefixes()[j]))
        || (has_prefix(row[0], "/"@) && !has_prefix(row[0], "/dev/"@) && existing.contains(row[0])))
}

/// The source or the mount point names a container runtime socket.
pub open spec fn is_socket_mount(row: Seq<Seq<char>>) -> bool {
    exists|j: int|
        0 <= j < socket_fragments().len() && (has_infix(row[0], #[trigger] socket_fragments()[j])
            || has_infix(row[1], socket_fragments()[j]))
}

/// What a mount table row adds to the dangerous-mount evidence.
pub open spec fn dangerous_rule() -> spec_fn(Seq<Seq<char>>) -> Option<Seq<char>> {
    |row: Seq<Seq<char>>|
        if row.len() >= 4 && is_dangerous_mount(row) {
            Some(arrow(row[0], row[1]))
        } else {
            None
        }
}

/// What a mount table row adds to the host-root evidence.
pub open spec fn host_root_rule() -> spec_fn(Seq<Seq<char>>) -> Option<Seq<char>> {
    |row: Seq<Seq<char>>|
        if row.len() >= 4 && is_host_root_mount(row) {
            Some(arrow(row[0], row[1]) + " ("@ + row[2] + ")"@)
        } else {
            None
        }
}

/// What a mount table row adds to the writable-host-mount evidence, given the
/// source paths that exist.
pub open spec fn writable_rule(existing: Set<Seq<char>>) -> spec_fn(Seq<Seq<char>>) -> Option<
    Seq<char>,
> {
    |row: Seq<Seq<char>>|
        if row.len() >= 4 && is_writable_host_mount(row, existing) {
            Some(arrow(row[0], row[1]) + " (writable)"@)
        } else {
            None
        }
}

/// What a mount table row adds to the socket evidence.
pub open spec fn socket_rule() -> spec_fn(Seq<Seq<char>>) -> Option<Seq<char>> {
    |row: Seq<Seq<char>>|
        if row.len() >= 4 && is_socket_mount(row) {
            Some(arrow(row[0], row[1]))
        } else {
            None
        }
}

/// What a well-known socket path adds to the socket evidence, given the paths
/// that exist as sockets.
pub open spec fn socket_file_rule(live: Set<Seq<char>>) -> spec_fn(Seq<char>) -> Option<Seq<char>> {
    |p: Seq<char>|
        if live.contains(p) {
            Some("socket access: "@ + p)
        } else {
            None
        }
}

fn arrow_string(source: &str, target: &str) -> (r: String)
    ensures
        r@ == arrow(source@, target@),
{
    let mut r = String::from_str(source);
    r.append(" -> ");
    r.append(target);
    r
}

/// The evidence of the host mounts probe.
pub struct HostMountsResult {
    pub dangerous_mounts: Vec<String>,
    pub writable_host_mounts: Vec<String>,
    pub socket_mounts: Vec<String>,
    pub host_root_mounts: Vec<String>,
}

impl HostMountsResult {
    /// Each evidence collection is strictly increasing.
    pub open spec fn wf(&self) -> bool {
        &&& sorted_unique(texts(self.dangerous_mounts@))
        &&& sorted_unique(texts(self.writable_host_mounts@))
        &&& sorted_unique(texts(self.socket_mounts@))
        &&& sorted_unique(texts(self.host_root_mounts@))
    }

    /// Classifies the rows of a mount table. `existing` holds the source paths
    /// that exist on the file system, `live_sockets` the well-known runtime
    /// socket paths that exist as sockets.
    pub fn classify(rows: &Vec<Vec<String>>, existing: &Vec<String>, live_sockets: &Vec<String>) -> (r:
        Self)
        ensures
            r.wf(),
            texts(r.dangerous_mounts@).to_set() == all_collected(row_texts(rows@), dangerous_rule()),
            texts(r.host_root_mounts@).to_set() == all_collected(row_texts(rows@), host_root_rule()),
            texts(r.writable_host_mounts@).to_set() == all_collected(
                row_texts(rows@),
                writable_rule(texts(existing@).to_set()),
            ),
            texts(r.socket_mounts@).to_set() == all_collected(row_texts(rows@), socket_rule()).union(
                all_collected(runtime_sockets(), socket_file_rule(texts(live_sockets@).to_set())),
            ),
    {
        let ghost rt = row_texts(rows@);
        let ghost ex = texts(existing@).to_set();
        let ghost live = texts(live_sockets@).to_set();
        let mut dm: Vec<String> = Vec::new();
        let mut hr: Vec<String> = Vec::new();
        let mut wm: Vec<String> = Vec::new();
        let mut sm: Vec<String> = Vec::new();
        proof {
            lemma_collected_empty(rt, dangerous_rule());
            lemma_collected_empty(rt, host_root_rule());
            lemma_collected_empty(rt, writable_rule(ex));
            lemma_collected_empty(rt, socket_rule());
            assert(texts(dm@).to_set() =~= Set::<Seq<char>>::empty());
        }
        let mut i: usize = 0;
        while i < rows.len()
            invariant
                i <= rows@.len(),
                rt == row_texts(rows@),
                ex == texts(existing@).to_set(),
                sorted_unique(texts(dm@)),
                sorted_unique(texts(hr@)),
                sorted_unique(texts(wm@)),
                sorted_unique(texts(sm@)),
                texts(dm@).to_set() == collected(rt, i as int, dangerous_rule()),
                texts(hr@).to_set() == collected(rt, i as int, host_root_rule()),
                texts(wm@).to_set() == collected(rt, i as int, writable_rule(ex)),
                texts(sm@).to_set() == collected(rt, i as int, socket_rule()),
            decreases rows@.len() - i,
        {
            let row = &rows[i];
            let ghost w = rt[i as int];
            assert(w == texts(row@));
            proof {
                lemma_collected_step(rt, i as int, dangerous_rule());
                lemma_collected_step(rt, i as int, host_root_rule());
                lemma_collected_step(rt, i as int, writable_rule(ex));
                lemma_collected_step(rt, i as int, socket_rule());
            }
            if row.len() >= 4 {
                let source = row[0].as_str();
                let target = row[1].as_str();
                let fs_type = row[2].as_str();
                let options = row[3].as_str();
                assert(w[0] == source@ && w[1] == target@ && w[2] == fs_type@ && w[3] == options@);
                if is_one_of(target, &dangerous_mount_point_table()) {
                    insert_sorted(&mut dm, arrow_string(source, target));
                }
                if starts_with(source, "/dev/") && is_one_of(fs_type, &disk_filesystem_table()) && (
                text_eq(target, "/") || starts_with(target, "/host")) {
                    let mut e = arrow_string(source, target);
                    e.append(" (");
                    e.append(fs_type);
                    e.append(")");
                    insert_sorted(&mut hr, e);
                }
                let existing_source = starts_with(source, "/") && !starts_with(source, "/dev/")
                    && contains_text(existing, source);
                if !list_has_item(options, "ro") && (starts_with_one_of(
                    target,
                    &host_dir_prefix_table(),
                ) || existing_source) {
                    let mut e = arrow_string(source, target);
                    e.append(" (writable)");
                    insert_sorted(&mut wm, e);
                }
                if either_contains_one_of(source, target, &socket_fragment_table()) {
                    insert_sorted(&mut sm, arrow_string(source, target));
                }
            }
            i = i + 1;
        }
        assert(rt.len() == rows@.len());
        let ghost row_sockets = texts(sm@).to_set();
        let paths = runtime_socket_paths();
        let ghost ps = runtime_sockets();
        proof {
            lemma_collected_empty(ps, socket_file_rule(live));
        }
        let mut k: usize = 0;
        while k < paths.len()
            invariant
                k <= paths@.len(),
                strs(paths@) == ps,
                live == texts(live_sockets@).to_set(),
                sorted_unique(texts(sm@)),
                texts(sm@).to_set() == row_sockets.union(collected(ps, k as int, socket_file_rule(live))),
            decreases paths@.len() - k,
        {
            proof {
                lemma_collected_step(ps, k as int, socket_file_rule(live));
            }
            assert(ps[k as int] == paths[k as int]@);
            if contains_text(live_sockets, paths[k]) {
                let mut e = String::from_str("socket access: ");
                e.append(paths[k]);
                insert_sorted(&mut sm, e);
            }
            proof {
                assert(texts(sm@).to_set() =~= row_sockets.union(collected(ps, k + 1, socket_file_rule(live))));
            }
            k = k + 1;
        }
        HostMountsResult {
            dangerous_mounts: dm,
            writable_host_mounts: wm,
            socket_mounts: sm,
            host_root_mounts: hr,
        }
    }
}

/// The host mounts probe: classifies the entries of the process's mount table.
pub struct HostMountsTest {}

impl HostMountsTest {
    /// Classifies a mount table. `existing` holds the source paths that exist
    /// on the file system, `live_sockets` the paths of `runtime_socket_paths`
    /// that exist as sockets.
    pub fn evaluate(&self, table: &str, existing: &Vec<String>, live_sockets: &Vec<String>) -> (r:
        HostMountsResult)
        ensures
            r.wf(),
            no_duplicates(texts(r.dangerous_mounts@)),
            no_duplicates(texts(r.writable_host_mounts@)),
            no_duplicates(texts(r.socket_mounts@)),
            no_duplicates(texts(r.host_root_mounts@)),
            texts(r.dangerous_mounts@).to_set() == all_collected(rows(table@), dangerous_rule()),
            texts(r.host_root_mounts@).to_set() == all_collected(rows(table@), host_root_rule()),
            texts(r.writable_host_mounts@).to_set() == all_collected(
                rows(table@),
                writable_rule(texts(existing@).to_set()),
            ),
            texts(r.socket_mounts@).to_set() == all_collected(rows(table@), socket_rule()).union(
                all_collected(runtime_sockets(), socket_file_rule(texts(live_sockets@).to_set())),
            ),
    {
        let rows = mount_rows(table);
        let r = HostMountsResult::classify(&rows, existing, live_sockets);
        proof {
            lemma_sorted_unique_no_duplicates(texts(r.dangerous_mounts@));
            lemma_sorted_unique_no_duplicates(texts(r.writable_host_mounts@));
            lemma_sorted_unique_no_duplicates(texts(r.socket_mounts@));
            lemma_sorted_unique_no_duplicates(texts(r.host_root_mounts@));
        }
        r
    }
}

impl Test for HostMountsTest {
    open spec fn title(&self) -> Seq<char> {
        "host filesystem mounts"@
    }

    open spec fn severity(&self) -> TestCategory {
        TestCategory::High
    }

    fn name(&self) -> (r: String) {
        String::from_str("host filesystem mounts")
    }

    fn category(&self) -> (r: TestCategory) {
        TestCategory::High
    }
}

/// The evidence classes of the host mounts probe.
#[derive(Clone, Copy, Debug, PartialEq, Eq, Structural)]
pub enum MountClass {
    Dangerous,
    HostRoot,
    Socket,
    Writable,
}

impl HostMountsResult {
    /// The evidence class is non-empty.
    pub open spec fn has_evidence(&self, c: MountClass) -> bool {
        match c {
            MountClass::Dangerous => self.dangerous_mounts@.len() > 0,
            MountClass::HostRoot => self.host_root_mounts@.len() > 0,
            MountClass::Socket => self.socket_mounts@.len() > 0,
            MountClass::Writable => self.writable_host_mounts@.len() > 0,
        }
    }

    /// The evidence listed in the section of a class: all of it, but at most
    /// three writable host mounts.
    pub open spec fn listed(&self, c: MountClass) -> Seq<Seq<char>> {
        match c {
            MountClass::Dangerous => texts(self.dangerous_mounts@),
            MountClass::HostRoot => texts(self.host_root_mounts@),
            MountClass::Socket => texts(self.socket_mounts@),
            MountClass::Writable => first_three(texts(self.writable_host_mounts@)),
        }
    }

    /// The text of the section that describes an evidence class.
    pub open spec fn section_text(&self, c: MountClass) -> Seq<char> {
        mount_label(c) + join(self.listed(c), ", "@)
    }

    /// The sections of the explanation, one for each non-empty evidence class,
    /// each with the class it describes.
    pub open spec fn sections(&self) -> Seq<(MountClass, Seq<char>)> {
        present_if(
            self.has_evidence(MountClass::Dangerous),
            (MountClass::Dangerous, self.section_text(MountClass::Dangerous)),
        ) + present_if(
            self.has_evidence(MountClass::HostRoot),
            (MountClass::HostRoot, self.section_text(MountClass::HostRoot)),
        ) + present_if(
            self.has_evidence(MountClass::Socket),
            (MountClass::Socket, self.section_text(MountClass::Socket)),
        ) + present_if(
            self.has_evidence(MountClass::Writable),
            (MountClass::Writable, self.section_text(MountClass::Writable)),
        )
    }
}

/// The words that open the section of an evidence class in the explanation.
pub open spec fn mount_label(c: MountClass) -> Seq<char> {
    match c {
        MountClass::Dangerous => "dangerous system paths mounted: "@,
        MountClass::HostRoot => "host root filesystem accessible: "@,
        MountClass::Socket => "container runtime sockets accessible: "@,
        MountClass::Writable => "writable host directories mounted: "@,
    }
}

/// Appends `label` followed by the first `count` entries of `v`, joined by
/// commas, to `parts`.
fn push_section(parts: &mut Vec<String>, label: &str, v: &Vec<String>, count: usize)
    requires
        count <= v@.len(),
    ensures
        final(parts)@.len() == old(parts)@.len() + 1,
        forall|j: int| 0 <= j < old(parts)@.len() ==> final(parts)@[j] == old(parts)@[j],
        final(parts)@.last()@ == label@ + join(texts(v@).take(count as int), ", "@),
{
    let mut p = String::from_str(label);
    let body = join_first(v, count, ", ");
    p.append(body.as_str());
    parts.push(p);
}

impl TestResult for HostMountsResult {
    open spec fn passes(&self) -> bool {
        &&& self.dangerous_mounts@.len() == 0
        &&& self.socket_mounts@.len() == 0
        &&& self.host_root_mounts@.len() == 0
        &&& self.writable_host_mounts@.len() == 0
    }

    open spec fn explanation(&self) -> Seq<char> {
        let parts = self.sections().map_values(|p: (MountClass, Seq<char>)| p.1);
        if parts.len() == 0 {
            "container filesystem isolation is secure"@
        } else {
            "container has dangerous host access: "@ + join(parts, "; "@)
        }
    }

    open spec fn fault(&self) -> Seq<char> {
        "AII3200"@
    }

    fn success(&self) -> (r: bool) {
        self.dangerous_mounts.len() == 0 && self.socket_mounts.len() == 0
            && self.host_root_mounts.len() == 0 && self.writable_host_mounts.len() == 0
    }

    fn explain(&self) -> (r: String) {
        let mut parts: Vec<String> = Vec::new();
        let ghost secs = self.sections().map_values(|p: (MountClass, Seq<char>)| p.1);
        let ghost dm = texts(self.dangerous_mounts@);
        let ghost hr = texts(self.host_root_mounts@);
        let ghost sm = texts(self.socket_mounts@);
        let ghost wm = texts(self.writable_host_mounts@);
        assert(dm.take(dm.len() as int) =~= dm);
        assert(hr.take(hr.len() as int) =~= hr);
        assert(sm.take(sm.len() as int) =~= sm);
        if self.dangerous_mounts.len() > 0 {
            push_section(
                &mut parts,
                "dangerous system paths mounted: ",
                &self.dangerous_mounts,
                self.dangerous_mounts.len(),
            );
        }
        if self.host_root_mounts.len() > 0 {
            push_section(
                &mut parts,
                "host root filesystem accessible: ",
                &self.host_root_mounts,
                self.host_root_mounts.len(),
            );
        }
        if self.socket_mounts.len() > 0 {
            push_section(
                &mut parts,
                "container runtime sockets accessible: ",
                &self.socket_mounts,
                self.socket_mounts.len(),
            );
        }
        if self.writable_host_mounts.len() > 0 {
            let n = self.writable_host_mounts.len();
            let count = if n < 3 {
                n
            } else {
                3
            };
            assert(first_three(wm) == wm.take(count as int)) by {
                if n < 3 {
                    assert(wm.take(count as int) =~= wm);
                }
            }
            push_section(&mut parts, "writable host directories mounted: ", &self.writable_host_mounts, count);
        }
        assert(texts(parts@) =~= secs);
        if parts.len() == 0 {
            String::from_str("container filesystem isolation is secure")
        } else {
            let mut r = String::from_str("container has dangerous host access: ");
            assert(texts(parts@).take(parts@.len() as int) =~= texts(parts@));
            let body = join_first(&parts, parts.len(), "; ");
            r.append(body.as_str());
            r
        }
    }

    fn as_string(&self) -> (r: String) {
        verdict_string(self.success())
    }

    fn fault_code(&self) -> (r: String) {
        String::from_str("AII3200")
    }
}

/// The explanation describes exactly the non-empty evidence classes: each of
/// its sections belongs to a non-empty class, and each non-empty class has a
/// section.
pub proof fn lemma_mount_explanation_classes(r: HostMountsResult)
    ensures
        forall|k: int|
            0 <= k < r.sections().len() ==> r.has_evidence(#[trigger] r.sections()[k].0),
        forall|c: MountClass|
            r.has_evidence(c) ==> exists|k: int|
                0 <= k < r.sections().len() && #[trigger] r.sections()[k] == (c, r.section_text(c)),
        r.sections().len() == 0 <==> r.passes(),
{
    let s = r.sections();
    assert forall|k: int| 0 <= k < s.len() implies r.has_evidence(#[trigger] s[k].0) by {
    }
    assert forall|c: MountClass| r.has_evidence(c) implies exists|k: int|
        0 <= k < s.len() && #[trigger] s[k] == (c, r.section_text(c)) by {
        let d: int = if r.has_evidence(MountClass::Dangerous) { 1 } else { 0 };
        let h: int = if r.has_evidence(MountClass::HostRoot) { 1 } else { 0 };
        let o: int = if r.has_evidence(MountClass::Socket) { 1 } else { 0 };
        let k: int = match c {
            MountClass::Dangerous => 0,
            MountClass::HostRoot => d,
            MountClass::Socket => d + h,
            MountClass::Writable => d + h + o,
        };
        assert(s[k] == (c, r.section_text(c)));
    }
}

/// The explanation names every non-empty evidence class by its label.
pub proof fn lemma_mount_explanation_mentions(r: HostMountsResult)
    ensures
        forall|c: MountClass| r.has_evidence(c) ==> has_infix(r.explanation(), #[trigger] mount_label(c)),
{
    lemma_mount_explanation_classes(r);
    let s = r.sections();
    let parts = s.map_values(|p: (MountClass, Seq<char>)| p.1);
    assert forall|c: MountClass| r.has_evidence(c) implies has_infix(r.explanation(), #[trigger] mount_label(c)) by {
        let k = choose|k: int| 0 <= k < s.len() && #[trigger] s[k] == (c, r.section_text(c));
        let text = r.section_text(c);
        let l = mount_label(c);
        lemma_infix_middle(seq![], l, join(r.listed(c), ", "@));
        assert(seq![] + l + join(r.listed(c), ", "@) =~= text);
        assert(parts[k] == text);
        lemma_join_contains(parts, "; "@, k);
        lemma_infix_transitive(join(parts, "; "@), text, l);
        let head = "container has dangerous host access: "@;
        lemma_infix_middle(head, join(parts, "; "@), seq![]);
        assert(head + join(parts, "; "@) + seq![] =~= r.explanation());
        lemma_infix_transitive(r.explanation(), join(parts, "; "@), l);
    }
}

/// Every host mounts result carries the same fault code.
pub proof fn lemma_mount_fault_code(a: HostMountsResult, b: HostMountsResult)
    ensures
        a.fault() == b.fault(),
        a.fault() == "AII3200"@,
{
}

} // verus!
