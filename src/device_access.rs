use vstd::prelude::*;
use vstd::string::StringExecFns;

use crate::probe::{verdict_string, Test, TestCategory, TestResult};
use crate::text::{
    all_collected, collected, lemma_infix_middle, lemma_infix_transitive, lemma_join_contains, contains, first_three, contains_text, decimal, decimal_string, has_infix, has_prefix, insert_sorted, join,
    join_first, lemma_collected_empty, lemma_collected_step, lemma_sorted_unique_no_duplicates,
    no_duplicates, present_if, sorted_unique, starts_with, starts_with_one_of, strs, text_eq, texts,
};

verus! {

/// The file type of a device directory entry.
#[derive(Clone, Copy, Debug, PartialEq, Eq, Structural)]
pub enum NodeKind {
    Block,
    Character,
    Other,
}

/// One entry of the device directory: its file name, its full path and its
/// file type.
pub struct DeviceEntry {
    pub name: String,
    pub path: String,
    pub kind: NodeKind,
}

/// Device nodes that give access to physical memory, kernel memory or I/O ports.
pub open spec fn memory_devices() -> Seq<Seq<char>> {
    seq!["/dev/mem"@, "/dev/kmem"@, "/dev/port"@]
}

/// Name prefixes of storage drivers' block devices.
pub open spec fn block_prefixes() -> Seq<Seq<char>> {
    seq!["sd"@, "nvme"@, "vd"@, "hd"@, "xvd"@]
}

/// Name prefixes of terminals, pseudo-terminal slaves, framebuffers and input
/// devices.
pub open spec fn character_prefixes() -> Seq<Seq<char>> {
    seq!["tty"@, "pts/"@, "fb"@, "input/"@]
}

/// The memory device paths, for the caller to look up.
pub fn memory_device_paths() -> (r: Vec<&'static str>)
    ensures
        strs(r@) == memory_devices(),
{
    let r = vec!["/dev/mem", "/dev/kmem", "/dev/port"];
    assert(strs(r@) =~= memory_devices());
    r
}

fn block_prefix_table() -> (r: Vec<&'static str>)
    ensures
        strs(r@) == block_prefixes(),
{
    let r = vec!["sd", "nvme", "vd", "hd", "xvd"];
    assert(strs(r@) =~= block_prefixes());
    r
}

fn character_prefix_table() -> (r: Vec<&'static str>)
    ensures
        strs(r@) == character_prefixes(),
{
    let r = vec!["tty", "pts/", "fb", "input/"];
    assert(strs(r@) =~= character_prefixes());
    r
}

/// A block device of a storage driver.
pub open spec fn is_storage_block(e: DeviceEntry) -> bool {
    e.kind == NodeKind::Block && exists|j: int|
        0 <= j < block_prefixes().len() && has_prefix(e.name@, #[trigger] block_prefixes()[j])
}

/// A hardware or kernel random number generator.
pub open spec fn is_rng(e: DeviceEntry) -> bool {
    e.kind == NodeKind::Character && (has_prefix(e.name@, "hwrng"@) || e.name@ == "random"@
        || e.name@ == "urandom"@)
}

/// A GPU or graphics driver node.
pub open spec fn is_gpu(e: DeviceEntry) -> bool {
    e.kind == NodeKind::Character && (has_prefix(e.name@, "nvidia"@) || has_prefix(e.name@, "dri/"@)
        || has_infix(e.path@, "/dri/"@))
}

/// A terminal, console, framebuffer or input node.
pub open spec fn is_generic_character(e: DeviceEntry) -> bool {
    e.kind == NodeKind::Character && ((exists|j: int|
        0 <= j < character_prefixes().len() && has_prefix(
            e.name@,
            #[trigger] character_prefixes()[j],
        )) || e.name@ == "console"@)
}

/// The entry's path where `p` holds of it.
pub open spec fn path_if(p: bool, e: DeviceEntry) -> Option<Seq<char>> {
    if p {
        Some(e.path@)
    } else {
        None
    }
}

/// What a directory entry adds to the block-device evidence.
pub open spec fn block_rule() -> spec_fn(DeviceEntry) -> Option<Seq<char>> {
    |e: DeviceEntry| path_if(is_storage_block(e), e)
}

/// What a directory entry adds to the random-number-generator evidence.
pub open spec fn rng_rule() -> spec_fn(DeviceEntry) -> Option<Seq<char>> {
    |e: DeviceEntry| path_if(is_rng(e), e)
}

/// What a directory entry adds to the GPU evidence.
pub open spec fn gpu_rule() -> spec_fn(DeviceEntry) -> Option<Seq<char>> {
    |e: DeviceEntry| path_if(is_gpu(e), e)
}

/// What a directory entry adds to the generic character-device evidence.
pub open spec fn character_rule() -> spec_fn(DeviceEntry) -> Option<Seq<char>> {
    |e: DeviceEntry| path_if(is_generic_character(e), e)
}

/// A memory device path counts where it exists.
pub open spec fn memory_rule(present: Set<Seq<char>>) -> spec_fn(Seq<char>) -> Option<Seq<char>> {
    |p: Seq<char>|
        if present.contains(p) {
            Some(p)
        } else {
            None
        }
}

/// Every path, unchanged.
pub open spec fn any_path() -> spec_fn(Seq<char>) -> Option<Seq<char>> {
    |p: Seq<char>| Some(p)
}

/// The evidence of the device access probe.
pub struct DeviceAccessResult {
    pub dangerous_devices: Vec<String>,
    pub block_devices: Vec<String>,
    pub hardware_rngs: Vec<String>,
    pub gpu_devices: Vec<String>,
    pub character_devices: Vec<String>,
}

impl DeviceAccessResult {
    /// Each evidence collection is strictly increasing.
    pub open spec fn wf(&self) -> bool {
        &&& sorted_unique(texts(self.dangerous_devices@))
        &&& sorted_unique(texts(self.block_devices@))
        &&& sorted_unique(texts(self.hardware_rngs@))
        &&& sorted_unique(texts(self.gpu_devices@))
        &&& sorted_unique(texts(self.character_devices@))
    }

    /// Classifies what was found in the device directory. `present` holds the
    /// paths of `memory_device_paths` that exist, `entries` the entries of the
    /// device directory, `dri` the paths of the entries of its graphics driver
    /// subdirectory.
    pub fn classify(present: &Vec<String>, entries: &Vec<DeviceEntry>, dri: &Vec<String>) -> (r: Self)
        ensures
            r.wf(),
            texts(r.dangerous_devices@).to_set() == all_collected(
                memory_devices(),
                memory_rule(texts(present@).to_set()),
            ),
            texts(r.block_devices@).to_set() == all_collected(entries@, block_rule()),
            texts(r.hardware_rngs@).to_set() == all_collected(entries@, rng_rule()),
            texts(r.gpu_devices@).to_set() == all_collected(entries@, gpu_rule()).union(
                all_collected(texts(dri@), any_path()),
            ),
            texts(r.character_devices@).to_set() == all_collected(entries@, character_rule()),
    {
        let ghost pr = texts(present@).to_set();
        let mut dd: Vec<String> = Vec::new();
        let mut bd: Vec<String> = Vec::new();
        let mut rd: Vec<String> = Vec::new();
        let mut gd: Vec<String> = Vec::new();
        let mut cd: Vec<String> = Vec::new();
        let paths = memory_device_paths();
        let ghost ms = memory_devices();
        proof {
            lemma_collected_empty(ms, memory_rule(pr));
            lemma_collected_empty(entries@, block_rule());
            lemma_collected_empty(entries@, rng_rule());
            lemma_collected_empty(entries@, gpu_rule());
            lemma_collected_empty(entries@, character_rule());
            assert(texts(dd@).to_set() =~= Set::<Seq<char>>::empty());
        }
        let mut k: usize = 0;
        while k < paths.len()
            invariant
                k <= paths@.len(),
                strs(paths@) == ms,
                pr == texts(present@).to_set(),
                sorted_unique(texts(dd@)),
                texts(dd@).to_set() == collected(ms, k as int, memory_rule(pr)),
            decreases paths@.len() - k,
        {
            proof {
                lemma_collected_step(ms, k as int, memory_rule(pr));
            }
            assert(ms[k as int] == paths[k as int]@);
            if contains_text(present, paths[k]) {
                insert_sorted(&mut dd, String::from_str(paths[k]));
            }
            k = k + 1;
        }
        let mut i: usize = 0;
        while i < entries.len()
            invariant
                i <= entries@.len(),
                sorted_unique(texts(bd@)),
                sorted_unique(texts(rd@)),
                sorted_unique(texts(gd@)),
                sorted_unique(texts(cd@)),
                texts(bd@).to_set() == collected(entries@, i as int, block_rule()),
                texts(rd@).to_set() == collected(entries@, i as int, rng_rule()),
                texts(gd@).to_set() == collected(entries@, i as int, gpu_rule()),
                texts(cd@).to_set() == collected(entries@, i as int, character_rule()),
            decreases entries@.len() - i,
        {
            let e = &entries[i];
            proof {
                lemma_collected_step(entries@, i as int, block_rule());
                lemma_collected_step(entries@, i as int, rng_rule());
                lemma_collected_step(entries@, i as int, gpu_rule());
                lemma_collected_step(entries@, i as int, character_rule());
            }
            let name = e.name.as_str();
            let path = e.path.as_str();
            if e.kind == NodeKind::Block && starts_with_one_of(name, &block_prefix_table()) {
                insert_sorted(&mut bd, String::from_str(path));
            }
            if e.kind == NodeKind::Character {
                if starts_with(name, "hwrng") || text_eq(name, "random") || text_eq(name, "urandom") {
                    insert_sorted(&mut rd, String::from_str(path));
                }
                if starts_with(name, "nvidia") || starts_with(name, "dri/") || contains(path, "/dri/") {
                    insert_sorted(&mut gd, String::from_str(path));
                }
                if starts_with_one_of(name, &character_prefix_table()) || text_eq(name, "console") {
                    insert_sorted(&mut cd, String::from_str(path));
                }
            }
            i = i + 1;
        }
        let ghost entry_gpus = texts(gd@).to_set();
        let ghost dv = texts(dri@);
        proof {
            lemma_collected_empty(dv, any_path());
            assert(entry_gpus =~= entry_gpus.union(Set::<Seq<char>>::empty()));
        }
        let mut j: usize = 0;
        while j < dri.len()
            invariant
                j <= dri@.len(),
                dv == texts(dri@),
                sorted_unique(texts(gd@)),
                texts(gd@).to_set() == entry_gpus.union(collected(dv, j as int, any_path())),
            decreases dri@.len() - j,
        {
            proof {
                lemma_collected_step(dv, j as int, any_path());
            }
            insert_sorted(&mut gd, dri[j].clone());
            proof {
                assert(texts(gd@).to_set() =~= entry_gpus.union(collected(dv, j + 1, any_path())));
            }
            j = j + 1;
        }
        DeviceAccessResult {
            dangerous_devices: dd,
            block_devices: bd,
            hardware_rngs: rd,
            gpu_devices: gd,
            character_devices: cd,
        }
    }
}

/// Generic character devices tolerated before they count against isolation.
pub const CHARACTER_DEVICE_ALLOWANCE: usize = 3;

/// The device access probe: classifies the nodes of the device directory.
pub struct DeviceAccessTest {}

impl DeviceAccessTest {
    /// Classifies what was found in the device directory, as
    /// `DeviceAccessResult::classify` does; every collection comes out sorted
    /// and free of duplicates.
    pub fn evaluate(&self, present: &Vec<String>, entries: &Vec<DeviceEntry>, dri: &Vec<String>) -> (r:
        DeviceAccessResult)
        ensures
            r.wf(),
            no_duplicates(texts(r.dangerous_devices@)),
            no_duplicates(texts(r.block_devices@)),
            no_duplicates(texts(r.hardware_rngs@)),
            no_duplicates(texts(r.gpu_devices@)),
            no_duplicates(texts(r.character_devices@)),
            texts(r.dangerous_devices@).to_set() == all_collected(
                memory_devices(),
                memory_rule(texts(present@).to_set()),
            ),
            texts(r.block_devices@).to_set() == all_collected(entries@, block_rule()),
            texts(r.hardware_rngs@).to_set() == all_collected(entries@, rng_rule()),
            texts(r.gpu_devices@).to_set() == all_collected(entries@, gpu_rule()).union(
                all_collected(texts(dri@), any_path()),
            ),
            texts(r.character_devices@).to_set() == all_collected(entries@, character_rule()),
    {
        let r = DeviceAccessResult::classify(present, entries, dri);
        proof {
            lemma_sorted_unique_no_duplicates(texts(r.dangerous_devices@));
            lemma_sorted_unique_no_duplicates(texts(r.block_devices@));
            lemma_sorted_unique_no_duplicates(texts(r.hardware_rngs@));
            lemma_sorted_unique_no_duplicates(texts(r.gpu_devices@));
            lemma_sorted_unique_no_duplicates(texts(r.character_devices@));
        }
        r
    }
}

impl Test for DeviceAccessTest {
    open spec fn title(&self) -> Seq<char> {
        "device node access"@
    }

    open spec fn severity(&self) -> TestCategory {
        TestCategory::High
    }

    fn name(&self) -> (r: String) {
        String::from_str("device node access")
    }

    fn category(&self) -> (r: TestCategory) {
        TestCategory::High
    }
}

/// The evidence classes of the device access probe.
#[derive(Clone, Copy, Debug, PartialEq, Eq, Structural)]
pub enum DeviceClass {
    Memory,
    Block,
    Rng,
    Gpu,
    Character,
}

impl DeviceAccessResult {
    /// The evidence class is non-empty.
    pub open spec fn has_evidence(&self, c: DeviceClass) -> bool {
        match c {
            DeviceClass::Memory => self.dangerous_devices@.len() > 0,
            DeviceClass::Block => self.block_devices@.len() > 0,
            DeviceClass::Rng => self.hardware_rngs@.len() > 0,
            DeviceClass::Gpu => self.gpu_devices@.len() > 0,
            DeviceClass::Character => self.character_devices@.len() > 0,
        }
    }

    /// The text of the section that describes an evidence class.
    pub open spec fn section_text(&self, c: DeviceClass) -> Seq<char> {
        match c {
            DeviceClass::Memory => device_label(c) + join(texts(self.dangerous_devices@), ", "@),
            DeviceClass::Block => "access to "@ + decimal(self.block_devices@.len()) + device_label(c)
                + join(first_three(texts(self.block_devices@)), ", "@),
            DeviceClass::Rng => device_label(c) + join(texts(self.hardware_rngs@), ", "@),
            DeviceClass::Gpu => device_label(c) + join(texts(self.gpu_devices@), ", "@),
            DeviceClass::Character => "access to "@ + decimal(self.character_devices@.len())
                + device_label(c) + join(first_three(texts(self.character_devices@)), ", "@),
        }
    }

    /// The sections of the explanation, one for each non-empty evidence class,
    /// each with the class it describes.
    pub open spec fn sections(&self) -> Seq<(DeviceClass, Seq<char>)> {
        present_if(
            self.has_evidence(DeviceClass::Memory),
            (DeviceClass::Memory, self.section_text(DeviceClass::Memory)),
        ) + present_if(
            self.has_evidence(DeviceClass::Block),
            (DeviceClass::Block, self.section_text(DeviceClass::Block)),
        ) + present_if(
            self.has_evidence(DeviceClass::Rng),
            (DeviceClass::Rng, self.section_text(DeviceClass::Rng)),
        ) + present_if(
            self.has_evidence(DeviceClass::Gpu),
            (DeviceClass::Gpu, self.section_text(DeviceClass::Gpu)),
        ) + present_if(
            self.has_evidence(DeviceClass::Character),
            (DeviceClass::Character, self.section_text(DeviceClass::Character)),
        )
    }
}

/// The words that name an evidence class in its section of the explanation.
pub open spec fn device_label(c: DeviceClass) -> Seq<char> {
    match c {
        DeviceClass::Memory => "access to dangerous memory devices: "@,
        DeviceClass::Block => " block devices: "@,
        DeviceClass::Rng => "access to random number generators: "@,
        DeviceClass::Gpu => "access to GPU/graphics devices: "@,
        DeviceClass::Character => " character devices including: "@,
    }
}

/// All entries of `v`, joined by commas, after `label`.
fn listed_section(v: &Vec<String>, label: &str) -> (r: String)
    ensures
        r@ == label@ + join(texts(v@), ", "@),
{
    let mut p = String::from_str(label);
    let body = all_joined(v);
    p.append(body.as_str());
    p
}

/// The first `min(3, len)` entries of `v`, joined by commas.
fn first_three_joined(v: &Vec<String>) -> (r: String)
    ensures
        r@ == join(first_three(texts(v@)), ", "@),
{
    let n = v.len();
    let count = if n < 3 {
        n
    } else {
        3
    };
    assert(first_three(texts(v@)) == texts(v@).take(count as int)) by {
        if n < 3 {
            assert(texts(v@).take(count as int) =~= texts(v@));
        }
    }
    join_first(v, count, ", ")
}

/// All entries of `v`, joined by commas.
fn all_joined(v: &Vec<String>) -> (r: String)
    ensures
        r@ == join(texts(v@), ", "@),
{
    assert(texts(v@).take(v@.len() as int) =~= texts(v@));
    join_first(v, v.len(), ", ")
}

/// "access to N <what>" followed by the first three entries of `v`.
fn counted_section(v: &Vec<String>, what: &str) -> (r: String)
    ensures
        r@ == "access to "@ + decimal(v@.len() as nat) + what@ + join(
            first_three(texts(v@)),
            ", "@,
        ),
{
    let mut r = String::from_str("access to ");
    let count = decimal_string(v.len());
    r.append(count.as_str());
    r.append(what);
    let body = first_three_joined(v);
    r.append(body.as_str());
    r
}

impl TestResult for DeviceAccessResult {
    open spec fn passes(&self) -> bool {
        &&& self.dangerous_devices@.len() == 0
        &&& self.block_devices@.len() == 0
        &&& self.gpu_devices@.len() == 0
        &&& self.character_devices@.len() <= CHARACTER_DEVICE_ALLOWANCE
    }

    open spec fn explanation(&self) -> Seq<char> {
        let parts = self.sections().map_values(|p: (DeviceClass, Seq<char>)| p.1);
        if parts.len() == 0 {
            "container has minimal device access - good isolation"@
        } else if self.passes() {
            "container has tolerated device access: "@ + join(parts, "; "@)
        } else {
            "container has dangerous device access: "@ + join(parts, "; "@)
        }
    }

    open spec fn fault(&self) -> Seq<char> {
        "AII3100"@
    }

    fn success(&self) -> (r: bool) {
        self.dangerous_devices.len() == 0 && self.block_devices.len() == 0
            && self.gpu_devices.len() == 0 && self.character_devices.len()
            <= CHARACTER_DEVICE_ALLOWANCE
    }

    fn explain(&self) -> (r: String) {
        let mut parts: Vec<String> = Vec::new();
        let ghost secs = self.sections().map_values(|p: (DeviceClass, Seq<char>)| p.1);
        if self.dangerous_devices.len() > 0 {
            parts.push(listed_section(&self.dangerous_devices, "access to dangerous memory devices: "));
        }
        if self.block_devices.len() > 0 {
            parts.push(counted_section(&self.block_devices, " block devices: "));
        }
        if self.hardware_rngs.len() > 0 {
            parts.push(listed_section(&self.hardware_rngs, "access to random number generators: "));
        }
        if self.gpu_devices.len() > 0 {
            parts.push(listed_section(&self.gpu_devices, "access to GPU/graphics devices: "));
        }
        if self.character_devices.len() > 0 {
            parts.push(counted_section(&self.character_devices, " character devices including: "));
        }
        assert(texts(parts@) =~= secs);
        if parts.len() == 0 {
            String::from_str("container has minimal device access - good isolation")
        } else {
            let mut r = if self.success() {
                String::from_str("container has tolerated device access: ")
            } else {
                String::from_str("container has dangerous device access: ")
            };
            assert(texts(parts@).take(parts@.len() as int) =~= texts(parts@));
            let body = join_first(&parts, parts.len(), "; ");
            r.append(body.as_str());
            r
        }
    }

    fn as_string(&self) -> (r: String) {
        verdict_string(self.success())
    }

    fn fault_code(&self) -> (r: String) {
        String::from_str("AII3100")
    }
}

/// The explanation mentions no empty evidence class: each of its sections
/// belongs to a non-empty class.
pub proof fn lemma_device_explanation_only_evidence(r: DeviceAccessResult)
    ensures
        forall|k: int|
            0 <= k < r.sections().len() ==> r.has_evidence(#[trigger] r.sections()[k].0),
        r.sections().len() == 0 ==> r.passes(),
{
    let s = r.sections();
    assert forall|k: int| 0 <= k < s.len() implies r.has_evidence(#[trigger] s[k].0) by {
    }
}

/// The explanation has a section for every non-empty evidence class.
pub proof fn lemma_device_explanation_all_evidence(r: DeviceAccessResult)
    ensures
        forall|c: DeviceClass|
            r.has_evidence(c) ==> exists|k: int|
                0 <= k < r.sections().len() && #[trigger] r.sections()[k] == (c, r.section_text(c)),
{
    let s = r.sections();
    assert forall|c: DeviceClass| r.has_evidence(c) implies exists|k: int|
        0 <= k < s.len() && #[trigger] s[k] == (c, r.section_text(c)) by {
        let m: int = if r.has_evidence(DeviceClass::Memory) { 1 } else { 0 };
        let b: int = if r.has_evidence(DeviceClass::Block) { 1 } else { 0 };
        let n: int = if r.has_evidence(DeviceClass::Rng) { 1 } else { 0 };
        let g: int = if r.has_evidence(DeviceClass::Gpu) { 1 } else { 0 };
        let k: int = match c {
            DeviceClass::Memory => 0,
            DeviceClass::Block => m,
            DeviceClass::Rng => m + b,
            DeviceClass::Gpu => m + b + n,
            DeviceClass::Character => m + b + n + g,
        };
        assert(s[k] == (c, r.section_text(c)));
    }
}

/// The explanation names every non-empty evidence class by its label.
pub proof fn lemma_device_explanation_mentions(r: DeviceAccessResult)
    ensures
        forall|c: DeviceClass| r.has_evidence(c) ==> has_infix(r.explanation(), #[trigger] device_label(c)),
{
    lemma_device_explanation_all_evidence(r);
    let s = r.sections();
    let parts = s.map_values(|p: (DeviceClass, Seq<char>)| p.1);
    assert forall|c: DeviceClass| r.has_evidence(c) implies has_infix(r.explanation(), #[trigger] device_label(c)) by {
        let k = choose|k: int| 0 <= k < s.len() && #[trigger] s[k] == (c, r.section_text(c));
        let text = r.section_text(c);
        let l = device_label(c);
        match c {
            DeviceClass::Memory => lemma_infix_middle(seq![], l, join(texts(r.dangerous_devices@), ", "@)),
            DeviceClass::Block => lemma_infix_middle(
                "access to "@ + decimal(r.block_devices@.len()),
                l,
                join(first_three(texts(r.block_devices@)), ", "@),
            ),
            DeviceClass::Rng => lemma_infix_middle(seq![], l, join(texts(r.hardware_rngs@), ", "@)),
            DeviceClass::Gpu => lemma_infix_middle(seq![], l, join(texts(r.gpu_devices@), ", "@)),
            DeviceClass::Character => lemma_infix_middle(
                "access to "@ + decimal(r.character_devices@.len()),
                l,
                join(first_three(texts(r.character_devices@)), ", "@),
            ),
        }
        assert(has_infix(text, l)) by {
            match c {
                DeviceClass::Memory => assert(seq![] + l + join(texts(r.dangerous_devices@), ", "@) =~= text),
                DeviceClass::Rng => assert(seq![] + l + join(texts(r.hardware_rngs@), ", "@) =~= text),
                DeviceClass::Gpu => assert(seq![] + l + join(texts(r.gpu_devices@), ", "@) =~= text),
                _ => {},
            }
        }
        assert(parts[k] == text);
        lemma_join_contains(parts, "; "@, k);
        lemma_infix_transitive(join(parts, "; "@), text, l);
        let head = if r.passes() {
            "container has tolerated device access: "@
        } else {
            "container has dangerous device access: "@
        };
        lemma_infix_middle(head, join(parts, "; "@), seq![]);
        assert(head + join(parts, "; "@) + seq![] =~= r.explanation());
        lemma_infix_transitive(r.explanation(), join(parts, "; "@), l);
    }
}

/// Every device access result carries the same fault code.
pub proof fn lemma_device_fault_code(a: DeviceAccessResult, b: DeviceAccessResult)
    ensures
        a.fault() == b.fault(),
        a.fault() == "AII3100"@,
{
}

} // verus!
