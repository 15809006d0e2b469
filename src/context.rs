//! The fused context that scoring reads.

use vstd::prelude::*;
use crate::text::{contains_ci, str_contains_ci, str_eq, views};

verus! {

/// Graphics hardware family.
#[derive(Clone, Copy, Debug, PartialEq, Eq, Structural)]
pub enum GpuType {
    Nvidia,
    Amd,
    Intel,
    Integrated,
}

/// A supported package manager.
#[derive(Clone, Copy, Debug, PartialEq, Eq, Structural)]
pub enum PackageManager {
    Pacman,
    Apt,
    Dnf,
    Apk,
    Zypper,
    Emerge,
}

/// Hardware and usage facts, merged with persisted preferences.
#[derive(Clone, Debug)]
pub struct KernelContext {
    pub current_kernel: String,
    pub package_manager: Option<PackageManager>,
    pub gpu_type: Option<GpuType>,
    pub use_cases: Vec<String>,
    pub has_nvidia_driver: bool,
    pub has_audio_hardware: bool,
    pub problematic_kernels: Vec<String>,
}

/// `tag` is one of the entries.
pub open spec fn has_tag(list: Seq<Seq<char>>, tag: Seq<char>) -> bool {
    list.contains(tag)
}

/// Whether `tag` is one of the strings.
pub fn list_contains(list: &Vec<String>, tag: &str) -> (r: bool)
    ensures
        r == has_tag(views(list@), tag@),
{
    let mut i: usize = 0;
    while i < list.len()
        invariant
            i <= list.len(),
            forall|j: int| 0 <= j < i ==> list@[j]@ != tag@,
        decreases list.len() - i,
    {
        if str_eq(list[i].as_str(), tag) {
            assert(views(list@)[i as int] == tag@);
            return true;
        }
        i += 1;
    }
    assert forall|j: int| 0 <= j < views(list@).len() implies views(list@)[j] != tag@ by {
        assert(list@[j]@ != tag@);
    }
    false
}

impl GpuType {
    /// The lower-case label used in preference records.
    pub fn label(&self) -> (r: &'static str)
        ensures
            r@ == gpu_label(*self),
    {
        match self {
            GpuType::Nvidia => "nvidia",
            GpuType::Amd => "amd",
            GpuType::Intel => "intel",
            GpuType::Integrated => "integrated",
        }
    }

    /// Reads a recorded label; the integrated, AMD and Intel families are
    /// tried first, case-insensitively, then NVIDIA.
    pub fn from_label(s: &str) -> (r: Option<GpuType>)
        ensures
            r == gpu_from_label(s@),
    {
        if str_contains_ci(s, "integrated") {
            Some(GpuType::Integrated)
        } else if str_contains_ci(s, "amd") {
            Some(GpuType::Amd)
        } else if str_contains_ci(s, "intel") {
            Some(GpuType::Intel)
        } else if str_contains_ci(s, "nvidia") {
            Some(GpuType::Nvidia)
        } else {
            None
        }
    }
}

pub open spec fn gpu_label(g: GpuType) -> Seq<char> {
    match g {
        GpuType::Nvidia => "nvidia"@,
        GpuType::Amd => "amd"@,
        GpuType::Intel => "intel"@,
        GpuType::Integrated => "integrated"@,
    }
}

pub open spec fn gpu_from_label(s: Seq<char>) -> Option<GpuType> {
    if contains_ci(s, "integrated"@) {
        Some(GpuType::Integrated)
    } else if contains_ci(s, "amd"@) {
        Some(GpuType::Amd)
    } else if contains_ci(s, "intel"@) {
        Some(GpuType::Intel)
    } else if contains_ci(s, "nvidia"@) {
        Some(GpuType::Nvidia)
    } else {
        None
    }
}

impl PackageManager {
    /// The package manager's command name.
    pub fn command(&self) -> (r: &'static str)
        ensures
            r@ == pm_command(*self),
    {
        match self {
            PackageManager::Pacman => "pacman",
            PackageManager::Apt => "apt",
            PackageManager::Dnf => "dnf",
            PackageManager::Apk => "apk",
            PackageManager::Zypper => "zypper",
            PackageManager::Emerge => "emerge",
        }
    }
}

pub open spec fn pm_command(p: PackageManager) -> Seq<char> {
    match p {
        PackageManager::Pacman => "pacman"@,
        PackageManager::Apt => "apt"@,
        PackageManager::Dnf => "dnf"@,
        PackageManager::Apk => "apk"@,
        PackageManager::Zypper => "zypper"@,
        PackageManager::Emerge => "emerge"@,
    }
}

/// The persisted user preferences.
#[derive(Clone, Debug)]
pub struct PreferenceRecord {
    pub preferred_kernel: Option<String>,
    pub gpu_type: Option<String>,
    pub use_cases: Vec<String>,
}

pub open spec fn opt_view(o: Option<String>) -> Option<Seq<char>> {
    match o {
        Some(s) => Some(s@),
        None => None,
    }
}

/// The recorded GPU after a merge: the record's own if set, else the label
/// of the detected one.
pub open spec fn merged_gpu(recorded: Option<Seq<char>>, detected: Option<GpuType>) -> Option<
    Seq<char>,
> {
    match recorded {
        Some(g) => Some(g),
        None => match detected {
            Some(d) => Some(gpu_label(d)),
            None => None,
        },
    }
}

/// The recorded use cases after a merge: the record's own if non-empty, else
/// the detected ones if non-empty, else just "desktop".
pub open spec fn merged_use_cases(recorded: Seq<Seq<char>>, detected: Seq<Seq<char>>) -> Seq<
    Seq<char>,
> {
    if recorded.len() > 0 {
        recorded
    } else if detected.len() > 0 {
        detected
    } else {
        seq!["desktop"@]
    }
}

/// Fills what the record leaves unset from live detection.
pub fn merge_preferences(
    record: &mut PreferenceRecord,
    detected_gpu: Option<GpuType>,
    detected_use_cases: &Vec<String>,
)
    ensures
        opt_view(final(record).preferred_kernel) == opt_view(old(record).preferred_kernel),
        opt_view(final(record).gpu_type) == merged_gpu(opt_view(old(record).gpu_type), detected_gpu),
        views(final(record).use_cases@) == merged_use_cases(
            views(old(record).use_cases@),
            views(detected_use_cases@),
        ),
{
    if record.gpu_type.is_none() {
        match detected_gpu {
            Some(g) => {
                record.gpu_type = Some(g.label().to_owned());
            },
            None => {},
        }
    }
    if record.use_cases.len() == 0 {
        let mut fresh: Vec<String> = Vec::new();
        let mut i: usize = 0;
        while i < detected_use_cases.len()
            invariant
                i <= detected_use_cases.len(),
                fresh@ == detected_use_cases@.take(i as int),
            decreases detected_use_cases.len() - i,
        {
            fresh.push(detected_use_cases[i].clone());
            i += 1;
            assert(fresh@ =~= detected_use_cases@.take(i as int));
        }
        if fresh.len() == 0 {
            fresh.push("desktop".to_owned());
            assert(views(fresh@) =~= seq!["desktop"@]);
        }
        assert(detected_use_cases@.take(detected_use_cases.len() as int) =~= detected_use_cases@);
        record.use_cases = fresh;
    }
}

/// Merging twice with the same detected values gives what merging once gave.
pub proof fn lemma_merge_idempotent(
    recorded_gpu: Option<Seq<char>>,
    recorded_use_cases: Seq<Seq<char>>,
    detected_gpu: Option<GpuType>,
    detected_use_cases: Seq<Seq<char>>,
)
    ensures
        merged_gpu(merged_gpu(recorded_gpu, detected_gpu), detected_gpu) == merged_gpu(
            recorded_gpu,
            detected_gpu,
        ),
        merged_use_cases(
            merged_use_cases(recorded_use_cases, detected_use_cases),
            detected_use_cases,
        ) == merged_use_cases(recorded_use_cases, detected_use_cases),
        gpu_from_opt(merged_gpu(merged_gpu(recorded_gpu, detected_gpu), detected_gpu))
            == gpu_from_opt(merged_gpu(recorded_gpu, detected_gpu)),
{
}

pub open spec fn gpu_from_opt(label: Option<Seq<char>>) -> Option<GpuType> {
    match label {
        Some(l) => gpu_from_label(l),
        None => None,
    }
}

/// Builds the scoring context from a merged record and the live probes.
pub fn build_context(
    record: PreferenceRecord,
    current_kernel: String,
    package_manager: Option<PackageManager>,
    has_nvidia_driver: bool,
    has_audio_hardware: bool,
    problematic_kernels: Vec<String>,
) -> (r: KernelContext)
    ensures
        r.current_kernel == current_kernel,
        r.package_manager == package_manager,
        r.gpu_type == gpu_from_opt(opt_view(record.gpu_type)),
        r.use_cases == record.use_cases,
        r.has_nvidia_driver == has_nvidia_driver,
        r.has_audio_hardware == has_audio_hardware,
        r.problematic_kernels == problematic_kernels,
{
    let gpu_type = match &record.gpu_type {
        Some(g) => GpuType::from_label(g.as_str()),
        None => None,
    };
    KernelContext {
        current_kernel,
        package_manager,
        gpu_type,
        use_cases: record.use_cases,
        has_nvidia_driver,
        has_audio_hardware,
        problematic_kernels,
    }
}

/// The running kernel and the package manager found.
#[derive(Clone, Debug)]
pub struct SystemInfo {
    pub current_kernel: String,
    pub package_manager: Option<PackageManager>,
}

impl SystemInfo {
    /// Builds the system facts from `uname -r` output (trimmed) and the tools
    /// found on the search path.
    pub fn from_probes(uname_output: &str, present_tools: &Vec<String>) -> (r: SystemInfo)
        ensures
            r.current_kernel@ == crate::text::trim(uname_output@),
            r.package_manager == crate::detect::package_manager_of(views(present_tools@)),
    {
        let v = crate::text::chars_of(uname_output);
        let t = crate::text::trimmed(&v, 0, v.len());
        assert(v@.subrange(0, v@.len() as int) =~= v@);
        assert(t@.subrange(0, t@.len() as int) =~= t@);
        SystemInfo {
            current_kernel: crate::text::string_of(&t, 0, t.len()),
            package_manager: crate::detect::detect_package_manager(present_tools),
        }
    }
}

} // verus!
