//! Context detection from probe results: which tools are present, and what
//! the hardware listings say.

use vstd::prelude::*;
use crate::context::{has_tag, list_contains, GpuType, PackageManager};
use crate::text::{contains, contains_ci, str_contains, str_contains_ci, str_views, to_strings, views};

verus! {

/// A one-element sequence when `b` holds, else the empty one.
pub open spec fn tag_if(b: bool, tag: Seq<char>) -> Seq<Seq<char>> {
    if b {
        seq![tag]
    } else {
        Seq::empty()
    }
}

/// Use cases inferred from the marker tools present; "desktop" when no tag fires.
pub open spec fn inferred_use_cases(tools: Seq<Seq<char>>) -> Seq<Seq<char>> {
    let found = tag_if(has_tag(tools, "ardour"@) || has_tag(tools, "jackd"@), "audio"@) + tag_if(
        has_tag(tools, "gcc"@) || has_tag(tools, "clang"@) || has_tag(tools, "rustc"@),
        "dev"@,
    ) + tag_if(has_tag(tools, "steam"@), "gaming"@) + tag_if(
        has_tag(tools, "nginx"@) || has_tag(tools, "apache2"@) || has_tag(tools, "httpd"@),
        "server"@,
    ) + tag_if(has_tag(tools, "firejail"@) || has_tag(tools, "apparmor_status"@), "security"@);
    if found.len() == 0 {
        seq!["desktop"@]
    } else {
        found
    }
}

/// Infers use cases from the names of the tools found on the search path.
pub fn infer_use_cases(present_tools: &Vec<String>) -> (r: Vec<String>)
    ensures
        views(r@) == inferred_use_cases(views(present_tools@)),
{
    let t = present_tools;
    let mut tags: Vec<&str> = Vec::new();
    if list_contains(t, "ardour") || list_contains(t, "jackd") {
        tags.push("audio");
    }
    if list_contains(t, "gcc") || list_contains(t, "clang") || list_contains(t, "rustc") {
        tags.push("dev");
    }
    if list_contains(t, "steam") {
        tags.push("gaming");
    }
    if list_contains(t, "nginx") || list_contains(t, "apache2") || list_contains(t, "httpd") {
        tags.push("server");
    }
    if list_contains(t, "firejail") || list_contains(t, "apparmor_status") {
        tags.push("security");
    }
    if tags.len() == 0 {
        tags.push("desktop");
    }
    let r = to_strings(&tags);
    assert(views(r@) =~= inferred_use_cases(views(present_tools@)));
    r
}

/// The first package manager, in the order pacman, apt, dnf, apk, zypper,
/// emerge, whose command is present.
pub open spec fn package_manager_of(tools: Seq<Seq<char>>) -> Option<PackageManager> {
    if has_tag(tools, "pacman"@) {
        Some(PackageManager::Pacman)
    } else if has_tag(tools, "apt"@) {
        Some(PackageManager::Apt)
    } else if has_tag(tools, "dnf"@) {
        Some(PackageManager::Dnf)
    } else if has_tag(tools, "apk"@) {
        Some(PackageManager::Apk)
    } else if has_tag(tools, "zypper"@) {
        Some(PackageManager::Zypper)
    } else if has_tag(tools, "emerge"@) {
        Some(PackageManager::Emerge)
    } else {
        None
    }
}

/// Picks the package manager from the names of the tools found on the search path.
pub fn detect_package_manager(present_tools: &Vec<String>) -> (r: Option<PackageManager>)
    ensures
        r == package_manager_of(views(present_tools@)),
{
    let t = present_tools;
    if list_contains(t, "pacman") {
        Some(PackageManager::Pacman)
    } else if list_contains(t, "apt") {
        Some(PackageManager::Apt)
    } else if list_contains(t, "dnf") {
        Some(PackageManager::Dnf)
    } else if list_contains(t, "apk") {
        Some(PackageManager::Apk)
    } else if list_contains(t, "zypper") {
        Some(PackageManager::Zypper)
    } else if list_contains(t, "emerge") {
        Some(PackageManager::Emerge)
    } else {
        None
    }
}

/// GPU family named in a hardware-bus listing, case-insensitively, in the
/// order NVIDIA, AMD/ATI, Intel, integrated.
pub open spec fn gpu_of_listing(listing: Seq<char>) -> Option<GpuType> {
    if contains_ci(listing, "nvidia"@) {
        Some(GpuType::Nvidia)
    } else if contains_ci(listing, "amd"@) || contains_ci(listing, "ati"@) {
        Some(GpuType::Amd)
    } else if contains_ci(listing, "intel"@) {
        Some(GpuType::Intel)
    } else if contains_ci(listing, "integrated"@) {
        Some(GpuType::Integrated)
    } else {
        None
    }
}

/// Reads the GPU family from a PCI device listing.
pub fn detect_gpu_type(lspci: &str) -> (r: Option<GpuType>)
    ensures
        r == gpu_of_listing(lspci@),
{
    if str_contains_ci(lspci, "nvidia") {
        Some(GpuType::Nvidia)
    } else if str_contains_ci(lspci, "amd") || str_contains_ci(lspci, "ati") {
        Some(GpuType::Amd)
    } else if str_contains_ci(lspci, "intel") {
        Some(GpuType::Intel)
    } else if str_contains_ci(lspci, "integrated") {
        Some(GpuType::Integrated)
    } else {
        None
    }
}

/// Whether a loaded-module listing holds "nvidia".
pub fn detect_nvidia(lsmod: &str) -> (r: bool)
    ensures
        r == contains(lsmod@, "nvidia"@),
{
    str_contains(lsmod, "nvidia")
}

/// Whether a PCI device listing mentions "audio", in any case.
pub fn detect_audio_hw(lspci: &str) -> (r: bool)
    ensures
        r == contains_ci(lspci@, "audio"@),
{
    str_contains_ci(lspci, "audio")
}

/// The tools whose presence detection consults: the package managers in
/// probe order, then the use-case markers.
pub fn known_tools() -> (r: Vec<&'static str>)
    ensures
        str_views(r@) == seq![
            "pacman"@, "apt"@, "dnf"@, "apk"@, "zypper"@, "emerge"@, "ardour"@, "jackd"@,
            "gcc"@, "clang"@, "rustc"@, "steam"@, "nginx"@, "apache2"@, "httpd"@, "firejail"@,
            "apparmor_status"@,
        ],
{
    let r = vec![
        "pacman", "apt", "dnf", "apk", "zypper", "emerge", "ardour", "jackd", "gcc", "clang",
        "rustc", "steam", "nginx", "apache2", "httpd", "firejail", "apparmor_status",
    ];
    assert(str_views(r@) =~= seq![
        "pacman"@, "apt"@, "dnf"@, "apk"@, "zypper"@, "emerge"@, "ardour"@, "jackd"@,
        "gcc"@, "clang"@, "rustc"@, "steam"@, "nginx"@, "apache2"@, "httpd"@, "firejail"@,
        "apparmor_status"@,
    ]);
    r
}

} // verus!
