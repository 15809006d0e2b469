use nephyra::catalog::{
    analyze_kernel_details, available_candidates, enhance_kernel_info, installed_candidates,
    merge_catalog, parse_pacman_kernel_list, DetailedKernelInfo,
};
use nephyra::context::{
    build_context, merge_preferences, GpuType, KernelContext, PackageManager, PreferenceRecord,
    SystemInfo,
};
use nephyra::detect::{
    detect_audio_hw, detect_gpu_type, detect_nvidia, detect_package_manager, infer_use_cases,
};
use nephyra::kernel::{detect_kernel_variant, KernelInfo, KernelVariant};
use nephyra::rank::{rank_order, score_all, top_positions};
use nephyra::render::recommendations;
use nephyra::scoring::score_and_reason_kernel;

const LISTING: &str = "
cachyos-v3/linux-cachyos-eevdf-lto 6.15.3-1 [installed] The Linux EEVDF scheduler + Cachy Sauce Kernel by CachyOS with other patches and improvements kernel and modules
system/linux 6.15.2.artix1-1 The Linux kernel and modules
system/linux-lts 6.12.32-1 The LTS Linux kernel and modules
galaxy/linux-hardened 6.14.9.hardened1-1 The Security-Hardened Linux kernel and modules
galaxy/linux-rt 6.14.0.rt3.artix1-1 The Linux RT kernel and modules
galaxy/linux-zen 6.15.2.zen1-1 The Linux ZEN kernel and modules
";

fn strings(v: &[&str]) -> Vec<String> {
    v.iter().map(|s| s.to_string()).collect()
}

fn candidate(name: &str, description: &str, variant: KernelVariant, installed: bool) -> KernelInfo {
    KernelInfo {
        name: name.to_string(),
        version: String::new(),
        description: description.to_string(),
        variant,
        installed,
    }
}

fn context(gpu: Option<GpuType>, use_cases: &[&str], nvidia: bool, audio: bool) -> KernelContext {
    KernelContext {
        current_kernel: "6.15.2-2-cachyos".to_string(),
        package_manager: Some(PackageManager::Pacman),
        gpu_type: gpu,
        use_cases: strings(use_cases),
        has_nvidia_driver: nvidia,
        has_audio_hardware: audio,
        problematic_kernels: Vec::new(),
    }
}

#[test]
fn explanation_is_never_empty() {
    let variants = [
        KernelVariant::Standard,
        KernelVariant::Lts,
        KernelVariant::Zen,
        KernelVariant::RealTime,
        KernelVariant::Hardened,
        KernelVariant::Mainline,
    ];
    let contexts = [
        context(None, &[], false, false),
        context(Some(GpuType::Amd), &["dev", "gaming"], true, true),
        context(Some(GpuType::Nvidia), &["server", "security", "audio"], false, true),
    ];
    for ctx in contexts.iter() {
        for v in variants.iter() {
            let k = candidate("linux-x", "", *v, false);
            let (_, text) = score_and_reason_kernel(&k, ctx);
            assert!(!text.is_empty());
        }
    }
}

#[test]
fn denylisted_name_scores_ten_lower() {
    let k = candidate("linux-zen", "", KernelVariant::Zen, true);
    let clean = context(Some(GpuType::Intel), &["desktop"], false, false);
    let mut marked = clean.clone();
    marked.problematic_kernels = strings(&["zen"]);
    let (base, _) = score_and_reason_kernel(&k, &clean);
    let (penalised, text) = score_and_reason_kernel(&k, &marked);
    assert_eq!(penalised, base - 10);
    assert!(penalised < base);
    assert_eq!(base, -4);
    assert!(text.contains("Zen causes overheating"));
}

#[test]
fn denylist_warning_is_kept_when_nothing_overrides() {
    let k = candidate("linux", "", KernelVariant::Standard, true);
    let mut ctx = context(None, &["desktop"], false, false);
    ctx.problematic_kernels = strings(&["lin"]);
    let (score, text) = score_and_reason_kernel(&k, &ctx);
    assert_eq!(score, -8);
    assert_eq!(text, "Standard is a safe default WARNING: previously marked problematic");
}

#[test]
fn equal_scores_keep_catalog_order() {
    assert_eq!(rank_order(&vec![1, 3, 1, 3, 2]), vec![1, 3, 4, 0, 2]);
    assert_eq!(rank_order(&vec![0, 0, 0]), vec![0, 1, 2]);
    assert_eq!(rank_order(&vec![]), Vec::<usize>::new());
}

#[test]
fn ranking_of_scored_catalog_is_stable() {
    let ctx = context(None, &[], false, false);
    let cands = vec![
        candidate("a", "", KernelVariant::Mainline, true),
        candidate("b", "", KernelVariant::RealTime, false),
        candidate("c", "", KernelVariant::Mainline, false),
        candidate("d", "", KernelVariant::Standard, false),
    ];
    let scored = score_all(&cands, &ctx);
    let scores: Vec<i32> = scored.iter().map(|s| s.score).collect();
    assert_eq!(scores, vec![0, -2, 0, 0]);
    assert_eq!(top_positions(&scored, 3), vec![0, 2, 3]);
    assert_eq!(top_positions(&scored, 10), vec![0, 2, 3, 1]);
}

#[test]
fn merging_twice_gives_the_same_context() {
    let detected = strings(&["dev", "gaming"]);
    let mut record = PreferenceRecord { preferred_kernel: None, gpu_type: None, use_cases: Vec::new() };
    merge_preferences(&mut record, Some(GpuType::Amd), &detected);
    let once = record.clone();
    merge_preferences(&mut record, Some(GpuType::Amd), &detected);
    assert_eq!(record.gpu_type, once.gpu_type);
    assert_eq!(record.use_cases, once.use_cases);
    assert_eq!(record.gpu_type, Some("amd".to_string()));
    let a = build_context(once, "k".to_string(), None, false, false, Vec::new());
    let b = build_context(record, "k".to_string(), None, false, false, Vec::new());
    assert_eq!(a.gpu_type, b.gpu_type);
    assert_eq!(a.use_cases, b.use_cases);
    assert_eq!(a.gpu_type, Some(GpuType::Amd));
}

#[test]
fn recorded_preferences_override_detection() {
    let mut record = PreferenceRecord {
        preferred_kernel: Some("linux-lts".to_string()),
        gpu_type: Some("intel".to_string()),
        use_cases: strings(&["server"]),
    };
    merge_preferences(&mut record, Some(GpuType::Nvidia), &strings(&["gaming"]));
    assert_eq!(record.gpu_type, Some("intel".to_string()));
    assert_eq!(record.use_cases, strings(&["server"]));
    assert_eq!(record.preferred_kernel, Some("linux-lts".to_string()));
}

#[test]
fn catalog_union_names_are_unique() {
    let installed = installed_candidates(&strings(&["linux", "linux-zen"]));
    let available = available_candidates(&parse_pacman_kernel_list(LISTING));
    let all = merge_catalog(&installed, &available);
    let mut names: Vec<String> = all.iter().map(|k| k.name.clone()).collect();
    assert_eq!(names.len(), 6);
    names.sort();
    names.dedup();
    assert_eq!(names.len(), 6);
}

#[test]
fn eevdf_on_amd_gaming_scores_six() {
    let ctx = context(Some(GpuType::Amd), &["gaming"], false, false);
    let name = "linux-cachyos-eevdf-lto";
    let k = candidate(name, "", detect_kernel_variant(name), false);
    let (score, text) = score_and_reason_kernel(&k, &ctx);
    assert!(score >= 6);
    assert_eq!(score, 6);
    assert!(text.contains("EEVDF"));
}

#[test]
fn nvidia_driver_penalises_zen() {
    let ctx = context(None, &[], true, false);
    let k = candidate("linux-zen", "", KernelVariant::Zen, false);
    let (score, text) = score_and_reason_kernel(&k, &ctx);
    assert_eq!(score, -6);
    assert!(text.contains("NVIDIA"));
    let plain = context(None, &[], false, false);
    let (without, _) = score_and_reason_kernel(&k, &plain);
    assert_eq!(score, without - 6);
}

#[test]
fn empty_preferences_and_no_detection_give_desktop() {
    let mut record = PreferenceRecord { preferred_kernel: None, gpu_type: None, use_cases: Vec::new() };
    merge_preferences(&mut record, None, &Vec::new());
    assert_eq!(record.use_cases, strings(&["desktop"]));
    assert_eq!(record.gpu_type, None);
    assert_eq!(infer_use_cases(&Vec::new()), strings(&["desktop"]));
}

#[test]
fn installed_kernel_listed_once_as_installed() {
    let installed = installed_candidates(&strings(&["linux-cachyos-eevdf-lto"]));
    let available = available_candidates(&parse_pacman_kernel_list(LISTING));
    let all = merge_catalog(&installed, &available);
    let same: Vec<&KernelInfo> = all.iter().filter(|k| k.name == "linux-cachyos-eevdf-lto").collect();
    assert_eq!(same.len(), 1);
    assert!(same[0].installed);
    assert_eq!(all[0].name, "linux-cachyos-eevdf-lto");
    assert_eq!(all.len(), 6);
    assert!(all[1..].iter().all(|k| !k.installed));
}

#[test]
fn variant_detection_order() {
    assert_eq!(detect_kernel_variant("linux-rt"), KernelVariant::RealTime);
    assert_eq!(detect_kernel_variant("linux-REALTIME"), KernelVariant::RealTime);
    assert_eq!(detect_kernel_variant("linux-lts"), KernelVariant::Lts);
    assert_eq!(detect_kernel_variant("linux-zen"), KernelVariant::Zen);
    assert_eq!(detect_kernel_variant("linux-Hardened"), KernelVariant::Hardened);
    assert_eq!(detect_kernel_variant("linux-mainline"), KernelVariant::Mainline);
    assert_eq!(detect_kernel_variant("linux"), KernelVariant::Standard);
    assert_eq!(detect_kernel_variant("linux-zen-rt"), KernelVariant::RealTime);
    assert_eq!(detect_kernel_variant(""), KernelVariant::Standard);
    assert_eq!(KernelVariant::RealTime.label(), "Real-Time");
}

#[test]
fn rule_table_each_rule() {
    // LTS for servers
    let (s, t) = score_and_reason_kernel(
        &candidate("linux-lts", "", KernelVariant::Lts, true),
        &context(None, &["server"], false, false),
    );
    assert_eq!(s, 4);
    assert_eq!(t, "LTS preferred for server/battery stability");
    // RT with audio, plus audio hardware
    let (s, t) = score_and_reason_kernel(
        &candidate("linux-rt", "", KernelVariant::RealTime, true),
        &context(None, &["audio"], false, true),
    );
    assert_eq!(s, 7);
    assert_eq!(t, "RT best for audio/production");
    // RT without audio
    let (s, t) = score_and_reason_kernel(
        &candidate("linux-rt", "", KernelVariant::RealTime, true),
        &context(None, &["desktop"], false, false),
    );
    assert_eq!(s, -2);
    assert_eq!(t, "no special advantage for this context. WARNING: RT not recommended without audio/production need");
    // Hardened with and without security
    let (s, t) = score_and_reason_kernel(
        &candidate("linux-hardened", "", KernelVariant::Hardened, true),
        &context(None, &["security"], false, false),
    );
    assert_eq!(s, 4);
    assert_eq!(t, "Hardened best for security-focused systems");
    let (s, t) = score_and_reason_kernel(
        &candidate("linux-hardened", "", KernelVariant::Hardened, true),
        &context(None, &["gaming"], false, false),
    );
    assert_eq!(s, -2);
    assert!(t.ends_with("WARNING: Hardened not recommended without security need"));
}

#[test]
fn last_warning_wins_and_reasons_join() {
    let ctx = context(Some(GpuType::Intel), &["dev", "audio"], true, true);
    let k = candidate("linux-rt-eevdf", "", KernelVariant::RealTime, false);
    let (s, t) = score_and_reason_kernel(&k, &ctx);
    assert_eq!(s, 6 + 5 - 6 + 2);
    assert_eq!(
        t,
        "EEVDF recommended for desktop/gaming/dev on AMD/Intel RT best for audio/production WARNING: avoid Zen/RT/Hardened with NVIDIA; use LTS/Standard\nNOTE: For development/programming, kernel headers are required. If missing, install with your package manager."
    );
}

#[test]
fn eevdf_found_in_description_any_case() {
    let ctx = context(Some(GpuType::Integrated), &["desktop"], false, false);
    let k = candidate("linux-cachyos", "The Linux EeVdF kernel", KernelVariant::Standard, false);
    let (s, _) = score_and_reason_kernel(&k, &ctx);
    assert_eq!(s, 8);
}

#[test]
fn parses_listing() {
    let list = parse_pacman_kernel_list(LISTING);
    assert_eq!(list.len(), 6);
    assert_eq!(list[0].repo, "cachyos-v3");
    assert_eq!(list[0].name, "linux-cachyos-eevdf-lto");
    assert_eq!(list[0].version, "6.15.3-1");
    assert_eq!(
        list[0].description,
        "The Linux EEVDF scheduler + Cachy Sauce Kernel by CachyOS with other patches and improvements kernel and modules"
    );
    assert_eq!(list[4].name, "linux-rt");
    assert_eq!(list[4].description, "The Linux RT kernel and modules");
    let odd = parse_pacman_kernel_list("no-slash 1.0 x\na/b/c 1 x\nr/n 2\r\nonlyone\n  r/m   3   [installed]  \n");
    assert_eq!(odd.len(), 2);
    assert_eq!(odd[0].name, "n");
    assert_eq!(odd[0].version, "2");
    assert_eq!(odd[0].description, "");
    assert_eq!(odd[1].name, "m");
    assert_eq!(odd[1].description, "");
}

const QI: &str = "Name            : linux-zen
Version         : 6.15.2.zen1-1
Description     : The Linux ZEN kernel and modules
Architecture    : x86_64
URL             : https://github.com/zen-kernel/zen-kernel
Licenses        : GPL-2.0-only
Provides        : VIRTUALBOX-GUEST-MODULES WIREGUARD-MODULE KSMBD-MODULE
Depends On      : coreutils  kmod  initramfs
Conflicts With  : None
Replaces        : None
Install Date    : Sat 14 Jun 2025 10:00:00
Build Date      : Fri 13 Jun 2025 09:00:00
Install Reason  : Explicitly installed
Validated By    : Signature
Version         : 6.15.3.zen1-1
no colon here
";

#[test]
fn parses_package_details() {
    let d = DetailedKernelInfo::from_pacman_output(QI, "linux-zen").unwrap();
    assert_eq!(d.name, "linux-zen");
    assert_eq!(d.version, "6.15.3.zen1-1");
    assert_eq!(d.description, "The Linux ZEN kernel and modules");
    assert_eq!(d.architecture, "x86_64");
    assert_eq!(d.url, "https://github.com/zen-kernel/zen-kernel");
    assert_eq!(d.licenses, strings(&["GPL-2.0-only"]));
    assert_eq!(d.provides.len(), 3);
    assert_eq!(d.depends, strings(&["coreutils", "kmod", "initramfs"]));
    assert_eq!(d.conflicts, strings(&["None"]));
    assert_eq!(d.install_date, Some("Sat 14 Jun 2025 10:00:00".to_string()));
    assert_eq!(d.build_date, Some("Fri 13 Jun 2025 09:00:00".to_string()));
    assert_eq!(d.install_reason, Some("Explicitly installed".to_string()));
    assert_eq!(d.validated_by, Some("Signature".to_string()));
    let empty = DetailedKernelInfo::from_pacman_output("", "x").unwrap();
    assert_eq!(empty.version, "");
    assert!(empty.provides.is_empty());
    assert_eq!(empty.build_date, None);
}

#[test]
fn annotation_rules_apply_in_order() {
    let mut d = DetailedKernelInfo::from_pacman_output(QI, "linux-zen").unwrap();
    d.depends = strings(&["nvidia-utils"]);
    d.provides = strings(&["virtualbox-guest-modules", "hardened-x"]);
    d.conflicts = strings(&["linux-rt-lts"]);
    let mut k = candidate("linux-zen", "Zen", KernelVariant::Standard, true);
    analyze_kernel_details(&mut k, &d);
    assert_eq!(
        k.description,
        "Zen (Includes NVIDIA support) (VirtualBox guest support) (Built: Fri 13 Jun 2025 09:00:00)"
    );
    assert_eq!(k.variant, KernelVariant::Zen);
    d.description = "The hardened kernel".to_string();
    let mut k = candidate("linux-x", "", KernelVariant::Standard, true);
    analyze_kernel_details(&mut k, &d);
    assert_eq!(k.variant, KernelVariant::Hardened);
    d.description = "plain".to_string();
    d.provides = Vec::new();
    let mut k = candidate("linux-x", "", KernelVariant::Standard, true);
    analyze_kernel_details(&mut k, &d);
    assert_eq!(k.variant, KernelVariant::RealTime);
}

#[test]
fn enhancement_uses_pacman_metadata_only() {
    let d = DetailedKernelInfo::from_pacman_output(QI, "linux-zen").unwrap();
    let mut k = candidate("linux-zen", "", KernelVariant::Standard, true);
    enhance_kernel_info(&mut k, Some(PackageManager::Apt), Some(&d));
    assert_eq!(k.description, "");
    assert_eq!(k.variant, KernelVariant::Standard);
    enhance_kernel_info(&mut k, Some(PackageManager::Pacman), None);
    assert_eq!(k.description, "");
    enhance_kernel_info(&mut k, Some(PackageManager::Pacman), Some(&d));
    assert_eq!(
        k.description,
        "The Linux ZEN kernel and modules (Built: Fri 13 Jun 2025 09:00:00)"
    );
    assert_eq!(k.variant, KernelVariant::Zen);
}

#[test]
fn probes_read_listings() {
    assert_eq!(detect_gpu_type("01:00.0 VGA: NVIDIA Corporation"), Some(GpuType::Nvidia));
    assert_eq!(detect_gpu_type("VGA: Advanced Micro Devices [AMD/ATI]"), Some(GpuType::Amd));
    assert_eq!(detect_gpu_type("VGA: Intel UHD 620"), Some(GpuType::Intel));
    assert_eq!(detect_gpu_type("VGA: Integrated graphics"), Some(GpuType::Integrated));
    assert_eq!(detect_gpu_type("VGA: Matrox"), None);
    assert!(detect_nvidia("nvidia_drm 1 0"));
    assert!(!detect_nvidia("NVIDIA"));
    assert!(detect_audio_hw("00:1f.3 Audio device: Intel"));
    assert!(!detect_audio_hw("00:1f.3 Ethernet"));
    assert_eq!(detect_package_manager(&strings(&["emerge", "apt"])), Some(PackageManager::Apt));
    assert_eq!(detect_package_manager(&strings(&["gcc"])), None);
    assert_eq!(
        infer_use_cases(&strings(&["steam", "clang", "jackd", "httpd", "firejail"])),
        strings(&["audio", "dev", "gaming", "server", "security"])
    );
    assert_eq!(infer_use_cases(&strings(&["rustc"])), strings(&["dev"]));
}

#[test]
fn gpu_labels_round_trip() {
    for g in [GpuType::Nvidia, GpuType::Amd, GpuType::Intel, GpuType::Integrated] {
        assert_eq!(GpuType::from_label(g.label()), Some(g));
    }
    assert_eq!(GpuType::from_label("AMD Radeon"), Some(GpuType::Amd));
    assert_eq!(GpuType::from_label("unknown"), None);
}

#[test]
fn system_info_from_probes() {
    let info = SystemInfo::from_probes("6.15.2-2-cachyos\n", &strings(&["dnf", "zypper"]));
    assert_eq!(info.current_kernel, "6.15.2-2-cachyos");
    assert_eq!(info.package_manager, Some(PackageManager::Dnf));
}

#[test]
fn top_three_recommendations_rendered() {
    let ctx = context(Some(GpuType::Amd), &["gaming"], false, false);
    let installed = installed_candidates(&strings(&["linux-cachyos-eevdf-lto"]));
    let available = available_candidates(&parse_pacman_kernel_list(LISTING));
    let catalog = merge_catalog(&installed, &available);
    let scored = score_all(&catalog, &ctx);
    let lines = recommendations(&scored, Some(PackageManager::Pacman), &ctx.use_cases);
    assert_eq!(lines[0], "1. linux-cachyos-eevdf-lto (Score: 6)");
    assert_eq!(lines[1], "   Variant: Standard");
    assert_eq!(lines[2], "   Reason: EEVDF recommended for desktop/gaming/dev on AMD/Intel");
    assert_eq!(lines[3], "2. linux (Score: 0)");
    assert_eq!(lines[6], "   Install: sudo pacman -S linux-linux");
    assert_eq!(lines[7], "3. linux-lts (Score: 0)");
    assert_eq!(lines.len(), 11);
}
