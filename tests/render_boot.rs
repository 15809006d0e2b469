use nephyra::boot::{
    describe_bootloader, detect_init_system, grub_default, refind_default, systemd_boot_default,
    BootloaderKind,
};
use nephyra::context::PackageManager;
use nephyra::kernel::{KernelInfo, KernelVariant};
use nephyra::rank::ScoredKernel;
use nephyra::catalog::DetailedKernelInfo;
use nephyra::render::{
    detailed_info_lines,
    headers_install_hint, headers_package, install_command, kernel_package_name,
    package_base_name, package_installed_from_output, recommendation_lines,
};

fn strings(v: &[&str]) -> Vec<String> {
    v.iter().map(|s| s.to_string()).collect()
}

fn kernel(name: &str, installed: bool) -> KernelInfo {
    KernelInfo {
        name: name.to_string(),
        version: String::new(),
        description: String::new(),
        variant: KernelVariant::Zen,
        installed,
    }
}

#[test]
fn package_name_from_kernel_identifier() {
    assert_eq!(kernel_package_name("6.15.2-2-cachyos-eevdf-lto"), "linux-cachyos-eevdf-lto");
    assert_eq!(kernel_package_name("6.12.32-1-lts"), "linux-lts");
    assert_eq!(kernel_package_name("12345"), "linux-12345");
    assert_eq!(kernel_package_name(""), "linux-");
    assert_eq!(package_base_name("linux-zen"), "linux-zen");
    assert_eq!(package_base_name("6.1.0-rt"), "linux-rt");
}

#[test]
fn install_commands() {
    let k = kernel("linux-zen", false);
    assert_eq!(
        install_command(&k, Some(PackageManager::Pacman), &strings(&["dev"])),
        Some("sudo pacman -S linux-zen linux-zen-headers".to_string())
    );
    assert_eq!(
        install_command(&k, Some(PackageManager::Apt), &strings(&["gaming"])),
        Some("sudo apt -S linux-zen".to_string())
    );
    assert_eq!(install_command(&k, None, &strings(&["dev"])), None);
    assert_eq!(install_command(&kernel("linux-zen", true), Some(PackageManager::Dnf), &Vec::new()), None);
    assert_eq!(
        install_command(&kernel("6.9.1-arch1", false), Some(PackageManager::Zypper), &strings(&["server"])),
        Some("sudo zypper -S linux-arch1 linux-arch1-headers".to_string())
    );
}

#[test]
fn recommendation_rendering() {
    let s = ScoredKernel { kernel: kernel("linux-zen", false), score: -12, explanation: "why".to_string() };
    assert_eq!(
        recommendation_lines(2, &s, Some(PackageManager::Pacman), &Vec::new()),
        strings(&["2. linux-zen (Score: -12)", "   Variant: Zen", "   Reason: why", "   Install: sudo pacman -S linux-zen"])
    );
    let s = ScoredKernel { kernel: kernel("linux", true), score: 105, explanation: "ok".to_string() };
    assert_eq!(
        recommendation_lines(1, &s, Some(PackageManager::Pacman), &Vec::new()),
        strings(&["1. linux (Score: 105)", "   Variant: Zen", "   Reason: ok"])
    );
}

#[test]
fn headers_hints() {
    assert_eq!(headers_package("6.15.2-2-cachyos"), "linux-cachyos-headers");
    assert_eq!(headers_install_hint(PackageManager::Pacman, "linux-headers"), "sudo pacman -S linux-headers");
    assert_eq!(headers_install_hint(PackageManager::Apt, "x"), "sudo apt install x");
    assert_eq!(headers_install_hint(PackageManager::Dnf, "x"), "sudo dnf install kernel-headers");
    assert_eq!(headers_install_hint(PackageManager::Apk, "x"), "sudo apk add linux-headers");
    assert_eq!(headers_install_hint(PackageManager::Zypper, "x"), "sudo zypper install kernel-devel");
    assert_eq!(headers_install_hint(PackageManager::Emerge, "x"), "sudo emerge --ask sys-kernel/linux-headers");
}

#[test]
fn install_check_from_output() {
    assert!(package_installed_from_output(PackageManager::Pacman, "p", true, None));
    assert!(!package_installed_from_output(PackageManager::Apk, "p", false, Some("")));
    assert!(package_installed_from_output(PackageManager::Apt, "p", true, Some("install ok installed")));
    assert!(!package_installed_from_output(PackageManager::Apt, "p", true, None));
    assert!(package_installed_from_output(PackageManager::Dnf, "linux-headers", true, Some("linux-headers.x86_64")));
    assert!(!package_installed_from_output(PackageManager::Emerge, "linux-headers", true, Some("nothing")));
}

#[test]
fn init_system_names() {
    assert_eq!(detect_init_system(Some("systemd\n"), None, None), "systemd");
    assert_eq!(detect_init_system(Some(" openrc-init "), None, None), "openrc");
    assert_eq!(detect_init_system(Some("s6-svscan"), None, None), "s6");
    assert_eq!(detect_init_system(Some("init"), Some("runit-init"), Some("systemd")), "runit");
    assert_eq!(detect_init_system(Some("init"), Some("other"), Some("systemd")), "systemd");
    assert_eq!(detect_init_system(Some("init"), None, None), "sysvinit");
    assert_eq!(detect_init_system(Some("busybox"), None, None), "busybox-init");
    assert_eq!(detect_init_system(Some("linuxrc"), None, None), "linuxrc");
    assert_eq!(detect_init_system(Some("weird"), None, None), "unknown");
    assert_eq!(detect_init_system(None, None, None), "unknown");
}

#[test]
fn bootloader_defaults() {
    assert_eq!(grub_default("# x\n  set default=\"0\"\nset default=2\n"), Some("0".to_string()));
    assert_eq!(grub_default("set default=\"saved\"=x"), Some("saved".to_string()));
    assert_eq!(grub_default("menuentry"), None);
    assert_eq!(systemd_boot_default("timeout 3\ndefault arch.conf\n"), Some("arch.conf".to_string()));
    assert_eq!(systemd_boot_default("default \ndefault b\n"), None);
    assert_eq!(refind_default("default_selection \"Arch\"\n"), Some("\"Arch\"".to_string()));
    assert_eq!(refind_default("timeout 5\n"), None);
}

#[test]
fn bootloader_description() {
    let info = describe_bootloader(Some(BootloaderKind::Grub), true);
    assert_eq!(info.bootloader_type, "GRUB");
    assert_eq!(info.config_path, Some("/boot/grub/grub.cfg".to_string()));
    assert_eq!(info.extra_info, Some("Could not read: /boot/grub/grub.cfg (permission denied)".to_string()));
    let info = describe_bootloader(Some(BootloaderKind::UBoot), false);
    assert_eq!(info.extra_info, Some("U-Boot script detected. Kernel parsing not implemented.".to_string()));
    let info = describe_bootloader(None, false);
    assert_eq!(info.bootloader_type, "Unknown");
    assert_eq!(info.config_path, None);
    assert_eq!(BootloaderKind::probe_order().len(), 6);
    assert!(describe_bootloader(Some(BootloaderKind::Lilo), false).extra_info.is_none());
}

#[test]
fn detailed_view_lines() {
    let k = kernel("linux-zen", true);
    assert_eq!(
        detailed_info_lines(&k, None),
        strings(&["\nDetailed Information for linux-zen:", "Variant: Zen", "Description: "])
    );
    let d = DetailedKernelInfo::from_pacman_output(
        "Version : 1\nArchitecture : x86_64\nURL : u\nLicenses : GPL MIT\nBuild Date : today\n",
        "linux-zen",
    )
    .unwrap();
    assert_eq!(
        detailed_info_lines(&k, Some(&d)),
        strings(&[
            "\nDetailed Information for linux-zen:",
            "Variant: Zen",
            "Description: ",
            "\nAdditional Details:",
            "Version: 1",
            "Architecture: x86_64",
            "URL: u",
            "Licenses: GPL, MIT",
            "Build Date: today",
        ])
    );
}
