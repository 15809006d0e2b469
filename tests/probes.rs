use nephyra::hardware::{
    df_usage, format_mem_kib, hardware_summary, parse_basic_cpu_info, parse_meminfo, parse_storage_summary,
    root_device_from_source, BlockDevice, BlockPartition,
};
use nephyra::context::PackageManager;
use nephyra::packages::{confirms, orphan_list, orphans_found, updates_available};
use nephyra::power::{ac_state, ac_summary, battery_summary, power_summary};
use nephyra::render::kernel_summary;

#[test]
fn cpu_info_from_lscpu() {
    let out = "Architecture: x86_64\nCPU(s):   16\nModel name:   AMD Ryzen 7 5800X 8-Core Processor\nThread(s) per core:  2\nNUMA node0 CPU(s): 0-15\n";
    let (model, cpus, threads) = parse_basic_cpu_info(out);
    assert_eq!(model, "AMD Ryzen 7 5800X 8-Core Processor");
    assert_eq!(cpus, "16");
    assert_eq!(threads, "2");
    let (m, c, t) = parse_basic_cpu_info("");
    assert_eq!((m.as_str(), c.as_str(), t.as_str()), ("Unknown", "Unknown", "Unknown"));
}

#[test]
fn meminfo_totals() {
    let text = "MemTotal:       16303500 kB\nMemFree:  100 kB\nMemAvailable:   12000000 kB\n";
    assert_eq!(parse_meminfo(text), Some((16303500, 12000000)));
    assert_eq!(parse_meminfo("MemTotal: 5 kB\n"), None);
    assert_eq!(parse_meminfo("MemTotal: x kB\nMemAvailable: 3 kB\n"), None);
    assert_eq!(parse_meminfo("MemTotal:\nMemAvailable: 3 kB\n"), None);
    assert_eq!(parse_meminfo("MemTotal: +7 kB\nMemAvailable: 3\n"), Some((7, 3)));
    assert_eq!(parse_meminfo("MemTotal: 18446744073709551616 kB\nMemAvailable: 3\n"), None);
    assert_eq!(parse_meminfo("MemTotal: 18446744073709551615 kB\nMemAvailable: 3\n"), Some((u64::MAX, 3)));
}

#[test]
fn storage_table_cells() {
    let out = "NAME        SIZE TYPE MOUNTPOINT\nsda         477G disk \nsda1        512M part /boot/efi\n\n            1G   rom  \n";
    assert_eq!(
        parse_storage_summary(out),
        vec!["sda: 477G [disk] mounted at ".to_string(), "sda1: 512M [part] mounted at /boot/efi".to_string()]
    );
    assert!(parse_storage_summary("").is_empty());
}

#[test]
fn storage_table_counts_bytes() {
    // The tree glyphs take three bytes each, so the cells shift.
    let out = "NAME        SIZE TYPE MOUNTPOINT\n├─sda1      512M part /boot\n";
    let expected: Vec<String> = {
        let line = "├─sda1      512M part /boot";
        let name = line.get(0..12).unwrap_or("").trim();
        let size = line.get(12..17).unwrap_or("").trim();
        let typ = line.get(17..22).unwrap_or("").trim();
        let mount = line.get(22..).unwrap_or("").trim();
        if !name.is_empty() && !size.is_empty() && !typ.is_empty() {
            vec![format!("{}: {} [{}] mounted at {}", name, size, typ, mount)]
        } else {
            vec![]
        }
    };
    assert_eq!(parse_storage_summary(out), expected);
    assert_eq!(expected, vec!["├─sda1: 5 [12M p] mounted at art /boot".to_string()]);
}

#[test]
fn root_device_and_usage() {
    assert_eq!(root_device_from_source("/dev/nvme0n1p2[/@]"), Some("nvme0n1p2".to_string()));
    assert_eq!(root_device_from_source("/dev/mapper/root"), Some("mapper".to_string()));
    assert_eq!(root_device_from_source("tmpfs"), None);
    let df = "Size Used Avail Mounted on\n 100G  40G   60G /\n";
    assert_eq!(df_usage(df), ("40G".to_string(), "60G".to_string()));
    assert_eq!(df_usage("only one line"), ("?".to_string(), "?".to_string()));
}

#[test]
fn hardware_summary_text() {
    let devices = vec![
        BlockDevice {
            name: "nvme0n1".to_string(),
            size: "1T".to_string(),
            dev_type: "disk".to_string(),
            children: vec![BlockPartition { name: "nvme0n1p2".to_string(), size: "900G".to_string() }],
        },
        BlockDevice { name: "sdb".to_string(), size: "2T".to_string(), dev_type: "disk".to_string(), children: vec![] },
        BlockDevice { name: "sr0".to_string(), size: "1G".to_string(), dev_type: "rom".to_string(), children: vec![] },
        BlockDevice { name: "sdc".to_string(), size: "8G".to_string(), dev_type: "disk".to_string(), children: vec![] },
    ];
    let df = "Size Used Avail Mounted on\n1T 40G 60G /\n";
    assert_eq!(
        hardware_summary("Ryzen", "16", "15.55 GiB", &"nvme0n1p2".to_string(), &devices, df),
        "CPU: Ryzen | Cores: 16 | RAM: 15.55 GiB | Main Storage: nvme0n1p2 (900G) Used: 40G Free: 60G\nOther Devices: sdb (2T), sdc (8G)"
    );
    assert_eq!(
        hardware_summary("c", "1", "Unknown", &"Unknown".to_string(), &Vec::new(), ""),
        "CPU: c | Cores: 1 | RAM: Unknown | Main Storage: Unknown\n"
    );
}

#[test]
fn power_lines() {
    assert_eq!(battery_summary(0, "Charging\n", " 87\n"), "Battery 0: Charging (87%)");
    assert_eq!(ac_summary(Some("1\n")), "AC: Connected");
    assert_eq!(ac_summary(Some("0")), "AC: Disconnected");
    assert_eq!(ac_summary(Some("x")), "AC: Unknown");
    assert_eq!(ac_summary(None), "AC: Unknown");
    assert_eq!(ac_state("1\n"), "Connected (Charging)");
    assert_eq!(ac_state("0"), "Disconnected (On battery)");
    assert_eq!(ac_state("?"), "Unknown");
    assert_eq!(power_summary(&Vec::new(), "AC: Unknown"), "Battery: Not detected | AC: Unknown");
    assert_eq!(
        power_summary(&vec!["Battery 0: Full (100%)".to_string(), "Battery 1: Low (5%)".to_string()], "AC: Connected"),
        "Battery 0: Full (100%) | Battery 1: Low (5%) | AC: Connected"
    );
}

#[test]
fn package_check_decisions() {
    assert!(orphans_found(PackageManager::Pacman, "foo\nbar\n"));
    assert!(!orphans_found(PackageManager::Pacman, "  \n"));
    assert!(orphans_found(PackageManager::Apt, "The following packages will be REMOVED:\n  x"));
    assert!(!orphans_found(PackageManager::Apt, "0 upgraded"));
    assert!(!orphans_found(PackageManager::Emerge, "Nothing to clean"));
    assert!(updates_available(PackageManager::Apt, "Listing...\nfoo/stable 1.0"));
    assert!(!updates_available(PackageManager::Apt, "Listing...\n"));
    assert!(updates_available(PackageManager::Dnf, "Last metadata expiration check: 0:01:00 ago"));
    assert!(!updates_available(PackageManager::Zypper, "No updates found."));
    assert!(!updates_available(PackageManager::Emerge, "Total: 0 packages"));
    assert!(!updates_available(PackageManager::Pacman, ""));
    assert_eq!(orphan_list(" a \n\nb\n"), vec!["a".to_string(), "b".to_string()]);
    assert!(confirms(" Y\n"));
    assert!(confirms("y"));
    assert!(!confirms("yes"));
}

#[test]
fn installed_kernel_summary() {
    let installed = vec!["6.1.0-lts".to_string(), "6.15.2-2-cachyos".to_string()];
    assert_eq!(
        kernel_summary("6.15.2-2-cachyos", &installed),
        "Kernel: 6.15.2-2-cachyos\nInstalled Kernels:\n  - 6.1.0-lts\n  * 6.15.2-2-cachyos (running)"
    );
}

fn float_text(kib: u64) -> String {
    if kib >= 1024 * 1024 {
        format!("{:.2} GiB", kib as f64 / 1024.0 / 1024.0)
    } else {
        format!("{:.2} MiB", kib as f64 / 1024.0)
    }
}

#[test]
fn memory_amounts_match_float_formatting() {
    assert_eq!(format_mem_kib(16303500), "15.55 GiB");
    assert_eq!(format_mem_kib(512), "0.50 MiB");
    assert_eq!(format_mem_kib(0), "0.00 MiB");
    assert_eq!(format_mem_kib(1024 * 1024), "1.00 GiB");
    let mut samples: Vec<u64> = vec![
        1, 5, 128, 384, 640, 1023, 1024, 1048575, 1048576, 1048577, 5242880, 16303500,
        u64::MAX, u64::MAX - 1, 1 << 53, (1 << 53) + 1, (1 << 54) + 2, (1 << 54) + 6,
        (1 << 60) + 12345, 9007199254740993, 18014398509481985,
    ];
    for k in 0..2000u64 {
        samples.push(k * 64);
        samples.push(1048576 + k * 131072);
        samples.push(k.wrapping_mul(0x9E37_79B9_7F4A_7C15));
    }
    for kib in samples {
        assert_eq!(format_mem_kib(kib), float_text(kib), "kib = {}", kib);
    }
}
