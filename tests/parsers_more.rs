use kindling::collector::{extract_proc_field, parse_os_release_field, parse_vm_stat_field};
use kindling::config::{local_config_path, system_config_path, user_config_path};
use kindling::format::{decimal, fmt_uptime};
use kindling::identity::{
    default_protocol, default_secrets_provider, default_shell, default_ssh_user,
    default_trusted_users,
};
use kindling::text::{contains, trim_by, trim_end_char};

#[test]
fn uptime_rendering() {
    assert_eq!(fmt_uptime(0), "0m");
    assert_eq!(fmt_uptime(59), "0m");
    assert_eq!(fmt_uptime(3 * 3600 + 4 * 60), "3h 4m");
    assert_eq!(fmt_uptime(2 * 86400 + 5 * 60), "2d 0h 5m");
    assert_eq!(decimal(0), "0");
    assert_eq!(decimal(u64::MAX), "18446744073709551615");
}

#[test]
fn cpuinfo_fields() {
    let c = "processor\t: 0\nvendor_id\t: GenuineIntel\nmodel name\t: Intel(R) Core(TM) i7\n";
    assert_eq!(extract_proc_field(c, "model name"), Some("Intel(R) Core(TM) i7".to_string()));
    assert_eq!(extract_proc_field(c, "vendor_id"), Some("GenuineIntel".to_string()));
    assert_eq!(extract_proc_field(c, "flags"), None);
    assert_eq!(extract_proc_field("cache size 8 MB\n", "cache size"), None);
}

#[test]
fn os_release_fields() {
    let c = "NAME=\"NixOS\"\nID=nixos\nVERSION_ID=\"24.05\"\nPRETTY_NAME=\"NixOS 24.05 (Uakari)\"\n";
    assert_eq!(parse_os_release_field(c, "NAME"), Some("NixOS".to_string()));
    assert_eq!(parse_os_release_field(c, "ID"), Some("nixos".to_string()));
    assert_eq!(parse_os_release_field(c, "VERSION_ID"), Some("24.05".to_string()));
    assert_eq!(parse_os_release_field(c, "BUILD_ID"), None);
    assert_eq!(parse_os_release_field("X=a=b\n", "X"), Some("a".to_string()));
}

#[test]
fn vm_stat_counts() {
    let out = "Mach Virtual Memory Statistics: (page size of 16384 bytes)\nPages free:                               12345.\nPages active:                            678.\n";
    assert_eq!(parse_vm_stat_field(out, "Pages free"), 12345);
    assert_eq!(parse_vm_stat_field(out, "Pages active"), 678);
    assert_eq!(parse_vm_stat_field(out, "Pages wired"), 0);
}

#[test]
fn trimming_and_search() {
    assert_eq!(trim_by("  a b \t", None), "a b");
    assert_eq!(trim_by("\"q\"", Some('"')), "q");
    assert_eq!(trim_end_char(".5..", '.'), ".5");
    assert!(contains("Pages free: 1", "free"));
    assert!(!contains("Pages", "free"));
    assert!(contains("x", ""));
}

#[test]
fn schema_and_file_defaults() {
    assert_eq!(default_shell(), "blzsh");
    assert_eq!(default_secrets_provider(), "sops");
    assert_eq!(default_trusted_users(), vec!["root".to_string()]);
    assert_eq!(default_protocol(), "http");
    assert_eq!(default_ssh_user(), "root");
    assert_eq!(system_config_path(), "/etc/kindling/config.yaml");
    assert_eq!(local_config_path(), ".kindling.yaml");
    assert!(user_config_path().ends_with("/kindling/config.yaml"));
}
