use fluxcut::config::ThemePreference;
use fluxcut::diagnostics::{kernel_summary, os_pretty_name, DiagnosticReport};
use fluxcut::schema::CanvasRatio;
use fluxcut::hardware::{dri_node_paths, vaapi_driver_names, vulkan_manifest_names, GpuCapabilities};
use fluxcut::text::{dedup_strings, ends_with, sort_strings, starts_with, str_lex_le};

fn strings(v: &[&str]) -> Vec<String> {
    v.iter().map(|s| s.to_string()).collect()
}

#[test]
fn pretty_name_from_os_release() {
    let text = "NAME=\"Ubuntu\"\nPRETTY_NAME=\"Ubuntu 24.04 LTS\"\nID=ubuntu\n";
    assert_eq!(os_pretty_name(text), Some("Ubuntu 24.04 LTS".to_string()));
    assert_eq!(
        os_pretty_name("PRETTY_NAME=\"Fedora Linux 40\"\r\nVERSION=40\r\n"),
        Some("Fedora Linux 40".to_string())
    );
    assert_eq!(os_pretty_name("NAME=Arch\nID=arch\n"), None);
    assert_eq!(os_pretty_name(""), None);
    assert_eq!(
        os_pretty_name("PRETTY_NAME=PRETTY_NAME=x"),
        Some("x".to_string())
    );
    assert_eq!(os_pretty_name("PRETTY_NAME=\"\"\"\""), Some(String::new()));
}

#[test]
fn kernel_words_of_proc_version() {
    assert_eq!(
        kernel_summary("Linux version 6.8.0-31-generic (buildd@lcy02) #31-Ubuntu SMP\n"),
        "Linux version 6.8.0-31-generic"
    );
    assert_eq!(kernel_summary("  a\tb "), "a b");
    assert_eq!(kernel_summary(""), "");
    assert_eq!(kernel_summary("x\u{3000}y\u{a0}z w"), "x y z");
}

#[test]
fn report_from_environment() {
    let r = DiagnosticReport::from_environment(
        Some("PRETTY_NAME=\"Debian GNU/Linux 12\"\n".to_string()),
        "linux",
        None,
        None,
        Some(":0".to_string()),
        Some("x11".to_string()),
        None,
        "0.1.0",
    );
    assert_eq!(r.os_name, "Debian GNU/Linux 12");
    assert_eq!(r.kernel_version, "Unknown Kernel");
    assert_eq!(r.application_version, "0.1.0");
    assert!(!r.is_wayland_active());
    let md = r.format_markdown();
    assert!(md.contains("FluxCut Diagnostic Report"));
    let fallback = DiagnosticReport::from_environment(
        Some("ID=x\n".to_string()),
        "linux",
        Some("Linux version 6.1".to_string()),
        Some("wayland-0".to_string()),
        None,
        None,
        None,
        "0.1.0",
    );
    assert_eq!(fallback.os_name, "linux");
    assert_eq!(fallback.kernel_version, "Linux version 6.1");
    assert!(fallback.is_wayland_active());
}

#[test]
fn drm_nodes_are_filtered_and_sorted() {
    let entries = vec![
        ("card1".to_string(), "/dev/dri/card1".to_string()),
        ("by-path".to_string(), "/dev/dri/by-path".to_string()),
        ("renderD128".to_string(), "/dev/dri/renderD128".to_string()),
        ("card0".to_string(), "/dev/dri/card0".to_string()),
    ];
    assert_eq!(
        dri_node_paths(entries),
        strings(&["/dev/dri/card0", "/dev/dri/card1", "/dev/dri/renderD128"])
    );
}

#[test]
fn manifests_and_drivers_are_sorted_without_repeats() {
    assert_eq!(
        vulkan_manifest_names(strings(&[
            "radeon_icd.x86_64.json",
            "README",
            "intel_icd.x86_64.json",
            "radeon_icd.x86_64.json",
        ])),
        strings(&["intel_icd.x86_64.json", "radeon_icd.x86_64.json"])
    );
    assert_eq!(
        vaapi_driver_names(strings(&["iHD_drv_video.so", "libfoo.so", "i965_drv_video.so"])),
        strings(&["i965_drv_video.so", "iHD_drv_video.so"])
    );
}

#[test]
fn capabilities_from_listing() {
    let caps = GpuCapabilities::from_listing(
        None,
        Some("Wayland".to_string()),
        vec![("renderD128".to_string(), "/dev/dri/renderD128".to_string())],
        strings(&["a.json"]),
        Vec::new(),
    );
    assert!(caps.wayland_available);
    assert!(caps.dri_available);
    assert!(caps.vulkan_icd_available);
    assert!(!caps.vaapi_available);
    assert!(caps.dmabuf_available);
    assert_eq!(caps.dri_nodes, strings(&["/dev/dri/renderD128"]));
}

#[test]
fn string_helpers() {
    assert!(starts_with("renderD128", "renderD"));
    assert!(!starts_with("card", "cards"));
    assert!(ends_with("x.json", ".json"));
    assert!(!ends_with("json", ".json"));
    assert!(str_lex_le("abc", "abd"));
    assert!(str_lex_le("ab", "abc"));
    assert!(!str_lex_le("b", "abc"));
    assert!(str_lex_le("", ""));
    let mut v = strings(&["b", "a", "c", "a"]);
    sort_strings(&mut v);
    assert_eq!(v, strings(&["a", "a", "b", "c"]));
    assert_eq!(dedup_strings(v), strings(&["a", "b", "c"]));
}

#[test]
fn capabilities_dialog_rows() {
    let caps = GpuCapabilities::from_probe(
        true,
        vec!["/dev/dri/card0".to_string(), "/dev/dri/renderD128".to_string()],
        vec!["a.json".to_string(), "b.json".to_string()],
        Vec::new(),
    );
    let rows = caps.dialog_rows("Fedora Linux 40", &None);
    assert_eq!(rows.len(), 7);
    assert_eq!(rows[0].subtitle, "Fedora Linux 40");
    assert_eq!(rows[1].subtitle, "Active (Wayland native)");
    assert_eq!(rows[1].icon, "emblem-default-symbolic");
    assert_eq!(rows[2].subtitle, "Unknown");
    assert_eq!(rows[3].subtitle, "2 device nodes available");
    assert_eq!(rows[4].subtitle, "ICD manifests: a.json, b.json");
    assert_eq!(
        rows[5].subtitle,
        "No VA-API drivers found (Software fallback will be used)"
    );
    assert_eq!(rows[6].title, "DMA-BUF Zero-Copy Presentation");
    assert_eq!(
        rows[6].subtitle,
        "Eligible for GdkDmabufTextureBuilder zero-copy direct scanout"
    );
    let none = GpuCapabilities::from_probe(false, Vec::new(), Vec::new(), Vec::new());
    let rows = none.dialog_rows("linux", &Some("x11".to_string()));
    assert_eq!(rows[1].subtitle, "Inactive (X11 fallback session)");
    assert_eq!(rows[2].subtitle, "x11");
    assert_eq!(rows[3].subtitle, "No DRI nodes detected in /dev/dri");
    assert_eq!(rows[4].subtitle, "No Vulkan ICD manifests detected");
}

#[test]
fn preference_choice_positions() {
    assert_eq!(ThemePreference::System.choice_index(), 0);
    assert_eq!(ThemePreference::Dark.choice_index(), 2);
    assert_eq!(CanvasRatio::Classic4x3.preset_index(), 3);
    assert_eq!(CanvasRatio::Custom { width: 10, height: 20 }.preset_index(), 0);
}

#[test]
fn test_diagnostic_report_collection() {
    let report = DiagnosticReport::from_environment(
        None,
        "linux",
        None,
        None,
        None,
        None,
        None,
        "0.1.0",
    );
    assert!(!report.os_name.is_empty());
    assert!(!report.application_version.is_empty());
    let md = report.format_markdown();
    assert!(md.contains("FluxCut Diagnostic Report"));
}
