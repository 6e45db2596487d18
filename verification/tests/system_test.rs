use fluxcut::cache::{prune_to_budget, pruning_order, CacheError, DiskCacheManager};
use fluxcut::dirs::{app_identity, cache_dir_for};
use std::cell::RefCell;
use fluxcut::config::{AppConfig, ThemePreference};
use fluxcut::diagnostics::{str_eq_ignore_ascii_case, DiagnosticReport};
use fluxcut::error::ProjectError;
use fluxcut::hardware::GpuCapabilities;
use fluxcut::media::{AssetStatus, MediaAsset};
use fluxcut::schema::CanvasRatio;
use std::time::Instant;

#[test]
fn test_app_config_defaults() {
    let cfg = AppConfig::default();
    assert_eq!(cfg.theme, ThemePreference::Dark);
    assert!(cfg.hardware_accel_enabled);
    assert_eq!(cfg.autosave_interval_seconds, 60);
}

#[test]
fn app_config_default_canvas_and_cache() {
    let cfg = AppConfig::default();
    assert_eq!(cfg.default_canvas, CanvasRatio::Landscape16x9);
    assert!(cfg.custom_cache_dir.is_none());
}

#[test]
fn config_file_inside_config_directory() {
    assert_eq!(
        AppConfig::config_file_in(Some("/home/u/.config/fluxcut".to_string())),
        Ok("/home/u/.config/fluxcut/config.json".to_string())
    );
    assert_eq!(
        AppConfig::config_file_in(Some("/cfg/".to_string())),
        Ok("/cfg/config.json".to_string())
    );
    assert_eq!(
        AppConfig::config_file_in(None),
        Err(ProjectError::ConfigDirectoryUnavailable)
    );
    match AppConfig::config_file_path() {
        Ok(p) => assert!(p.ends_with("/FluxCut/config.json")),
        Err(e) => assert_eq!(e, ProjectError::ConfigDirectoryUnavailable),
    }
}

#[test]
fn test_hardware_probe_does_not_panic() {
    let caps = GpuCapabilities::from_probe(false, Vec::new(), Vec::new(), Vec::new());
    let summary = caps.summary_markdown();
    assert!(summary.contains("Hardware & GPU Capabilities"));
}

#[test]
fn bench_hardware_startup_latency() {
    let t0 = Instant::now();
    let caps = GpuCapabilities::from_probe(
        true,
        vec!["/dev/dri/renderD128".to_string()],
        vec!["intel_icd.x86_64.json".to_string()],
        vec!["iHD_drv_video.so".to_string()],
    );
    let elapsed = t0.elapsed();

    println!(
        "\n[BENCHMARK] Hardware capability probe: {:?} (Budget: < 100ms)",
        elapsed
    );
    assert!(
        elapsed.as_millis() < 500,
        "Startup capability probe took too long: {:?}",
        elapsed
    );
    assert!(
        caps.vulkan_icd_available
            || caps.vaapi_available
            || caps.dmabuf_available
            || !caps.wayland_available
    );
}

#[test]
fn capabilities_follow_what_the_probe_found() {
    let none = GpuCapabilities::from_probe(true, Vec::new(), Vec::new(), vec!["x.so".to_string()]);
    assert!(!none.dri_available);
    assert!(!none.vaapi_available);
    assert!(!none.dmabuf_available);
    let dri = GpuCapabilities::from_probe(false, vec!["/dev/dri/card0".to_string()], Vec::new(), Vec::new());
    assert!(dri.dri_available);
    assert!(!dri.dmabuf_available);
    let full = GpuCapabilities::from_probe(
        false,
        vec!["/dev/dri/card0".to_string()],
        Vec::new(),
        vec!["radeonsi_drv_video.so".to_string()],
    );
    assert!(full.vaapi_available);
    assert!(full.dmabuf_available);
    let md = full.summary_markdown();
    assert!(md.contains("radeonsi_drv_video.so"));
    assert!(md.contains("(1 nodes found)"));
    assert!(md.contains("Supported (Zero-copy eligible)"));
}

fn report(wayland: Option<&str>, session: Option<&str>) -> DiagnosticReport {
    DiagnosticReport {
        os_name: "linux".to_string(),
        kernel_version: "6.8.0".to_string(),
        wayland_display: wayland.map(|s| s.to_string()),
        x11_display: None,
        session_type: session.map(|s| s.to_string()),
        desktop_session: Some("GNOME".to_string()),
        rustc_version: "1.80".to_string(),
        application_version: "0.1.0".to_string(),
    }
}

#[test]
fn wayland_detection() {
    assert!(report(Some("wayland-0"), None).is_wayland_active());
    assert!(report(None, Some("WayLand")).is_wayland_active());
    assert!(!report(None, Some("x11")).is_wayland_active());
    assert!(!report(None, None).is_wayland_active());
    assert!(str_eq_ignore_ascii_case("ABC", "abc"));
    assert!(!str_eq_ignore_ascii_case("ab", "abc"));
}

#[test]
fn diagnostic_markdown() {
    let md = report(None, Some("x11")).format_markdown();
    assert_eq!(
        md,
        "# FluxCut Diagnostic Report\n- **OS:** linux\n- **Kernel:** 6.8.0\n- **Wayland Display:** None\n- **X11 Display:** None\n- **Session Type:** x11\n- **Desktop Environment:** GNOME\n- **App Version:** 0.1.0\n"
    );
}

#[test]
fn cache_key_is_sha256_of_file_attributes() {
    let key = DiskCacheManager::generate_key("/mock/video.mp4", 123456, 999999, "thumb_w160_t1000");
    assert_eq!(
        key,
        "a178a33fa4e2c24084068eff9b24d601c8fe97d83829467924741f606cd3d31a"
    );
    assert_eq!(
        DiskCacheManager::generate_key("", 0, 0, ""),
        "374708fff7719dd5979ec875d56cd2286f6d3cf7ec317a3b25632aab28ec37bb"
    );
    let other = DiskCacheManager::generate_key("/mock/video.mp4", 123457, 999999, "thumb_w160_t1000");
    assert_ne!(key, other);
    assert_eq!(key.len(), 64);
}

#[test]
fn cache_layout_and_artifact_paths() {
    let c = DiskCacheManager::with_layout("/tmp/cache");
    assert_eq!(c.base_dir(), "/tmp/cache");
    assert_eq!(c.thumbnails_dir(), "/tmp/cache/thumbnails");
    assert_eq!(c.waveforms_dir(), "/tmp/cache/waveforms");
    assert_eq!(c.thumbnail_path("k1"), "/tmp/cache/thumbnails/k1.bin");
    assert_eq!(c.waveform_path("k2"), "/tmp/cache/waveforms/k2.bin");
    match DiskCacheManager::layout_in(None) {
        Err(e) => assert_eq!(e, CacheError::DirectoryUnavailable),
        Ok(_) => panic!("a layout without a directory"),
    }
    let l = DiskCacheManager::layout_in(Some("/x/".to_string())).unwrap();
    assert_eq!(l.thumbnails_dir(), "/x/thumbnails");
    if let Ok(d) = DiskCacheManager::default_layout() {
        assert!(d.thumbnails_dir().ends_with("thumbnails"));
        assert!(d.base_dir().ends_with("fluxcut"));
    }
}

#[test]
fn pruning_oldest_first() {
    assert_eq!(pruning_order(&vec![300, 100, 200]), vec![1, 2, 0]);
    assert_eq!(pruning_order(&vec![5, 5, 1, 5]), vec![2, 0, 1, 3]);
    assert!(pruning_order(&Vec::new()).is_empty());
}

#[test]
fn three_thumbnails_pruned_to_budget() {
    let sizes = vec![100u64, 100, 100];
    let modified = vec![30u128, 10, 20];
    let removed = RefCell::new(Vec::new());
    let freed = prune_to_budget(&sizes, &modified, 150, |i| {
        removed.borrow_mut().push(i);
        true
    });
    assert!(freed >= 100);
    assert!(300 - freed <= 150);
    assert_eq!(*removed.borrow(), vec![1, 2]);
}

#[test]
fn pruning_stops_at_the_byte_budget() {
    let sizes = vec![100u64, 50, 200, 10];
    let modified = vec![4u128, 1, 3, 2];
    // Oldest first: files 1 (50), 3 (10), 2 (200), 0 (100); 360 bytes in all.
    let removed = RefCell::new(Vec::new());
    let freed = prune_to_budget(&sizes, &modified, 150, |i| {
        removed.borrow_mut().push(i);
        true
    });
    assert_eq!(freed, 260);
    assert_eq!(*removed.borrow(), vec![1, 3, 2]);
    // Within the budget nothing is removed.
    let untouched = RefCell::new(0);
    assert_eq!(
        prune_to_budget(&sizes, &modified, 360, |_| {
            *untouched.borrow_mut() += 1;
            true
        }),
        0
    );
    assert_eq!(*untouched.borrow(), 0);
    // A failed removal frees nothing and pruning goes on with the next file.
    let tried = RefCell::new(Vec::new());
    let freed = prune_to_budget(&sizes, &modified, 150, |i| {
        tried.borrow_mut().push(i);
        i != 3
    });
    assert_eq!(freed, 250);
    assert_eq!(*tried.borrow(), vec![1, 3, 2]);
    assert_eq!(DiskCacheManager::DEFAULT_MAX_CACHE_BYTES, 500 * 1024 * 1024);
}

#[test]
fn pending_media_asset() {
    let a = MediaAsset::pending("/m/clip.mp4", Some("clip.mp4".to_string()), 2048, 1700000000);
    assert_eq!(a.id, "asset_1700000000_2048");
    assert_eq!(a.file_name, "clip.mp4");
    assert_eq!(a.status, AssetStatus::Pending);
    assert!(!a.is_ready());
    let b = MediaAsset::pending("/", None, 0, 0);
    assert_eq!(b.file_name, "unnamed_media");
    assert_eq!(b.id, "asset_0_0");
}

#[test]
fn application_directories_are_named_after_the_application() {
    assert_eq!(app_identity(), ("org", "fluxcut", "FluxCut"));
    if let Some(d) = cache_dir_for("com", "Foo Corp", "Bar App") {
        assert!(d.ends_with("barapp"));
    }
    if let Some(d) = cache_dir_for("org", "fluxcut", "FluxCut") {
        assert!(d.ends_with("fluxcut"));
    }
}
