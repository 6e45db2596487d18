use fluxcut::export::{can_fast_path_remux, project_has_audible_content, ExportMode};
use fluxcut::schema::{AssetReference, ClipDefinition, Project};
use fluxcut::time::TimeRational;

fn from_secs(seconds: f64, timebase: u32) -> TimeRational {
    TimeRational::new((seconds * timebase as f64).round() as i64, timebase)
}

fn asset(id: &str, w: u32, h: u32) -> AssetReference {
    AssetReference {
        id: id.to_string(),
        file_path: format!("/media/{}.mp4", id),
        display_name: format!("{}.mp4", id),
        duration: from_secs(10.0, 1000),
        width: Some(w),
        height: Some(h),
        has_audio: true,
        has_video: true,
    }
}

#[test]
fn export_mode_labels() {
    assert_eq!(ExportMode::FastPathRemux.label(), "Fast-Path Stream Copy (Lossless Remux)");
    assert_eq!(ExportMode::Transcode.label(), "H.264 Video Transcode");
}

#[test]
fn single_plain_clip_is_remuxed() {
    let mut p = Project::new("Remux");
    p.assets.push(asset("asset-1", 1920, 1080));
    let mut c = ClipDefinition::new("c", "asset-1", TimeRational::zero(), from_secs(3.0, 1000));
    c.in_point = from_secs(1.0, 1000);
    c.out_point = from_secs(4.0, 1000);
    p.tracks[0].clips.push(c);
    let (path, inp, out) = can_fast_path_remux(&p).unwrap();
    assert_eq!(path, "/media/asset-1.mp4");
    assert_eq!(inp, from_secs(1.0, 1000));
    assert_eq!(out, from_secs(4.0, 1000));
}

#[test]
fn remux_refused_when_something_needs_rendering() {
    let mut p = Project::new("No remux");
    p.assets.push(asset("asset-1", 1280, 720));
    p.tracks[0].clips.push(ClipDefinition::new("c", "asset-1", TimeRational::zero(), from_secs(3.0, 1000)));
    assert!(can_fast_path_remux(&p).is_none());
    p.assets[0].width = Some(1920);
    p.assets[0].height = Some(1080);
    assert!(can_fast_path_remux(&p).is_some());
    p.tracks[1].clips.push(ClipDefinition::new("m", "asset-1", TimeRational::zero(), from_secs(3.0, 1000)));
    assert!(can_fast_path_remux(&p).is_none());
    p.tracks[1].clips.clear();
    p.tracks[0].clips[0].speed_milli = 2000;
    assert!(can_fast_path_remux(&p).is_none());
}

#[test]
fn audible_content() {
    let mut p = Project::new("Audio");
    assert!(!project_has_audible_content(&p));
    p.tracks[0].clips.push(ClipDefinition::new("v", "a", TimeRational::zero(), from_secs(1.0, 1000)));
    assert!(project_has_audible_content(&p));
    p.tracks[0].clips[0].muted = true;
    assert!(!project_has_audible_content(&p));
    p.tracks[1].clips.push(ClipDefinition::new("m", "a", TimeRational::zero(), from_secs(1.0, 1000)));
    assert!(project_has_audible_content(&p));
    p.tracks[1].muted = true;
    assert!(!project_has_audible_content(&p));
}
