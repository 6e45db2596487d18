use fluxcut::export::{check_exportable, choose_export_mode, frame_fill, video_covers, ExportError, ExportMode};
use fluxcut::history::ProjectHistory;
use fluxcut::import::asset_reference;
use fluxcut::media::{AudioStreamInfo, IngestRequest, MediaMetadata, VideoStreamInfo};
use fluxcut::schema::{AssetReference, ClipDefinition, Project};
use fluxcut::time::TimeRational;

fn secs(t: TimeRational) -> f64 {
    t.num as f64 / t.den as f64
}

fn from_secs(seconds: f64, timebase: u32) -> TimeRational {
    TimeRational::new((seconds * timebase as f64).round() as i64, timebase)
}

fn video_metadata(seconds: f64) -> MediaMetadata {
    MediaMetadata {
        format_name: "mov,mp4".to_string(),
        duration: from_secs(seconds, 1000),
        video: Some(VideoStreamInfo {
            codec: "h264".to_string(),
            width: 1280,
            height: 720,
            frame_rate: TimeRational::new(25, 1),
            pixel_format: "yuv420p".to_string(),
        }),
        audio: Some(AudioStreamInfo {
            codec: "aac".to_string(),
            sample_rate: 48000,
            channels: 2,
            channel_layout: "stereo".to_string(),
        }),
    }
}

fn audio_metadata(seconds: f64) -> MediaMetadata {
    MediaMetadata {
        format_name: "mp3".to_string(),
        duration: from_secs(seconds, 1000),
        video: None,
        audio: Some(AudioStreamInfo {
            codec: "mp3".to_string(),
            sample_rate: 44100,
            channels: 2,
            channel_layout: "stereo".to_string(),
        }),
    }
}

#[test]
fn asset_record_from_metadata() {
    let a: AssetReference = asset_reference("asset_1_2", "/m/a.mp4", "a.mp4", &video_metadata(3.0));
    assert_eq!(a.id, "asset_1_2");
    assert_eq!(a.file_path, "/m/a.mp4");
    assert_eq!(a.width, Some(1280));
    assert_eq!(a.height, Some(720));
    assert!(a.has_audio && a.has_video);
    let b = asset_reference("b", "/m/b.mp3", "b.mp3", &audio_metadata(1.0));
    assert_eq!(b.width, None);
    assert!(!b.has_video);
    let mut p = Project::default();
    p.register_asset("b", "/m/b.mp3", "b.mp3", &audio_metadata(1.0));
    assert_eq!(p.assets.len(), 1);
    assert_eq!(p.assets[0].display_name, "b.mp3");
}

#[test]
fn first_clip_sets_canvas_and_places_clip() {
    let mut p = Project::default();
    let mut h = ProjectHistory::default();
    assert!(p.place_first_clip(&mut h, "asset_9", &video_metadata(4.0), 25));
    assert_eq!((p.settings.width, p.settings.height), (1280, 720));
    assert_eq!((p.settings.fps_num, p.settings.fps_den), (25, 1));
    assert_eq!(p.tracks[0].clips.len(), 1);
    assert_eq!(p.tracks[0].clips[0].id, "clip_asset_9_0");
    assert_eq!(secs(p.tracks[0].clips[0].out_point), 4.0);
    assert_eq!(h.undo_description(), Some("Add First Clip"));
    assert!(!p.place_first_clip(&mut h, "asset_10", &video_metadata(1.0), 30));
    assert_eq!(p.tracks[0].clips.len(), 1);
    assert_eq!(p.settings.fps_num, 25);
}

#[test]
fn first_audio_clip_goes_to_audio_track() {
    let mut p = Project::default();
    let mut h = ProjectHistory::default();
    assert!(p.place_first_clip(&mut h, "snd", &audio_metadata(2.0), 0));
    assert_eq!((p.settings.width, p.settings.height), (1920, 1080));
    assert!(p.tracks[0].clips.is_empty());
    assert_eq!(p.tracks[1].clips[0].id, "clip_snd_0");
}

#[test]
fn appended_clips_follow_the_last_clip_of_their_track() {
    let mut p = Project::default();
    let mut h = ProjectHistory::default();
    p.append_asset_clip(&mut h, "v", from_secs(3.0, 1000), true).unwrap();
    assert_eq!(p.tracks[0].clips[0].id, "clip_v_0");
    assert!(p.tracks[0].clips[0].timeline_start.is_zero());
    p.append_asset_clip(&mut h, "v", from_secs(2.0, 1000), true).unwrap();
    assert_eq!(p.tracks[0].clips[1].id, "clip_v_3");
    assert_eq!(secs(p.tracks[0].clips[1].timeline_start), 3.0);
    p.append_asset_clip(&mut h, "a", from_secs(1.0, 1000), false).unwrap();
    assert_eq!(p.tracks[1].clips[0].id, "clip_a_5");
    assert!(p.tracks[1].clips[0].timeline_start.is_zero());
    assert_eq!(h.undo_description(), Some("Add Clip to Timeline"));
    assert!(h.undo(&mut p));
    assert!(p.tracks[1].clips.is_empty());
}

#[test]
fn export_decisions() {
    let mut p = Project::new("Export");
    assert_eq!(check_exportable(&p), Err(ExportError::EmptyProject));
    p.tracks[0].clips.push(ClipDefinition::new("c", "asset-1", TimeRational::zero(), TimeRational::new(1, 1000)));
    assert_eq!(check_exportable(&p), Err(ExportError::EmptyProject));
    p.tracks[0].clips[0].out_point = TimeRational::new(2, 1000);
    assert_eq!(check_exportable(&p), Ok(()));
    let (mode, source) = choose_export_mode(&p);
    assert_eq!(mode, ExportMode::Transcode);
    assert!(source.is_none());
    p.assets.push(AssetReference {
        id: "asset-1".to_string(),
        file_path: "/m/x.mp4".to_string(),
        display_name: "x.mp4".to_string(),
        duration: from_secs(1.0, 1000),
        width: None,
        height: None,
        has_audio: false,
        has_video: true,
    });
    let (mode, source) = choose_export_mode(&p);
    assert_eq!(mode, ExportMode::FastPathRemux);
    assert_eq!(source.unwrap().0, "/m/x.mp4");
}

#[test]
fn frames_show_video_where_clips_play() {
    let mut p = Project::new("Frames");
    p.tracks[0].clips.push(ClipDefinition::new("c", "a", from_secs(1.0, 1000), from_secs(2.0, 1000)));
    p.tracks[1].clips.push(ClipDefinition::new("m", "a", TimeRational::zero(), from_secs(10.0, 1000)));
    assert!(!video_covers(&p, from_secs(0.5, 1000)));
    assert!(video_covers(&p, from_secs(1.0, 1000)));
    assert!(video_covers(&p, from_secs(2.999, 1000)));
    assert!(!video_covers(&p, from_secs(3.0, 1000)));
    assert_eq!(frame_fill(true), (180, 140, 120));
    assert_eq!(frame_fill(false), (16, 128, 128));
}

#[test]
fn ingest_cache_keys() {
    let req = IngestRequest {
        asset_id: "asset_1700000000_2048".to_string(),
        path: "/m/clip.mp4".to_string(),
        modified_timestamp: 1700000000,
        file_size: 2048,
        extract_thumbnail: true,
        extract_waveform: true,
    };
    assert_eq!(
        req.thumbnail_key(),
        "5bef241472f2827b5ee7d9435262b32cc485198282b64311b6853d930a4dcd18"
    );
    assert_eq!(
        req.waveform_key(),
        "b9aba51b3979802b1e6a1ab5c1b7e731dd45d0b2902e5d6e88383a90445ac827"
    );
}
