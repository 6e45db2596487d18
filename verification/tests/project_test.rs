use fluxcut::error::ProjectError;
use fluxcut::history::ProjectHistory;
use fluxcut::schema::{
    CanvasRatio, ClipDefinition, Project, TrackDefinition, TrackKind, CURRENT_FORMAT_VERSION,
};
use fluxcut::time::TimeRational;
use std::time::Instant;

fn secs(t: TimeRational) -> f64 {
    t.num as f64 / t.den as f64
}

fn from_secs(seconds: f64, timebase: u32) -> TimeRational {
    TimeRational::new((seconds * timebase as f64).round() as i64, timebase)
}

fn dummy_clip(id: &str, start_sec: f64, dur_sec: f64) -> ClipDefinition {
    ClipDefinition {
        id: id.to_string(),
        asset_id: "asset-1".to_string(),
        timeline_start: from_secs(start_sec, 1000),
        in_point: TimeRational::zero(),
        out_point: from_secs(dur_sec, 1000),
        volume_milli: 1000,
        muted: false,
        speed_milli: 1000,
        ..Default::default()
    }
}

#[test]
fn test_project_defaults() {
    let p = Project::default();
    assert_eq!(p.format_version, CURRENT_FORMAT_VERSION);
    assert_eq!(p.tracks.len(), 2);
    assert_eq!(p.settings.width, 1920);
    assert_eq!(p.settings.height, 1080);
}

#[test]
fn test_canvas_ratio_change() {
    let mut p = Project::default();
    p.set_canvas_ratio(CanvasRatio::Vertical9x16);
    assert_eq!(p.settings.width, 1080);
    assert_eq!(p.settings.height, 1920);
}

#[test]
fn test_undo_redo_lifecycle() {
    let mut p = Project::default();
    let mut history = ProjectHistory::new(10);

    assert!(!history.can_undo());
    assert!(!history.can_redo());

    history.commit(&p, "Change Canvas Ratio");
    p.set_canvas_ratio(CanvasRatio::Vertical9x16);
    assert_eq!(p.settings.width, 1080);
    assert!(history.can_undo());
    assert_eq!(history.undo_description(), Some("Change Canvas Ratio"));

    let undone = history.undo(&mut p);
    assert!(undone);
    assert_eq!(p.settings.width, 1920);
    assert!(history.can_redo());
    assert_eq!(history.redo_description(), Some("Change Canvas Ratio"));

    let redone = history.redo(&mut p);
    assert!(redone);
    assert_eq!(p.settings.width, 1080);
    assert!(!history.can_redo());
}

#[test]
fn test_add_and_split_clip() {
    let mut p = Project::default();
    let clip = dummy_clip("c1", 0.0, 10.0);
    p.add_clip("track-v1", clip).unwrap();

    assert_eq!(secs(p.total_duration()), 10.0);

    let split_time = from_secs(4.0, 1000);
    let (head, tail) = p.split_clip("c1", split_time).unwrap();

    assert_eq!(secs(head.timeline_start), 0.0);
    assert_eq!(secs(head.duration()), 4.0);

    assert_eq!(secs(tail.timeline_start), 4.0);
    assert_eq!(secs(tail.duration()), 6.0);

    let track = p.tracks.iter().find(|t| t.id == "track-v1").unwrap();
    assert_eq!(track.clips.len(), 2);
}

#[test]
fn test_trim_clip_start_and_end() {
    let mut p = Project::default();
    let clip = dummy_clip("c1", 2.0, 8.0);
    p.add_clip("track-v1", clip).unwrap();

    p.trim_clip_start("c1", from_secs(3.0, 1000)).unwrap();
    let (_, c) = p.find_clip("c1").unwrap();
    assert_eq!(secs(c.timeline_start), 3.0);
    assert_eq!(secs(c.in_point), 1.0);
    assert_eq!(secs(c.duration()), 7.0);

    p.trim_clip_end("c1", from_secs(7.0, 1000)).unwrap();
    let (_, c2) = p.find_clip("c1").unwrap();
    assert_eq!(secs(c2.timeline_end()), 7.0);
    assert_eq!(secs(c2.duration()), 4.0);
}

#[test]
fn test_ripple_delete() {
    let mut p = Project::default();
    p.add_clip("track-v1", dummy_clip("c1", 0.0, 5.0)).unwrap();
    p.add_clip("track-v1", dummy_clip("c2", 5.0, 5.0)).unwrap();
    p.add_clip("track-v1", dummy_clip("c3", 10.0, 4.0)).unwrap();

    p.ripple_delete_clip("c2").unwrap();

    let track = p.tracks.iter().find(|t| t.id == "track-v1").unwrap();
    assert_eq!(track.clips.len(), 2);
    assert_eq!(track.clips[1].id, "c3");
    assert_eq!(secs(track.clips[1].timeline_start), 5.0);
    assert_eq!(secs(p.total_duration()), 9.0);
}

#[test]
fn test_snap_time() {
    let mut p = Project::default();
    p.add_clip("track-v1", dummy_clip("c1", 5.0, 5.0)).unwrap();

    let threshold = from_secs(0.2, 1000);

    let s0 = p.snap_time(from_secs(0.1, 1000), threshold, None);
    assert_eq!(secs(s0), 0.0);

    let s5 = p.snap_time(from_secs(4.9, 1000), threshold, None);
    assert_eq!(secs(s5), 5.0);

    let s10 = p.snap_time(from_secs(10.15, 1000), threshold, None);
    assert_eq!(secs(s10), 10.0);

    let s_far = p.snap_time(from_secs(7.5, 1000), threshold, None);
    assert_eq!(secs(s_far), 7.5);
}

#[test]
fn bench_dense_timeline_operations_latency() {
    let mut project = Project::new("Dense Timeline Benchmark");

    for i in 0..1000 {
        let start = from_secs(i as f64 * 2.0, 1000);
        let clip = ClipDefinition::new(
            &format!("clip_{}", i),
            "asset_bench",
            start,
            from_secs(2.0, 1000),
        );
        project.tracks[0].clips.push(clip);
    }

    assert_eq!(project.tracks[0].clips.len(), 1000);

    let t0 = Instant::now();
    let dur = project.total_duration();
    let t_dur = t0.elapsed();
    assert_eq!(secs(dur), 2000.0);
    println!("[BENCHMARK] 1,000 clips total_duration: {:?}", t_dur);
    assert!(t_dur.as_millis() < 5, "total_duration too slow");

    let t0 = Instant::now();
    let threshold = from_secs(0.1, 1000);
    let snapped = project.snap_time(from_secs(500.05, 1000), threshold, None);
    let t_snap = t0.elapsed();
    assert_eq!(secs(snapped), 500.0);
    println!("[BENCHMARK] 1,000 clips snap_time query: {:?}", t_snap);
    assert!(t_snap.as_millis() < 5, "snap_time too slow");

    let t0 = Instant::now();
    let split_res = project.split_clip("clip_500", from_secs(1001.0, 1000));
    let t_split = t0.elapsed();
    assert!(split_res.is_ok());
    println!("[BENCHMARK] 1,000 clips split operation: {:?}", t_split);
    assert!(t_split.as_millis() < 5, "split too slow");
}

#[test]
fn split_outside_clip_is_rejected_with_message() {
    let mut p = Project::default();
    let clip = ClipDefinition::new("c1", "asset-1", TimeRational::new(2, 1), TimeRational::new(3, 1));
    p.add_clip("track-v1", clip).unwrap();
    let err = p.split_clip("c1", TimeRational::new(2, 1)).unwrap_err();
    assert_eq!(
        err,
        ProjectError::InvalidOperation(
            "Split time 2/1 is outside clip boundary [2/1 .. 5/1]".to_string()
        )
    );
    assert_eq!(p.tracks[0].clips.len(), 1);
    assert_eq!(
        p.split_clip("nope", from_secs(3.0, 1000)).unwrap_err(),
        ProjectError::ClipNotFound("nope".to_string())
    );
}

#[test]
fn split_names_the_tail_after_the_split_time_in_milliseconds() {
    let mut p = Project::default();
    p.add_clip("track-v1", dummy_clip("c1", 0.0, 10.0)).unwrap();
    let (head, tail) = p.split_clip("c1", TimeRational::new(4000, 1000)).unwrap();
    assert_eq!(tail.id, "c1_split_4000");
    assert_eq!(head.out_point, tail.in_point);
    assert_eq!(p.tracks[0].clips[1].id, "c1_split_4000");
    // An unreduced time and a time between milliseconds.
    let (_, t2) = p.split_clip("c1", TimeRational { num: 5, den: 2 }).unwrap();
    assert_eq!(t2.id, "c1_split_2500");
    let (_, t3) = p.split_clip("c1", TimeRational { num: 1, den: 3 }).unwrap();
    assert_eq!(t3.id, "c1_split_333");
}

#[test]
fn add_clip_keeps_track_ordered_by_start() {
    let mut p = Project::default();
    p.add_clip("track-v1", dummy_clip("late", 8.0, 1.0)).unwrap();
    p.add_clip("track-v1", dummy_clip("early", 1.0, 1.0)).unwrap();
    p.add_clip("track-v1", dummy_clip("middle", 4.0, 1.0)).unwrap();
    p.add_clip("track-v1", dummy_clip("middle2", 4.0, 1.0)).unwrap();
    let ids: Vec<&str> = p.tracks[0].clips.iter().map(|c| c.id.as_str()).collect();
    assert_eq!(ids, vec!["early", "middle", "middle2", "late"]);
    assert_eq!(
        p.add_clip("track-x", dummy_clip("c", 0.0, 1.0)),
        Err(ProjectError::TrackNotFound("track-x".to_string()))
    );
}

#[test]
fn remove_clip_returns_track_and_clip() {
    let mut p = Project::default();
    p.add_clip("track-a1", dummy_clip("a", 0.0, 1.0)).unwrap();
    let (track_id, clip) = p.remove_clip("a").unwrap();
    assert_eq!(track_id, "track-a1");
    assert_eq!(clip.id, "a");
    assert!(p.tracks[1].clips.is_empty());
    assert_eq!(
        p.remove_clip("a"),
        Err(ProjectError::ClipNotFound("a".to_string()))
    );
}

#[test]
fn move_clip_clamps_negative_start_to_zero() {
    let mut p = Project::default();
    p.add_clip("track-v1", dummy_clip("c1", 3.0, 2.0)).unwrap();
    p.move_clip("c1", "track-a1", TimeRational::new(-5, 1)).unwrap();
    assert!(p.tracks[0].clips.is_empty());
    assert_eq!(p.tracks[1].clips[0].id, "c1");
    assert!(p.tracks[1].clips[0].timeline_start.is_zero());
    p.move_clip("c1", "track-v1", from_secs(6.0, 1000)).unwrap();
    assert_eq!(secs(p.tracks[0].clips[0].timeline_start), 6.0);
}

#[test]
fn move_to_missing_track_leaves_the_project_unchanged() {
    let mut p = Project::default();
    p.add_clip("track-v1", dummy_clip("c1", 3.0, 2.0)).unwrap();
    let before = p.clone();
    assert_eq!(
        p.move_clip("c1", "nowhere", from_secs(1.0, 1000)),
        Err(ProjectError::TrackNotFound("nowhere".to_string()))
    );
    assert_eq!(p, before);
    assert_eq!(
        p.move_clip("ghost", "nowhere", from_secs(1.0, 1000)),
        Err(ProjectError::ClipNotFound("ghost".to_string()))
    );
    assert_eq!(p, before);
}

#[test]
fn clips_in_range_reports_overlapping_clips() {
    let mut p = Project::default();
    p.add_clip("track-v1", dummy_clip("a", 0.0, 2.0)).unwrap();
    p.add_clip("track-v1", dummy_clip("b", 5.0, 2.0)).unwrap();
    p.add_clip("track-a1", dummy_clip("c", 1.0, 1.0)).unwrap();
    let hits = p.clips_in_range(from_secs(1.5, 1000), from_secs(5.0, 1000));
    let ids: Vec<&str> = hits.iter().map(|(_, c)| c.id.as_str()).collect();
    assert_eq!(ids, vec!["a", "b", "c"]);
    let none = p.clips_in_range(from_secs(2.5, 1000), from_secs(4.0, 1000));
    assert!(none.is_empty());
}

#[test]
fn total_duration_is_latest_end_over_tracks() {
    let mut p = Project::default();
    assert!(p.total_duration().is_zero());
    p.add_clip("track-v1", dummy_clip("a", 0.0, 3.0)).unwrap();
    p.add_clip("track-a1", dummy_clip("b", 2.0, 4.5)).unwrap();
    assert_eq!(secs(p.total_duration()), 6.5);
}

#[test]
fn snap_excludes_the_named_clip() {
    let mut p = Project::default();
    p.add_clip("track-v1", dummy_clip("c1", 5.0, 5.0)).unwrap();
    let threshold = from_secs(0.2, 1000);
    let s = p.snap_time(from_secs(4.9, 1000), threshold, Some("c1"));
    assert_eq!(secs(s), 4.9);
}

#[test]
fn project_with_future_format_version_is_refused() {
    let mut p = Project::new("Future");
    p.format_version = 9999;
    assert_eq!(
        p.check_format_version(),
        Err(ProjectError::UnsupportedVersion {
            found: 9999,
            supported: CURRENT_FORMAT_VERSION,
        })
    );
    let current = Project::new("Now");
    assert!(current.clone().check_format_version().is_ok());
}

#[test]
fn new_project_has_video_and_audio_tracks() {
    let p = Project::new("Demo");
    assert_eq!(p.name, "Demo");
    assert_eq!(p.tracks[0].id, "track-v1");
    assert_eq!(p.tracks[0].kind, TrackKind::Video);
    assert_eq!(p.tracks[1].id, "track-a1");
    assert_eq!(p.tracks[1].kind, TrackKind::Audio);
    let t: &TrackDefinition = &p.tracks[1];
    assert_eq!(t.volume_milli, 1000);
}

#[test]
fn canvas_ratio_dimensions_and_labels() {
    assert_eq!(CanvasRatio::Landscape16x9.dimensions(), (1920, 1080));
    assert_eq!(CanvasRatio::Vertical9x16.dimensions(), (1080, 1920));
    assert_eq!(CanvasRatio::Square1x1.dimensions(), (1080, 1080));
    assert_eq!(CanvasRatio::Classic4x3.dimensions(), (1440, 1080));
    assert_eq!(CanvasRatio::Vertical9x16.label(), "9:16 Vertical (1080x1920)");
}

#[test]
fn history_is_bounded_and_commit_clears_redo() {
    let mut p = Project::default();
    let mut h = ProjectHistory::new(2);
    h.commit(&p, "one");
    h.commit(&p, "two");
    h.commit(&p, "three");
    assert!(h.undo(&mut p));
    assert!(h.undo(&mut p));
    assert!(!h.undo(&mut p));
    assert_eq!(h.redo_description(), Some("two"));
    h.commit(&p, "four");
    assert!(!h.can_redo());
    assert_eq!(h.undo_description(), Some("four"));
}
