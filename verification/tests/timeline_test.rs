use fluxcut::history::ProjectHistory;
use fluxcut::schema::{ClipDefinition, Project, TrackDefinition, TrackKind};
use fluxcut::time::TimeRational;
use fluxcut::timeline::{HitTarget, TimelineWidget};

fn secs(t: TimeRational) -> f64 {
    t.num as f64 / t.den as f64
}

fn from_secs(seconds: f64, timebase: u32) -> TimeRational {
    TimeRational::new((seconds * timebase as f64).round() as i64, timebase)
}

fn one_clip_project() -> Project {
    let mut project = Project::default();
    project.tracks.clear();
    project.tracks.push(TrackDefinition {
        id: "v1".to_string(),
        name: "Video 1".to_string(),
        kind: TrackKind::Video,
        muted: false,
        volume_milli: 1000,
        clips: vec![ClipDefinition {
            id: "clip-main".to_string(),
            asset_id: "asset-1".to_string(),
            timeline_start: TimeRational::zero(),
            in_point: TimeRational::zero(),
            out_point: from_secs(10.0, 1000),
            volume_milli: 1000,
            muted: false,
            speed_milli: 1000,
            ..Default::default()
        }],
    });
    project
}

#[test]
fn test_timeline_widget_operations_and_history() {
    let project = one_clip_project();
    let history = ProjectHistory::default();

    let mut widget = TimelineWidget::new();
    widget.bind_project(&project, &history);

    widget.set_playhead_time(from_secs(4.0, 1000));
    assert_eq!(secs(widget.playhead_time()), 4.0);

    let did_split = widget.split_at_playhead();
    assert!(did_split);
    assert_eq!(
        widget.selected_clip_id(),
        Some("clip-main_split_4000".to_string())
    );

    let did_delete = widget.delete_selected();
    assert!(did_delete);
    assert_eq!(widget.selected_clip_id(), None);

    let did_undo = widget.undo();
    assert!(did_undo);

    let did_undo_split = widget.undo();
    assert!(did_undo_split);

    let did_redo = widget.redo();
    assert!(did_redo);
}

#[test]
fn undo_after_delete_restores_the_clip() {
    let mut widget = TimelineWidget::with_project(&one_clip_project());
    widget.select_clip(Some("clip-main".to_string()));
    assert!(widget.delete_selected());
    assert!(widget.project().tracks[0].clips.is_empty());
    assert_eq!(widget.history().undo_description(), Some("Delete Clip"));
    assert!(widget.undo());
    assert_eq!(widget.project().tracks[0].clips.len(), 1);
    assert_eq!(widget.project().tracks[0].clips[0].id, "clip-main");
    assert_eq!(widget.selected_clip_id(), None);
    assert!(widget.redo());
    assert!(widget.project().tracks[0].clips.is_empty());
}

#[test]
fn split_without_selection_uses_clip_under_playhead() {
    let mut widget = TimelineWidget::with_project(&one_clip_project());
    widget.set_playhead_time(from_secs(2.5, 1000));
    assert!(widget.split_at_playhead());
    assert_eq!(
        widget.selected_clip_id(),
        Some("clip-main_split_2500".to_string())
    );
    assert_eq!(widget.project().tracks[0].clips.len(), 2);
    assert_eq!(widget.history().undo_description(), Some("Split Clip"));
}

#[test]
fn split_at_clip_boundary_does_nothing() {
    let mut widget = TimelineWidget::with_project(&one_clip_project());
    widget.set_playhead_time(from_secs(10.0, 1000));
    assert!(!widget.split_at_playhead());
    assert!(!widget.history().can_undo());
    widget.select_clip(Some("clip-main".to_string()));
    widget.set_playhead_time(TimeRational::zero());
    assert!(!widget.split_at_playhead());
    assert_eq!(widget.project().tracks[0].clips.len(), 1);
}

#[test]
fn ripple_delete_selected_closes_gap() {
    let mut project = one_clip_project();
    project.tracks[0].clips.push(ClipDefinition::new(
        "next",
        "asset-1",
        from_secs(12.0, 1000),
        from_secs(3.0, 1000),
    ));
    let mut widget = TimelineWidget::with_project(&project);
    widget.select_clip(Some("clip-main".to_string()));
    assert!(widget.ripple_delete_selected());
    let clips = &widget.project().tracks[0].clips;
    assert_eq!(clips.len(), 1);
    assert_eq!(secs(clips[0].timeline_start), 2.0);
    assert_eq!(
        widget.history().undo_description(),
        Some("Ripple Delete Clip")
    );
}

#[test]
fn toggle_mute_and_volume_of_selected_clip() {
    let mut widget = TimelineWidget::with_project(&one_clip_project());
    assert_eq!(widget.toggle_mute_selected(), None);
    widget.select_clip(Some("clip-main".to_string()));
    assert_eq!(widget.toggle_mute_selected(), Some(true));
    assert!(widget.project().tracks[0].clips[0].muted);
    assert_eq!(widget.history().undo_description(), Some("Mute Clip Audio"));
    assert_eq!(widget.toggle_mute_selected(), Some(false));
    assert_eq!(
        widget.history().undo_description(),
        Some("Unmute Clip Audio")
    );
    assert!(widget.set_selected_clip_volume(3500));
    assert_eq!(widget.project().tracks[0].clips[0].volume_milli, 2000);
    assert!(widget.set_selected_clip_volume(500));
    assert_eq!(widget.project().tracks[0].clips[0].volume_milli, 500);
    widget.select_clip(Some("missing".to_string()));
    assert!(!widget.set_selected_clip_volume(100));
    assert!(!widget.delete_selected());
}

#[test]
fn undo_after_mute_restores_the_flag() {
    let mut widget = TimelineWidget::with_project(&one_clip_project());
    widget.select_clip(Some("clip-main".to_string()));
    assert_eq!(widget.toggle_mute_selected(), Some(true));
    assert!(widget.undo());
    assert!(!widget.project().tracks[0].clips[0].muted);
    assert!(widget.redo());
    assert!(widget.project().tracks[0].clips[0].muted);
}

#[test]
fn nothing_to_undo_keeps_selection() {
    let mut widget = TimelineWidget::default();
    widget.select_clip(Some("x".to_string()));
    assert!(!widget.undo());
    assert!(!widget.redo());
    assert_eq!(widget.selected_clip_id(), Some("x".to_string()));
    let p = Project::default();
    widget.sync_from_project(&p);
    assert_eq!(widget.project().tracks.len(), 2);
}

#[test]
fn pressing_on_targets_updates_selection() {
    let mut widget = TimelineWidget::with_project(&one_clip_project());
    widget.press_on(&HitTarget::ClipTrimLeft {
        track_index: 0,
        clip_id: "clip-main".to_string(),
    });
    assert_eq!(widget.selected_clip_id(), Some("clip-main".to_string()));
    widget.press_on(&HitTarget::Ruler);
    assert_eq!(widget.selected_clip_id(), Some("clip-main".to_string()));
    widget.press_on(&HitTarget::Empty);
    assert_eq!(widget.selected_clip_id(), None);
    widget.press_on(&HitTarget::ClipBody {
        track_index: 0,
        clip_id: "other".to_string(),
    });
    assert_eq!(widget.selected_clip_id(), Some("other".to_string()));
}

fn two_clip_project() -> Project {
    let mut p = Project::default();
    p.tracks[0].clips.push(ClipDefinition::new("a", "asset-1", TimeRational::zero(), from_secs(2.0, 1000)));
    p.tracks[0].clips.push(ClipDefinition::new("b", "asset-1", from_secs(5.0, 1000), from_secs(2.0, 1000)));
    p
}

#[test]
fn seeking_snaps_to_clip_edges() {
    let mut widget = TimelineWidget::with_project(&two_clip_project());
    widget.seek_snapped(from_secs(4.9, 1000), from_secs(0.2, 1000));
    assert_eq!(secs(widget.playhead_time()), 5.0);
    widget.seek_snapped(from_secs(3.5, 1000), from_secs(0.2, 1000));
    assert_eq!(secs(widget.playhead_time()), 3.5);
}

#[test]
fn dragging_a_clip_snaps_to_neighbours() {
    let mut widget = TimelineWidget::with_project(&two_clip_project());
    let moved = widget.drag_clip("b", from_secs(5.0, 1000), from_secs(-2.9, 1000), from_secs(0.2, 1000));
    assert!(moved);
    let b = &widget.project().tracks[0].clips[1];
    assert_eq!(b.id, "b");
    assert_eq!(secs(b.timeline_start), 2.0);
    let again = widget.drag_clip("b", from_secs(2.0, 1000), from_secs(0.05, 1000), from_secs(0.2, 1000));
    assert!(!again);
    let to_zero = widget.drag_clip("b", from_secs(2.0, 1000), from_secs(-9.0, 1000), from_secs(0.01, 1000));
    assert!(to_zero);
    assert!(widget.project().tracks[0].clips[0].timeline_start.is_zero());
    assert!(!widget.history().can_undo());
}

#[test]
fn dragging_trim_handles() {
    let mut widget = TimelineWidget::with_project(&two_clip_project());
    assert!(widget.drag_trim_start("b", from_secs(5.5, 1000), from_secs(0.1, 1000)));
    let b = &widget.project().tracks[0].clips[1];
    assert_eq!(secs(b.timeline_start), 5.5);
    assert_eq!(secs(b.in_point), 0.5);
    assert!(widget.drag_trim_end("b", from_secs(6.5, 1000), from_secs(0.1, 1000)));
    let b = &widget.project().tracks[0].clips[1];
    assert_eq!(secs(b.out_point), 1.5);
    assert!(!widget.drag_trim_end("b", from_secs(5.0, 1000), from_secs(0.1, 1000)));
    assert!(!widget.drag_trim_start("missing", from_secs(1.0, 1000), from_secs(0.1, 1000)));
}
