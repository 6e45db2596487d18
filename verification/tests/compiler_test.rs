use fluxcut::compiler::{generate_execution_plan, EditorGraphCompiler};
use fluxcut::graph::{validate_graph, GraphValidationError};
use fluxcut::schema::{AssetReference, CanvasRatio, ClipDefinition, Project};
use fluxcut::time::TimeRational;

fn from_secs(seconds: f64, timebase: u32) -> TimeRational {
    TimeRational::new((seconds * timebase as f64).round() as i64, timebase)
}

#[test]
fn test_compile_project_to_editor_graph() {
    let mut project = Project::new("Filter Test");
    project.set_canvas_ratio(CanvasRatio::Vertical9x16);

    let clip = ClipDefinition::new(
        "clip-1",
        "asset-1",
        TimeRational::zero(),
        from_secs(5.0, 1000),
    );
    project.tracks[0].clips.push(clip);

    let graph = EditorGraphCompiler::compile(&project).expect("Compilation failed");
    assert_eq!(graph.canvas_width, 1080);
    assert_eq!(graph.canvas_height, 1920);
    assert_eq!(graph.video_tracks[0].clips.len(), 1);
    assert_eq!(graph.video_tracks[0].clips[0].clip_id, "clip-1");

    let plan = generate_execution_plan(&graph, false);
    assert_eq!(plan.target_resolution, (1080, 1920));
    assert!(plan
        .video_filter_desc
        .as_deref()
        .unwrap()
        .contains("1080:1920"));
}

#[test]
fn test_fast_path_eligibility_check() {
    let mut project = Project::new("Fast Path Test");
    let clip = ClipDefinition::new(
        "clip-1",
        "asset-1",
        TimeRational::zero(),
        from_secs(10.0, 1000),
    );
    project.tracks[0].clips.push(clip);

    let graph = EditorGraphCompiler::compile(&project).unwrap();
    assert!(EditorGraphCompiler::is_fast_path_eligible(&graph));

    let mut project2 = project.clone();
    let clip2 = ClipDefinition::new(
        "clip-2",
        "asset-2",
        from_secs(10.0, 1000),
        from_secs(5.0, 1000),
    );
    project2.tracks[0].clips.push(clip2);
    let graph2 = EditorGraphCompiler::compile(&project2).unwrap();
    assert!(!EditorGraphCompiler::is_fast_path_eligible(&graph2));
}

#[test]
fn compile_resolves_asset_paths_and_audio() {
    let mut project = Project::new("Assets");
    project.assets.push(AssetReference {
        id: "asset-1".to_string(),
        file_path: "/media/a.mp4".to_string(),
        display_name: "a.mp4".to_string(),
        duration: from_secs(10.0, 1000),
        width: Some(1920),
        height: Some(1080),
        has_audio: true,
        has_video: true,
    });
    project.tracks[0].clips.push(ClipDefinition::new(
        "v",
        "asset-1",
        TimeRational::zero(),
        from_secs(4.0, 1000),
    ));
    project.tracks[1].clips.push(ClipDefinition::new(
        "a",
        "asset-1",
        TimeRational::zero(),
        from_secs(4.0, 1000),
    ));
    let graph = EditorGraphCompiler::compile(&project).unwrap();
    assert_eq!(graph.video_tracks[0].clips[0].file_path, "/media/a.mp4");
    assert_eq!(graph.audio_tracks[0].clips[0].clip_id, "a");
    assert_eq!(graph.audio_tracks[0].clips[0].clip_volume_milli, 1000);
    assert!(validate_graph(&graph).is_ok());
}

#[test]
fn transcode_plan_filters() {
    let mut project = Project::new("Plan");
    project.tracks[0].clips.push(ClipDefinition::new(
        "c",
        "asset-1",
        TimeRational::zero(),
        from_secs(1.0, 1000),
    ));
    let graph = EditorGraphCompiler::compile(&project).unwrap();
    let plan = generate_execution_plan(&graph, false);
    assert_eq!(plan.mode_name, "H.264 Multi-Track Transcode");
    assert_eq!(
        plan.video_filter_desc.as_deref(),
        Some("scale=1920:1080:force_original_aspect_ratio=decrease,pad=1920:1080:(ow-iw)/2:(oh-ih)/2")
    );
    assert_eq!(
        plan.audio_filter_desc.as_deref(),
        Some("amix=inputs=2:duration=longest:dropout_transition=2")
    );
    let fast = generate_execution_plan(&graph, true);
    assert_eq!(fast.mode_name, "Fast-Path Stream Copy (Lossless Remux)");
    assert!(fast.video_filter_desc.is_none());
    assert!(fast.audio_filter_desc.is_none());
}

#[test]
fn zero_canvas_is_rejected() {
    let mut project = Project::new("Bad canvas");
    project.settings.width = 0;
    let r = EditorGraphCompiler::compile(&project);
    assert!(matches!(r, Err(GraphValidationError::ZeroCanvasDimensions(0, 1080))));
    let empty = Project::new("Empty");
    assert!(matches!(
        EditorGraphCompiler::compile(&empty),
        Err(GraphValidationError::EmptyTimelineDuration)
    ));
    let mut reversed = Project::new("Reversed");
    let mut c = ClipDefinition::new("r", "asset-1", TimeRational::zero(), from_secs(2.0, 1000));
    c.in_point = from_secs(3.0, 1000);
    c.out_point = from_secs(5.0, 1000);
    reversed.tracks[0].clips.push(c);
    assert!(EditorGraphCompiler::compile(&reversed).is_ok());
    reversed.tracks[0].clips[0].out_point = from_secs(3.0, 1000);
    reversed.tracks[0].clips.push(ClipDefinition::new(
        "ok",
        "asset-1",
        TimeRational::zero(),
        from_secs(2.0, 1000),
    ));
    assert!(matches!(
        EditorGraphCompiler::compile(&reversed),
        Err(GraphValidationError::InvalidSourceBounds { .. })
    ));
}
