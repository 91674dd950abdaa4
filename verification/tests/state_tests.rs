use mediamerger::mux::ChapterSource;
use mediamerger::probe::{MediaFile, Track, TrackKind};
use mediamerger::state::{
    accent_hex_or_default, default_output_path, format_hms, format_offset_ms, merged_file_name,
    parse_accent_name, prefers_dark, AppState, ChaptersChoice, Consistency, DetectedOffset,
    MergeReadiness, MergeUpdate, OffsetState, TrackUiState,
};

/// Seconds, as the interface takes them, in the milliseconds the session holds.
fn ms(secs: f64) -> i64 {
    (secs * 1000.0).round() as i64
}

fn track(id: u64, kind: TrackKind) -> Track {
    Track {
        id,
        kind,
        codec: "test".to_string(),
        language: None,
        name: None,
        default_flag: false,
        forced_flag: false,
        frame_duration_ns: None,
        channels: None,
    }
}

fn media_file(path: &str, tracks: Vec<Track>) -> MediaFile {
    MediaFile { path: path.to_string(), container: "Matroska".to_string(), tracks }
}

fn selected() -> TrackUiState {
    TrackUiState { selected: true, ..Default::default() }
}

#[test]
fn parse_accent_name_maps_known_gnome_names() {
    assert_eq!(parse_accent_name("'blue'\n"), Some("#3584e4"));
    assert_eq!(parse_accent_name("purple"), Some("#9141ac"));
}

#[test]
fn parse_accent_name_returns_none_for_unrecognized_value() {
    assert_eq!(parse_accent_name("'teal'\n"), None);
}

#[test]
fn parse_accent_name_knows_green_and_orange() {
    assert_eq!(parse_accent_name("  'green'  "), Some("#3a944a"));
    assert_eq!(parse_accent_name("'orange'\n"), Some("#ed5b00"));
    assert_eq!(parse_accent_name("''blue''"), Some("#3584e4"));
    assert_eq!(parse_accent_name("Blue"), None);
}

#[test]
fn accent_falls_back_to_adwaita_blue() {
    assert_eq!(accent_hex_or_default(None), "#3584e4");
    assert_eq!(accent_hex_or_default(Some("'teal'\n")), "#3584e4");
    assert_eq!(accent_hex_or_default(Some("'purple'\n")), "#9141ac");
}

#[test]
fn dark_preference_is_read_from_color_scheme() {
    assert!(prefers_dark("'prefer-dark'\n"));
    assert!(!prefers_dark("'default'\n"));
    assert!(!prefers_dark("'prefer-light'\n"));
    assert!(!prefers_dark(""));
}

#[test]
fn default_output_path_appends_postfix_to_file_a_stem_in_place() {
    let path = default_output_path("/home/matt/Videos/Movie.2024.mkv").expect("should compute a default");
    assert_eq!(path, "/home/matt/Videos/Movie.2024 — Merged.mkv");
}

#[test]
fn default_output_path_does_not_attempt_title_cleanup() {
    // Literal stem, dots and all - no scene-release filename parsing.
    let path = default_output_path("/x/Evil.Dead.II.1987.UHD.BluRay.x265-GROUP.mkv").expect("should compute a default");
    assert_eq!(path, "/x/Evil.Dead.II.1987.UHD.BluRay.x265-GROUP — Merged.mkv");
}

#[test]
fn default_output_path_none_for_root_path() {
    // "/" has no filename component at all, so there is no stem.
    assert!(default_output_path("/").is_none());
}

#[test]
fn default_output_path_of_bare_file_name_stays_relative() {
    assert_eq!(default_output_path("clip.mkv").as_deref(), Some("clip — Merged.mkv"));
}

#[test]
fn format_duration_formats_hours_minutes_seconds() {
    assert_eq!(format_hms(5072.0f64.round() as u64), "1:24:32");
}

#[test]
fn format_duration_pads_minutes_and_seconds() {
    assert_eq!(format_hms(65.0f64.round() as u64), "0:01:05");
}

#[test]
fn format_duration_handles_over_ten_hours() {
    assert_eq!(format_hms(37800.0f64.round() as u64), "10:30:00");
}

#[test]
fn offset_text_has_three_decimals() {
    assert_eq!(format_offset_ms(2348, false), "2.348");
    assert_eq!(format_offset_ms(-500, true), "-0.500");
    assert_eq!(format_offset_ms(0, false), "0.000");
    assert_eq!(format_offset_ms(65007, false), "65.007");
}

#[test]
fn offset_text_keeps_the_sign_of_a_value_that_rounds_to_zero() {
    // As `format!("{:.3}", -0.0003)` does.
    assert_eq!(format!("{:.3}", -0.0003f64), "-0.000");
    assert_eq!(format_offset_ms(ms(-0.0003), (-0.0003f64).is_sign_negative()), "-0.000");
    assert_eq!(format_offset_ms(ms(0.0003), false), "0.000");
    assert_eq!(format_offset_ms(-1, true), "-0.001");
}

#[test]
fn sync_track_ui_len_grows_and_shrinks_to_match_tracks() {
    let mut ui = vec![TrackUiState { selected: true, ..Default::default() }];
    let tracks = vec![track(0, TrackKind::Video), track(1, TrackKind::Audio)];

    AppState::<String>::sync_track_ui_len(&tracks, &mut ui);

    assert_eq!(ui.len(), 2);
    assert!(ui[0].selected, "existing row state must be preserved");
    assert!(!ui[1].selected, "newly appended row defaults to unselected");

    AppState::<String>::sync_track_ui_len(&tracks[..1], &mut ui);
    assert_eq!(ui.len(), 1);
    assert!(ui[0].selected);
}

#[test]
fn resolved_offset_prefers_manual_override_when_set() {
    let mut state = AppState::<String>::default();
    state.offset = OffsetState::ManualOverride { offset_ms: ms(1.5), below_zero: false };
    assert_eq!(state.resolved_offset_ms(), Some(ms(1.5)));
}

#[test]
fn resolved_offset_none_while_detecting() {
    let mut state = AppState::<String>::default();
    state.offset = OffsetState::Detecting;
    assert_eq!(state.resolved_offset_ms(), None);
}

#[test]
fn resolved_offset_uses_detected_value() {
    let mut state = AppState::<String>::default();
    state.offset = OffsetState::Detected(DetectedOffset { offset_ms: ms(2.35), below_zero: false, consistency: Consistency::Consistent });
    assert_eq!(state.resolved_offset_ms(), Some(ms(2.35)));
}

#[test]
fn to_merge_plan_none_when_no_tracks_selected() {
    let mut state = AppState::<String>::default();
    state.file_a = Some(media_file("a.mkv", vec![track(0, TrackKind::Video)]));
    state.file_b = Some(media_file("b.mkv", vec![track(1, TrackKind::Audio)]));
    state.tracks_a_ui = vec![TrackUiState::default()];
    state.tracks_b_ui = vec![TrackUiState::default()];
    state.offset = OffsetState::ManualOverride { offset_ms: ms(1.0), below_zero: false };

    assert!(state.to_merge_plan("out.mkv".to_string()).is_none());
}

#[test]
fn to_merge_plan_none_when_offset_unresolved() {
    let mut state = AppState::<String>::default();
    state.file_a = Some(media_file("a.mkv", vec![track(0, TrackKind::Video)]));
    state.file_b = Some(media_file("b.mkv", vec![track(1, TrackKind::Audio)]));
    state.tracks_a_ui = vec![selected()];
    state.tracks_b_ui = vec![selected()];

    assert!(state.to_merge_plan("out.mkv".to_string()).is_none());
}

#[test]
fn to_merge_plan_builds_plan_with_selected_tracks_only() {
    let mut state = AppState::<String>::default();
    state.file_a = Some(media_file("a.mkv", vec![track(0, TrackKind::Video), track(1, TrackKind::Audio)]));
    state.file_b = Some(media_file("b.mkv", vec![track(2, TrackKind::Audio)]));
    state.tracks_a_ui = vec![selected(), TrackUiState { selected: false, ..Default::default() }];
    state.tracks_b_ui = vec![TrackUiState { selected: true, default_flag: true, ..Default::default() }];
    state.offset = OffsetState::ManualOverride { offset_ms: ms(2.0), below_zero: false };

    let plan = state.to_merge_plan("out.mkv".to_string()).expect("plan should build");

    assert_eq!(plan.tracks_from_a.len(), 1);
    assert_eq!(plan.tracks_from_a[0].track_id, 0);
    assert_eq!(plan.tracks_from_b.len(), 1);
    assert_eq!(plan.tracks_from_b[0].track_id, 2);
    assert!(plan.tracks_from_b[0].set_default);
    assert_eq!(plan.offset_ms, ms(2.0));
}

#[test]
fn to_merge_plan_carries_extras_and_paths() {
    let mut state = AppState::<String>::default();
    state.file_a = Some(media_file("a.mkv", vec![track(0, TrackKind::Video)]));
    state.file_b = Some(media_file("b.mkv", vec![track(1, TrackKind::Audio)]));
    state.tracks_a_ui = vec![selected()];
    state.tracks_b_ui = vec![TrackUiState::default()];
    state.offset = OffsetState::ManualOverride { offset_ms: -250, below_zero: true };
    state.chapters_choice = ChaptersChoice::Neither;
    state.attachments_a = false;
    state.attachments_b = true;
    state.tags_b = true;

    let plan = state.to_merge_plan("out.mkv".to_string()).expect("one track is enough");
    assert_eq!(plan.file_a, "a.mkv");
    assert_eq!(plan.file_b, "b.mkv");
    assert_eq!(plan.output_path, "out.mkv");
    assert_eq!(plan.chapters, ChapterSource::Neither);
    assert!(!plan.attachments_from_a);
    assert!(plan.attachments_from_b);
    assert!(!plan.tags_from_a);
    assert!(plan.tags_from_b);
    assert!(plan.tracks_from_b.is_empty());
    assert_eq!(plan.offset_ms, -250);
}

#[test]
fn blocking_reason_none_on_default_state() {
    let state = AppState::<String>::default();
    assert_eq!(state.blocking_reason(), None);
}

#[test]
fn blocking_reason_some_when_framerate_error_set() {
    let mut state = AppState::<String>::default();
    state.framerate_error = Some("framerate mismatch".to_string());
    assert!(state.blocking_reason().is_some());
}

#[test]
fn blocking_reason_none_when_framerate_error_overridden() {
    let mut state = AppState::<String>::default();
    state.framerate_error = Some("framerate mismatch".to_string());
    state.framerate_override = true;
    assert_eq!(state.blocking_reason(), None);
}

#[test]
fn blocking_reason_some_when_offset_detected_inconsistent() {
    let mut state = AppState::<String>::default();
    state.offset = OffsetState::Detected(DetectedOffset { offset_ms: ms(2.5), below_zero: false, consistency: Consistency::Inconsistent });
    assert!(state.blocking_reason().is_some());
}

#[test]
fn blocking_reason_none_when_manual_override_even_if_derived_from_inconsistent() {
    let mut state = AppState::<String>::default();
    // Once the user's value is a ManualOverride, the Consistency verdict
    // that pre-filled it is no longer inspected.
    state.offset = OffsetState::ManualOverride { offset_ms: ms(2.5), below_zero: false };
    assert_eq!(state.blocking_reason(), None);
}

#[test]
fn blocking_reason_texts() {
    let mut state = AppState::<String>::default();
    state.framerate_error = Some("x".to_string());
    assert_eq!(state.blocking_reason().as_deref(), Some("video framerates do not match"));
    state.framerate_override = true;
    state.offset = OffsetState::Detected(DetectedOffset { offset_ms: 1, below_zero: false, consistency: Consistency::Inconsistent });
    assert_eq!(
        state.blocking_reason().as_deref(),
        Some("offset measurements are inconsistent - resolve manually before merging")
    );
    state.offset = OffsetState::Detected(DetectedOffset { offset_ms: 1, below_zero: false, consistency: Consistency::Unverified });
    assert_eq!(state.blocking_reason(), None);
}

#[test]
fn can_merge_requires_output_path_and_resolvable_plan() {
    let mut state = AppState::<String>::default();
    assert!(state.to_merge_plan("x.mkv".to_string()).is_none(), "no files loaded yet");

    state.file_a = Some(media_file("a.mkv", vec![track(0, TrackKind::Video)]));
    state.file_b = Some(media_file("b.mkv", vec![track(1, TrackKind::Audio)]));
    state.tracks_a_ui = vec![selected()];
    state.tracks_b_ui = vec![selected()];
    state.offset = OffsetState::ManualOverride { offset_ms: ms(0.0), below_zero: false };

    assert!(state.to_merge_plan("x.mkv".to_string()).is_some());
}

#[test]
fn probing_a_new_file_resets_the_framerate_override() {
    let mut state = AppState::<String>::default();
    state.framerate_error = Some("mismatch".to_string());
    state.framerate_override = true;
    state.tracks_a_ui = vec![selected()];
    let check = state.apply_probe_result(Ok(media_file("a.mkv", vec![track(0, TrackKind::Video), track(1, TrackKind::Audio)])), true);
    assert!(!check, "only one file is loaded");
    assert!(!state.framerate_override);
    assert!(state.framerate_error.is_none());
    assert_eq!(state.tracks_a_ui.len(), 2);
    assert!(state.tracks_a_ui[0].selected);
    assert!(!state.tracks_a_ui[1].selected);

    let check = state.apply_probe_result(Ok(media_file("b.mkv", vec![track(0, TrackKind::Audio)])), false);
    assert!(check, "both files loaded: compare framerates");
    state.record_framerate_check(Err("video framerates differ".to_string()));
    assert!(state.blocking_reason().is_some());

    let check = state.apply_probe_result(Err("no file selected".to_string()), true);
    assert!(!check);
    assert_eq!(state.framerate_error.as_deref(), Some("no file selected"));
    assert_eq!(state.file_a.as_ref().map(|f| f.path.as_str()), Some("a.mkv"));
}

#[test]
fn picking_a_file_twice_opens_one_dialog() {
    let mut state = AppState::<String>::default();
    assert!(state.begin_pick(true));
    assert!(!state.begin_pick(true));
    assert!(state.begin_pick(false));
    state.apply_probe_result(Err("no file selected".to_string()), true);
    assert!(state.picking_file_a, "applying a result does not end the pick by itself");
}

#[test]
fn toggling_and_flagging_rows() {
    let mut state = AppState::<String>::default();
    state.tracks_b_ui = vec![TrackUiState::default(), TrackUiState::default()];
    state.toggle_track(false, 1);
    assert!(state.tracks_b_ui[1].selected);
    state.set_default_flag(false, 1, true);
    state.set_forced_flag(false, 0, true);
    assert!(state.tracks_b_ui[1].default_flag);
    assert!(state.tracks_b_ui[0].forced_flag);
    state.toggle_track(false, 7);
    state.toggle_track(true, 0);
    assert_eq!(state.tracks_b_ui.len(), 2);
    assert!(state.tracks_a_ui.is_empty());
}

#[test]
fn detection_needs_both_files_with_audio() {
    let mut state = AppState::<String>::default();
    assert!(state.begin_detect_offset().is_none());
    assert_eq!(state.offset, OffsetState::NotDetected);
    assert_eq!(state.detect_offset_error.as_deref(), Some("both files must be loaded before detecting offset"));

    state.file_a = Some(media_file("a.mkv", vec![track(0, TrackKind::Video)]));
    state.file_b = Some(media_file("b.mkv", vec![track(3, TrackKind::Audio)]));
    assert!(state.begin_detect_offset().is_none());
    assert_eq!(state.detect_offset_error.as_deref(), Some("File A has no audio track"));

    state.file_a = Some(media_file("a.mkv", vec![track(0, TrackKind::Video), track(1, TrackKind::Audio), track(2, TrackKind::Audio)]));
    state.file_b = Some(media_file("b.mkv", vec![track(0, TrackKind::Subtitle)]));
    assert!(state.begin_detect_offset().is_none());
    assert_eq!(state.detect_offset_error.as_deref(), Some("File B has no audio track"));

    state.file_b = Some(media_file("b.mkv", vec![track(0, TrackKind::Subtitle), track(3, TrackKind::Audio)]));
    let pair = state.begin_detect_offset().expect("both files have audio");
    assert_eq!((pair.path_a.as_str(), pair.track_a, pair.path_b.as_str(), pair.track_b), ("a.mkv", 1, "b.mkv", 3));
    assert_eq!(state.offset, OffsetState::Detecting);
    assert!(state.detect_offset_error.is_none());
}

#[test]
fn detection_is_blocked_only_by_an_unoverridden_framerate_mismatch() {
    let mut state = AppState::<String>::default();
    state.file_a = Some(media_file("a.mkv", vec![track(1, TrackKind::Audio)]));
    state.file_b = Some(media_file("b.mkv", vec![track(1, TrackKind::Audio)]));
    state.framerate_error = Some("mismatch".to_string());
    assert!(state.begin_detect_offset().is_none());
    assert_eq!(state.offset, OffsetState::NotDetected);
    assert!(state.detect_offset_error.is_none());
    state.framerate_override = true;
    assert!(state.begin_detect_offset().is_some());
}

#[test]
fn detected_offset_fills_the_field_and_can_be_restored() {
    let mut state = AppState::<String>::default();
    state.file_a = Some(media_file("a.mkv", vec![track(1, TrackKind::Audio)]));
    state.file_b = Some(media_file("b.mkv", vec![track(2, TrackKind::Audio)]));
    let detected = DetectedOffset { offset_ms: 2348, below_zero: false, consistency: Consistency::Consistent };
    let pair = state.offset_detected(Ok(detected)).expect("waveform tracks");
    assert_eq!((pair.track_a, pair.track_b), (1, 2));
    assert_eq!(state.manual_offset_input, "2.348");
    assert_eq!(state.last_detected, Some(detected));

    state.manual_offset_changed("3.1".to_string(), Some((3100, false)));
    assert_eq!(state.offset, OffsetState::ManualOverride { offset_ms: 3100, below_zero: false });
    state.manual_offset_changed("3.1x".to_string(), None);
    assert_eq!(state.offset, OffsetState::ManualOverride { offset_ms: 3100, below_zero: false });
    assert_eq!(state.manual_offset_input, "3.1x");

    state.use_detected_offset();
    assert_eq!(state.offset, OffsetState::Detected(detected));
    assert_eq!(state.manual_offset_input, "2.348");

    assert!(state.offset_detected(Err("ffmpeg failed".to_string())).is_none());
    assert_eq!(state.offset, OffsetState::NotDetected);
    assert_eq!(state.detect_offset_error.as_deref(), Some("ffmpeg failed"));
}

#[test]
fn merge_runs_once_and_reports_its_end() {
    let mut state = AppState::<String>::default();
    state.file_a = Some(media_file("a.mkv", vec![track(0, TrackKind::Video)]));
    state.file_b = Some(media_file("b.mkv", vec![track(1, TrackKind::Audio)]));
    state.tracks_a_ui = vec![selected()];
    state.tracks_b_ui = vec![selected()];
    state.offset = OffsetState::ManualOverride { offset_ms: 500, below_zero: false };
    assert!(state.start_merge().is_none(), "no output path yet");
    state.output_path = Some("out.mkv".to_string());
    state.log = vec!["old".to_string()];
    state.merge_error = Some("old failure".to_string());

    let plan = state.start_merge().expect("ready to merge");
    assert_eq!(plan.output_path, "out.mkv");
    assert!(state.merge_running);
    assert!(state.log_expanded);
    assert!(state.log.is_empty());
    assert!(state.merge_error.is_none());
    assert!(state.start_merge().is_none(), "a second merge must not start while one runs");
    assert!(!state.new_merge(), "no reset while merging");

    assert!(state.merge_event(MergeUpdate::Log("Progress".to_string())));
    assert_eq!(state.log, vec!["Progress".to_string()]);
    assert!(!state.merge_event(MergeUpdate::Finished(Err("mkvmerge failed".to_string()))));
    assert!(!state.merge_running);
    assert_eq!(state.merge_error.as_deref(), Some("mkvmerge failed"));

    assert!(state.start_merge().is_some());
    assert!(!state.merge_event(MergeUpdate::Vanished));
    assert_eq!(state.merge_error.as_deref(), Some("merge worker terminated unexpectedly"));

    assert!(state.new_merge());
    assert!(state.file_a.is_none() && state.output_path.is_none() && state.log.is_empty());
    assert_eq!(state.chapters_choice, ChaptersChoice::FileA);
    assert!(state.attachments_a && !state.attachments_b);
}

#[test]
fn blocked_merge_does_not_start() {
    let mut state = AppState::<String>::default();
    state.file_a = Some(media_file("a.mkv", vec![track(0, TrackKind::Video)]));
    state.file_b = Some(media_file("b.mkv", vec![track(1, TrackKind::Audio)]));
    state.tracks_a_ui = vec![selected()];
    state.tracks_b_ui = vec![selected()];
    state.output_path = Some("out.mkv".to_string());
    state.offset = OffsetState::Detected(DetectedOffset { offset_ms: 10, below_zero: false, consistency: Consistency::Inconsistent });
    assert!(state.start_merge().is_none());
    assert!(!state.merge_running);
}

#[test]
fn merged_file_name_keeps_the_stem_literally() {
    assert_eq!(merged_file_name("Movie.2024"), "Movie.2024 — Merged.mkv");
    assert_eq!(merged_file_name(""), " — Merged.mkv");
}

#[test]
fn merge_readiness_names_what_is_missing() {
    let mut state = AppState::<String>::default();
    assert!(matches!(state.merge_readiness(), MergeReadiness::NoTrackSelected));

    state.file_a = Some(media_file("a.mkv", vec![track(0, TrackKind::Video)]));
    state.tracks_a_ui = vec![selected()];
    assert!(matches!(state.merge_readiness(), MergeReadiness::NoOffset));

    state.offset = OffsetState::ManualOverride { offset_ms: 100, below_zero: false };
    assert!(matches!(state.merge_readiness(), MergeReadiness::ChooseOutput));

    state.output_path = Some("out.mkv".to_string());
    assert!(matches!(state.merge_readiness(), MergeReadiness::ChooseOutput), "File B is still missing");

    state.file_b = Some(media_file("b.mkv", vec![track(1, TrackKind::Audio)]));
    state.tracks_b_ui = vec![selected()];
    assert!(matches!(state.merge_readiness(), MergeReadiness::Ready(2)));
    assert!(state.start_merge().is_some());

    let mut blocked = AppState::<String>::default();
    blocked.framerate_error = Some("mismatch".to_string());
    match blocked.merge_readiness() {
        MergeReadiness::Blocked(reason) => assert_eq!(reason, "video framerates do not match"),
        other => panic!("expected a block, got {other:?}"),
    }
}

#[test]
fn apply_probe_result_resets_framerate_override_even_if_previously_true() {
    let mut state = AppState::<String>::default();
    state.framerate_override = true;
    state.apply_probe_result(Ok(media_file("a.mkv", vec![track(0, TrackKind::Video)])), true);
    assert!(!state.framerate_override, "a fresh probe result must clear any prior override");
}

#[test]
fn apply_probe_result_resets_framerate_override_on_probe_error_too() {
    let mut state = AppState::<String>::default();
    state.framerate_override = true;
    state.apply_probe_result(Err("boom".to_string()), true);
    assert!(!state.framerate_override, "a failed probe must also clear a prior override, not just a successful one");
    assert_eq!(state.framerate_error.as_deref(), Some("boom"));
}

#[test]
fn interface_settings_change_only_their_own_field() {
    let mut state = AppState::<String>::default();
    assert!(state.begin_pick(true));
    state.end_pick(true);
    assert!(!state.picking_file_a);
    assert!(state.begin_pick(true), "a closed dialog can be opened again");

    state.set_chapters_choice(ChaptersChoice::Neither);
    assert_eq!(state.chapters_choice, ChaptersChoice::Neither);
    state.set_attachments(true, false);
    state.set_attachments(false, true);
    assert!(!state.attachments_a && state.attachments_b);
    state.set_tags(true, true);
    assert!(state.tags_a && !state.tags_b);
    state.set_output_path(Some("/out/merged.mkv".to_string()));
    assert_eq!(state.output_path.as_deref(), Some("/out/merged.mkv"));
    state.set_output_path(None);
    assert!(state.output_path.is_none());

    state.framerate_error = Some("mismatch".to_string());
    assert!(state.blocking_reason().is_some());
    state.set_framerate_override(true);
    assert!(state.blocking_reason().is_none());

    assert!(!state.log_expanded);
    state.toggle_log_expanded();
    assert!(state.log_expanded);
    state.toggle_log_expanded();
    assert!(!state.log_expanded);
}

#[test]
fn detection_is_allowed_unless_an_unoverridden_mismatch_blocks_it() {
    let mut state = AppState::<String>::default();
    assert!(state.detect_offset_allowed());
    state.record_framerate_check(Err("video framerates differ".to_string()));
    assert!(!state.detect_offset_allowed());
    assert!(state.begin_detect_offset().is_none());
    assert_eq!(state.offset, OffsetState::NotDetected);
    state.set_framerate_override(true);
    assert!(state.detect_offset_allowed());
}
