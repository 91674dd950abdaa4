use mediamerger::mux::{build_command, gui_mode_args, mux_exit_ok, progress_text, ChapterSource, MergePlan, TrackSelection};
use mediamerger::probe::TrackKind;

fn args_of(strs: &[&str]) -> Vec<String> {
    strs.iter().map(|s| s.to_string()).collect()
}

/// Seconds as the plan holds them: milliseconds.
fn ms(secs: f64) -> i64 {
    (secs * 1000.0).round() as i64
}

#[test]
fn builds_command_for_simple_video_a_audio_b_case() {
    let plan = MergePlan {
        file_a: "video_source.mkv".to_string(),
        file_b: "audio_source.mkv".to_string(),
        tracks_from_a: vec![TrackSelection { track_id: 0, kind: TrackKind::Video, set_default: true, set_forced: false }],
        tracks_from_b: vec![TrackSelection { track_id: 1, kind: TrackKind::Audio, set_default: true, set_forced: false }],
        offset_ms: ms(2.348),
        chapters: ChapterSource::FileA,
        attachments_from_a: false,
        attachments_from_b: false,
        tags_from_a: false,
        tags_from_b: false,
        output_path: "output.mkv".to_string(),
    };

    let args = build_command(&plan);

    assert_eq!(
        args,
        args_of(&[
            "--video-tracks", "0",
            "--no-audio",
            "--no-subtitles",
            "--default-track-flag", "0:yes",
            "--no-attachments",
            "--no-global-tags", "--no-track-tags",
            "video_source.mkv",
            "--no-video",
            "--audio-tracks", "1",
            "--no-subtitles",
            "--default-track-flag", "1:yes",
            "--sync", "1:-2348",
            "--no-chapters",
            "--no-attachments",
            "--no-global-tags", "--no-track-tags",
            "audio_source.mkv",
            "-o", "output.mkv",
            "--track-order", "0:0,1:1",
        ])
    );
}

#[test]
fn no_chapters_for_both_and_attachments_kept_for_b_with_negative_offset() {
    let plan = MergePlan {
        file_a: "a.mkv".to_string(),
        file_b: "b.mkv".to_string(),
        tracks_from_a: vec![TrackSelection { track_id: 0, kind: TrackKind::Video, set_default: false, set_forced: false }],
        tracks_from_b: vec![TrackSelection { track_id: 2, kind: TrackKind::Subtitle, set_default: false, set_forced: true }],
        offset_ms: ms(-0.5),
        chapters: ChapterSource::Neither,
        attachments_from_a: false,
        attachments_from_b: true,
        tags_from_a: false,
        tags_from_b: false,
        output_path: "out.mkv".to_string(),
    };

    let args = build_command(&plan);

    assert_eq!(args.iter().filter(|a| a.as_str() == "--no-chapters").count(), 2);
    assert_eq!(args.iter().filter(|a| a.as_str() == "--no-attachments").count(), 1);
    assert_eq!(args.iter().filter(|a| a.as_str() == "--forced-display-flag").count(), 1);

    let sync_idx = args.iter().position(|a| a == "--sync").expect("--sync present");
    assert_eq!(args[sync_idx + 1], "2:500");
}

#[test]
fn several_tracks_of_a_kind_are_comma_joined_and_ordered() {
    let sel = |id, kind| TrackSelection { track_id: id, kind, set_default: false, set_forced: false };
    let plan = MergePlan {
        file_a: "a.mkv".to_string(),
        file_b: "b.mkv".to_string(),
        tracks_from_a: vec![sel(3, TrackKind::Audio), sel(0, TrackKind::Video), sel(12, TrackKind::Audio)],
        tracks_from_b: vec![sel(4, TrackKind::Subtitle), sel(5, TrackKind::Subtitle)],
        offset_ms: 0,
        chapters: ChapterSource::FileB,
        attachments_from_a: true,
        attachments_from_b: true,
        tags_from_a: true,
        tags_from_b: true,
        output_path: "o.mkv".to_string(),
    };
    let args = build_command(&plan);
    assert_eq!(
        args,
        args_of(&[
            "--video-tracks", "0",
            "--audio-tracks", "3,12",
            "--no-subtitles",
            "--no-chapters",
            "a.mkv",
            "--no-video",
            "--no-audio",
            "--subtitle-tracks", "4,5",
            "--sync", "4:0",
            "--sync", "5:0",
            "b.mkv",
            "-o", "o.mkv",
            "--track-order", "0:3,0:0,0:12,1:4,1:5",
        ])
    );
}

#[test]
fn extreme_offset_saturates_the_delay() {
    let plan = MergePlan {
        file_a: "a.mkv".to_string(),
        file_b: "b.mkv".to_string(),
        tracks_from_a: vec![],
        tracks_from_b: vec![TrackSelection { track_id: 1, kind: TrackKind::Audio, set_default: false, set_forced: false }],
        offset_ms: i64::MIN,
        chapters: ChapterSource::FileA,
        attachments_from_a: true,
        attachments_from_b: true,
        tags_from_a: true,
        tags_from_b: true,
        output_path: "o.mkv".to_string(),
    };
    let args = build_command(&plan);
    assert!(args.contains(&format!("1:{}", i64::MAX)));
    assert_eq!(args.last().map(|s| s.as_str()), Some("1:1"));
    assert_eq!(&args[..4], &args_of(&["--no-video", "--no-audio", "--no-subtitles", "a.mkv"])[..]);
}

#[test]
fn parses_gui_progress_line() {
    let text = progress_text("#GUI#progress 42%").expect("a progress line");
    assert_eq!(text, "42");
    assert_eq!(text.parse::<f32>().map(|p| p / 100.0), Ok(0.42));
}

#[test]
fn treats_other_lines_as_log() {
    assert_eq!(progress_text("Warning: some warning text"), None);
    assert_eq!(progress_text("#GUI#progress"), None);
}

#[test]
fn progress_text_trims_space_and_percent_signs() {
    assert_eq!(progress_text("#GUI#progress  7 %%\n").as_deref(), Some("7 "));
    assert_eq!(progress_text("#GUI#progress 100%").as_deref(), Some("100"));
}

#[test]
fn mkvmerge_runs_in_gui_mode() {
    let full = gui_mode_args(&args_of(&["-o", "x.mkv"]));
    assert_eq!(full, args_of(&["--gui-mode", "-o", "x.mkv"]));
}

#[test]
fn exit_status_one_is_success_with_warnings() {
    assert!(mux_exit_ok(Some(0)));
    assert!(mux_exit_ok(Some(1)));
    assert!(!mux_exit_ok(Some(2)));
    assert!(!mux_exit_ok(None));
}

fn sel(track_id: u64, kind: TrackKind) -> TrackSelection {
    TrackSelection { track_id, kind, set_default: false, set_forced: false }
}

fn block_plan(attachments_from_a: bool, attachments_from_b: bool, tags_from_a: bool, tags_from_b: bool, chapters: ChapterSource) -> MergePlan {
    MergePlan {
        file_a: "a.mkv".to_string(),
        file_b: "b.mkv".to_string(),
        tracks_from_a: vec![sel(0, TrackKind::Video), sel(1, TrackKind::Audio)],
        tracks_from_b: vec![sel(2, TrackKind::Audio), sel(3, TrackKind::Subtitle), sel(5, TrackKind::Audio)],
        offset_ms: 1500,
        chapters,
        attachments_from_a,
        attachments_from_b,
        tags_from_a,
        tags_from_b,
        output_path: "out.mkv".to_string(),
    }
}

#[test]
fn every_sync_lies_in_file_b_block_followed_by_its_track_delay() {
    let plan = block_plan(true, true, true, true, ChapterSource::FileA);
    let args = build_command(&plan);
    let ia = args.iter().position(|a| a == "a.mkv").unwrap();
    let ib = args.iter().position(|a| a == "b.mkv").unwrap();
    let syncs: Vec<usize> = args.iter().enumerate().filter(|(_, a)| *a == "--sync").map(|(i, _)| i).collect();
    assert_eq!(syncs.len(), 3);
    for (k, &i) in syncs.iter().enumerate() {
        assert!(ia < i && i + 1 < ib, "--sync at {i} outside File B's block");
        let id = plan.tracks_from_b[k].track_id;
        assert_eq!(args[i + 1], format!("{id}:-1500"));
    }
}

fn block_has(args: &[String], from: usize, to: usize, flag: &str) -> usize {
    args[from..to].iter().filter(|a| *a == flag).count()
}

#[test]
fn extras_are_dropped_file_by_file() {
    let plan = block_plan(false, true, true, false, ChapterSource::FileB);
    let args = build_command(&plan);
    let ia = args.iter().position(|a| a == "a.mkv").unwrap();
    let ib = args.iter().position(|a| a == "b.mkv").unwrap();
    assert_eq!(block_has(&args, 0, ia, "--no-chapters"), 1);
    assert_eq!(block_has(&args, ia + 1, ib, "--no-chapters"), 0);
    assert_eq!(block_has(&args, 0, ia, "--no-attachments"), 1);
    assert_eq!(block_has(&args, ia + 1, ib, "--no-attachments"), 0);
    assert_eq!(block_has(&args, 0, ia, "--no-global-tags"), 0);
    assert_eq!(block_has(&args, 0, ia, "--no-track-tags"), 0);
    assert_eq!(args[ib - 2], "--no-global-tags");
    assert_eq!(args[ib - 1], "--no-track-tags");
    assert_eq!(block_has(&args, ia + 1, ib, "--no-global-tags"), 1);
}
