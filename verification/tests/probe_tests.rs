use mediamerger::probe::{
    frame_rate_fraction,
    channel_layout_label, first_audio_track_id, media_file_from_identification, track_kind_named,
    IdentifiedTrack, Identification, TrackKind,
};

fn identified(id: u64, kind: &str, codec: &str) -> IdentifiedTrack {
    IdentifiedTrack {
        id,
        kind: kind.to_string(),
        codec: codec.to_string(),
        default_track: false,
        forced_track: false,
        language: None,
        track_name: None,
        audio_channels: None,
        default_duration: None,
    }
}

#[test]
fn parses_video_audio_subtitle_tracks() {
    // The identification of:
    // {"container": {"type": "Matroska"}, "tracks": [
    //   {"id":0,"type":"video","codec":"MPEG-4p10/AVC/h.264","properties":{"default_track":true,"forced_track":false,"default_duration":41708333}},
    //   {"id":1,"type":"audio","codec":"AC-3","properties":{"default_track":true,"forced_track":false,"language":"eng","audio_channels":6}},
    //   {"id":2,"type":"subtitles","codec":"SubRip/SRT","properties":{"default_track":false,"forced_track":false,"language":"fre","track_name":"Forced"}}]}
    let ident = Identification {
        container_kind: "Matroska".to_string(),
        tracks: vec![
            IdentifiedTrack { default_track: true, default_duration: Some(41708333), ..identified(0, "video", "MPEG-4p10/AVC/h.264") },
            IdentifiedTrack {
                default_track: true,
                language: Some("eng".to_string()),
                audio_channels: Some(6),
                ..identified(1, "audio", "AC-3")
            },
            IdentifiedTrack {
                language: Some("fre".to_string()),
                track_name: Some("Forced".to_string()),
                ..identified(2, "subtitles", "SubRip/SRT")
            },
        ],
    };

    let media = media_file_from_identification(ident, "test.mkv".to_string());

    assert_eq!(media.container, "Matroska");
    assert_eq!(media.path, "test.mkv");
    assert_eq!(media.tracks.len(), 3);

    assert_eq!(media.tracks[0].kind, TrackKind::Video);
    let fps = 1_000_000_000.0 / media.tracks[0].frame_duration_ns.unwrap() as f64;
    assert!((fps - 23.976).abs() < 0.01);
    assert!(media.tracks[0].default_flag);

    assert_eq!(media.tracks[1].kind, TrackKind::Audio);
    assert_eq!(media.tracks[1].channels, Some(6));
    assert_eq!(media.tracks[1].language.as_deref(), Some("eng"));

    assert_eq!(media.tracks[2].kind, TrackKind::Subtitle);
    assert_eq!(media.tracks[2].language.as_deref(), Some("fre"));
    assert_eq!(media.tracks[2].name.as_deref(), Some("Forced"));
}

#[test]
fn other_track_kinds_are_left_out_and_ids_kept() {
    let ident = Identification {
        container_kind: "Matroska".to_string(),
        tracks: vec![
            identified(0, "buttons", "VobBtn"),
            IdentifiedTrack { default_duration: Some(0), ..identified(4, "video", "HEVC") },
            identified(7, "audio", "FLAC"),
            identified(9, "Audio", "FLAC"),
        ],
    };
    let media = media_file_from_identification(ident, "x.mkv".to_string());
    assert_eq!(media.tracks.len(), 2);
    assert_eq!((media.tracks[0].id, media.tracks[0].kind), (4, TrackKind::Video));
    assert_eq!(media.tracks[0].frame_duration_ns, None, "a zero frame duration gives no frame rate");
    assert_eq!((media.tracks[1].id, media.tracks[1].kind), (7, TrackKind::Audio));
    assert_eq!(media.tracks[1].codec, "FLAC");
    assert_eq!(first_audio_track_id(&media), Some(7));
}

#[test]
fn track_kinds_are_named_as_mkvmerge_names_them() {
    assert_eq!(track_kind_named("video"), Some(TrackKind::Video));
    assert_eq!(track_kind_named("audio"), Some(TrackKind::Audio));
    assert_eq!(track_kind_named("subtitles"), Some(TrackKind::Subtitle));
    assert_eq!(track_kind_named("subtitle"), None);
}

#[test]
fn no_audio_track_gives_none() {
    let ident = Identification { container_kind: "MP4".to_string(), tracks: vec![identified(0, "video", "AVC")] };
    let media = media_file_from_identification(ident, "v.mp4".to_string());
    assert_eq!(first_audio_track_id(&media), None);
}

#[test]
fn channel_layouts_have_conventional_labels() {
    assert_eq!(channel_layout_label(1), "1.0");
    assert_eq!(channel_layout_label(2), "2.0");
    assert_eq!(channel_layout_label(6), "5.1");
    assert_eq!(channel_layout_label(8), "7.1");
    assert_eq!(channel_layout_label(3), "3ch");
    assert_eq!(channel_layout_label(12), "12ch");
}

#[test]
fn frame_rate_text_splits_at_the_slash() {
    let (text, parts) = frame_rate_fraction("24000/1001\n");
    assert_eq!(text, "24000/1001");
    assert_eq!(parts, Some(("24000".to_string(), "1001".to_string())));

    let (text, parts) = frame_rate_fraction("  25/1 ");
    assert_eq!(text, "25/1");
    assert_eq!(parts, Some(("25".to_string(), "1".to_string())));
}

#[test]
fn frame_rate_text_without_slash_has_no_parts() {
    let (text, parts) = frame_rate_fraction("25\n");
    assert_eq!(text, "25");
    assert_eq!(parts, None);
}
