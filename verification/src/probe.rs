//! Media files and their tracks, as mkvmerge's JSON identification
//! (`mkvmerge -J`) describes them.
use vstd::prelude::*;
use crate::text::{
    append_chars, chars_equal, chars_from, chars_of, decimal, push_decimal, string_from_chars,
    trim_both, trimmed, CharClass,
};

verus! {

#[derive(Debug, Clone, Copy, PartialEq, Eq, Structural)]
pub enum TrackKind {
    Video,
    Audio,
    Subtitle,
}

/// A track of a media file. Its `id` is the id that mkvmerge itself uses, so
/// it can be handed back to mkvmerge unchanged when merging.
#[derive(Debug, Clone)]
pub struct Track {
    pub id: u64,
    pub kind: TrackKind,
    pub codec: String,
    pub language: Option<String>,
    pub name: Option<String>,
    pub default_flag: bool,
    pub forced_flag: bool,
    /// Nanoseconds per frame (mkvmerge's `default_duration`), present only
    /// when mkvmerge reports a positive value; the frame rate is
    /// 1 000 000 000 divided by it.
    pub frame_duration_ns: Option<u64>,
    pub channels: Option<u32>,
}

#[derive(Debug, Clone)]
pub struct MediaFile {
    pub path: String,
    pub container: String,
    pub tracks: Vec<Track>,
}

/// One entry of the `tracks` array of mkvmerge's JSON identification.
#[derive(Debug)]
pub struct IdentifiedTrack {
    pub id: u64,
    /// The `type` field: `video`, `audio`, `subtitles`, or another kind.
    pub kind: String,
    pub codec: String,
    pub default_track: bool,
    pub forced_track: bool,
    pub language: Option<String>,
    pub track_name: Option<String>,
    pub audio_channels: Option<u32>,
    pub default_duration: Option<u64>,
}

/// mkvmerge's JSON identification of a file: the container type and the
/// tracks.
#[derive(Debug)]
pub struct Identification {
    pub container_kind: String,
    pub tracks: Vec<IdentifiedTrack>,
}

/// The track kind that mkvmerge's `type` names, if it is one that can be
/// merged.
pub open spec fn kind_named(kind: Seq<char>) -> Option<TrackKind> {
    if kind == "video"@ {
        Some(TrackKind::Video)
    } else if kind == "audio"@ {
        Some(TrackKind::Audio)
    } else if kind == "subtitles"@ {
        Some(TrackKind::Subtitle)
    } else {
        None
    }
}

/// The track that an identified track becomes: `None` for a kind that
/// cannot be merged; otherwise every field carried over, and the frame
/// duration kept only when positive.
pub open spec fn track_of(t: IdentifiedTrack) -> Option<Track> {
    match kind_named(t.kind@) {
        None => None,
        Some(kind) => Some(Track {
            id: t.id,
            kind,
            codec: t.codec,
            language: t.language,
            name: t.track_name,
            default_flag: t.default_track,
            forced_flag: t.forced_track,
            frame_duration_ns: match t.default_duration {
                Some(ns) => if ns > 0 { Some(ns) } else { None },
                None => None,
            },
            channels: t.audio_channels,
        }),
    }
}

/// The tracks that a list of identified tracks becomes, in order, the ones
/// of other kinds left out.
pub open spec fn tracks_of(ts: Seq<IdentifiedTrack>) -> Seq<Track>
    decreases ts.len(),
{
    if ts.len() == 0 {
        Seq::empty()
    } else {
        match track_of(ts.last()) {
            Some(t) => tracks_of(ts.drop_last()).push(t),
            None => tracks_of(ts.drop_last()),
        }
    }
}

/// The id of the first audio track, if there is one.
pub open spec fn first_audio_id(ts: Seq<Track>) -> Option<u64>
    decreases ts.len(),
{
    if ts.len() == 0 {
        None
    } else if ts[0].kind == TrackKind::Audio {
        Some(ts[0].id)
    } else {
        first_audio_id(ts.drop_first())
    }
}

/// Maps mkvmerge's `type` of a track to a track kind.
pub fn track_kind_named(kind: &str) -> (r: Option<TrackKind>)
    ensures
        r == kind_named(kind@),
{
    let k = chars_of(kind);
    if chars_equal(&k, &chars_of("video")) {
        Some(TrackKind::Video)
    } else if chars_equal(&k, &chars_of("audio")) {
        Some(TrackKind::Audio)
    } else if chars_equal(&k, &chars_of("subtitles")) {
        Some(TrackKind::Subtitle)
    } else {
        None
    }
}

/// Turns one identified track into a track, or `None` when its kind cannot
/// be merged.
pub fn track_from_identified(t: IdentifiedTrack) -> (r: Option<Track>)
    ensures
        r == track_of(t),
        r is Some <==> (t.kind@ == "video"@ || t.kind@ == "audio"@ || t.kind@ == "subtitles"@),
        r matches Some(tr) ==> {
            &&& tr.id == t.id
            &&& tr.default_flag == t.default_track
            &&& tr.forced_flag == t.forced_track
            &&& tr.codec == t.codec
            &&& tr.language == t.language
            &&& tr.name == t.track_name
            &&& tr.channels == t.audio_channels
        },
{
    let kind = match track_kind_named(t.kind.as_str()) {
        Some(k) => k,
        None => {
            return None;
        },
    };
    let frame_duration_ns = match t.default_duration {
        Some(ns) => if ns > 0 { Some(ns) } else { None },
        None => None,
    };
    Some(Track {
        id: t.id,
        kind,
        codec: t.codec,
        language: t.language,
        name: t.track_name,
        default_flag: t.default_track,
        forced_flag: t.forced_track,
        frame_duration_ns,
        channels: t.audio_channels,
    })
}

/// Turns mkvmerge's identification of the file at `path` into a media file:
/// the container type, and the video, audio and subtitle tracks in the order
/// mkvmerge lists them.
pub fn media_file_from_identification(ident: Identification, path: String) -> (r: MediaFile)
    ensures
        r.path == path,
        r.container == ident.container_kind,
        r.tracks@ == tracks_of(ident.tracks@),
{
    let Identification { container_kind, tracks: idents } = ident;
    let ghost all = idents@;
    let mut rest = idents;
    let mut tracks: Vec<Track> = Vec::new();
    let ghost mut done: int = 0;
    proof {
        assert(all.take(0) =~= Seq::<IdentifiedTrack>::empty());
        assert(all.skip(0) =~= all);
    }
    while rest.len() > 0
        invariant
            0 <= done <= all.len(),
            rest@ == all.skip(done),
            tracks@ == tracks_of(all.take(done)),
        decreases rest@.len(),
    {
        let t = rest.remove(0);
        proof {
            assert(t == all[done]);
            assert(all.take(done + 1).drop_last() =~= all.take(done));
            assert(all.take(done + 1).last() == all[done]);
            assert(rest@ =~= all.skip(done + 1));
        }
        match track_from_identified(t) {
            Some(track) => tracks.push(track),
            None => {},
        }
        proof {
            done = done + 1;
        }
    }
    proof {
        assert(all.take(done) =~= all);
    }
    MediaFile { path, container: container_kind, tracks }
}

/// The id of `file`'s first audio track, if it has one.
pub fn first_audio_track_id(file: &MediaFile) -> (r: Option<u64>)
    ensures
        r == first_audio_id(file.tracks@),
{
    let n: usize = file.tracks.len();
    let mut i: usize = 0;
    proof {
        assert(file.tracks@.skip(0) =~= file.tracks@);
    }
    while i < n
        invariant
            n == file.tracks@.len(),
            i <= n,
            first_audio_id(file.tracks@.skip(i as int)) == first_audio_id(file.tracks@),
        decreases n - i,
    {
        if file.tracks[i].kind == TrackKind::Audio {
            return Some(file.tracks[i].id);
        }
        proof {
            assert(file.tracks@.skip(i as int).drop_first() =~= file.tracks@.skip(i + 1));
        }
        i = i + 1;
    }
    None
}

/// A probed file keeps exactly the tracks of kinds that can be merged, each
/// with mkvmerge's own id: every track comes from an identified track, and
/// every identified video, audio or subtitle track is kept.
pub proof fn law_probe_keeps_mergeable_tracks(ts: Seq<IdentifiedTrack>)
    ensures
        forall|k: int|
            #![trigger tracks_of(ts)[k]]
            0 <= k < tracks_of(ts).len() ==> exists|j: int|
                0 <= j < ts.len() && #[trigger] track_of(ts[j]) == Some(tracks_of(ts)[k]),
        forall|j: int|
            #![trigger ts[j]]
            0 <= j < ts.len() && kind_named(ts[j].kind@) is Some ==> exists|k: int|
                0 <= k < tracks_of(ts).len() && #[trigger] tracks_of(ts)[k] == track_of(ts[j])->0,
    decreases ts.len(),
{
    if ts.len() > 0 {
        let init = ts.drop_last();
        law_probe_keeps_mergeable_tracks(init);
        let rest = tracks_of(init);
        let all = tracks_of(ts);
        assert forall|k: int| #![trigger all[k]] 0 <= k < all.len() implies exists|j: int|
            0 <= j < ts.len() && #[trigger] track_of(ts[j]) == Some(all[k]) by {
            if k < rest.len() {
                assert(all[k] == rest[k]);
                let j = choose|j: int| 0 <= j < init.len() && #[trigger] track_of(init[j]) == Some(rest[k]);
                assert(ts[j] == init[j]);
            } else {
                assert(track_of(ts[ts.len() - 1]) == Some(all[k]));
            }
        }
        assert forall|j: int| #![trigger ts[j]] 0 <= j < ts.len() && kind_named(ts[j].kind@) is Some implies exists|k: int|
            0 <= k < all.len() && #[trigger] all[k] == track_of(ts[j])->0 by {
            if j < init.len() {
                assert(ts[j] == init[j]);
                let k = choose|k: int| 0 <= k < rest.len() && #[trigger] rest[k] == track_of(init[j])->0;
                assert(all[k] == rest[k]);
            } else {
                assert(all[all.len() - 1] == track_of(ts[j])->0);
            }
        }
    }
}

/// The conventional label of an audio channel count: `1.0`, `2.0`, `5.1`
/// and `7.1` for 1, 2, 6 and 8 channels, `<n>ch` otherwise.
pub open spec fn channel_layout_of(channels: u32) -> Seq<char> {
    if channels == 1 {
        "1.0"@
    } else if channels == 2 {
        "2.0"@
    } else if channels == 6 {
        "5.1"@
    } else if channels == 8 {
        "7.1"@
    } else {
        decimal(channels as nat) + "ch"@
    }
}

/// The conventional label of an audio channel count.
pub fn channel_layout_label(channels: u32) -> (label: String)
    ensures
        label@ == channel_layout_of(channels),
{
    if channels == 1 {
        "1.0".to_owned()
    } else if channels == 2 {
        "2.0".to_owned()
    } else if channels == 6 {
        "5.1".to_owned()
    } else if channels == 8 {
        "7.1".to_owned()
    } else {
        let mut v: Vec<char> = Vec::new();
        push_decimal(&mut v, channels as u64);
        append_chars(&mut v, &chars_of("ch"));
        string_from_chars(v.as_slice())
    }
}

/// The index of the first `c` in `s`, if there is one.
pub open spec fn first_index_of(s: Seq<char>, c: char) -> Option<int>
    decreases s.len(),
{
    if s.len() == 0 {
        None
    } else if s[0] == c {
        Some(0)
    } else {
        match first_index_of(s.drop_first(), c) {
            Some(i) => Some(i + 1),
            None => None,
        }
    }
}

/// ffprobe's `r_frame_rate` output read as a fraction: the text without
/// surrounding whitespace, and its numerator and denominator text around the
/// first `/` (none when there is no `/`).
pub open spec fn fraction_parts_of(text: Seq<char>) -> (Seq<char>, Option<(Seq<char>, Seq<char>)>) {
    let t = trim_both(text, CharClass::Whitespace);
    (
        t,
        match first_index_of(t, '/') {
            Some(i) => Some((t.take(i), t.skip(i + 1))),
            None => None,
        },
    )
}

proof fn lemma_first_index_of_skip(s: Seq<char>, c: char, i: int)
    requires
        0 <= i < s.len(),
        s[i] != c,
    ensures
        first_index_of(s.skip(i), c) == match first_index_of(s.skip(i + 1), c) {
            Some(k) => Some(k + 1),
            None => None,
        },
{
    assert(s.skip(i).drop_first() =~= s.skip(i + 1));
}

/// Reads ffprobe's `r_frame_rate` output (such as `24000/1001`) as a
/// fraction: the trimmed text, and the numerator and denominator text.
pub fn frame_rate_fraction(text: &str) -> (r: (String, Option<(String, String)>))
    ensures
        r.0@ == fraction_parts_of(text@).0,
        match (r.1, fraction_parts_of(text@).1) {
            (Some((n, d)), Some((sn, sd))) => n@ == sn && d@ == sd,
            (None, None) => true,
            _ => false,
        },
{
    let t = trimmed(&chars_of(text), CharClass::Whitespace);
    let n: usize = t.len();
    let mut i: usize = 0;
    proof {
        assert(t@.skip(0) =~= t@);
    }
    while i < n && t[i] != '/'
        invariant
            n == t@.len(),
            i <= n,
            first_index_of(t@, '/') == match first_index_of(t@.skip(i as int), '/') {
                Some(k) => Some(k + i),
                None => None,
            },
        decreases n - i,
    {
        proof {
            lemma_first_index_of_skip(t@, '/', i as int);
        }
        i = i + 1;
    }
    let whole = string_from_chars(t.as_slice());
    if i == n {
        proof {
            assert(t@.skip(n as int).len() == 0);
        }
        (whole, None)
    } else {
        proof {
            assert(t@.skip(i as int)[0] == '/');
        }
        let mut num: Vec<char> = Vec::new();
        let mut k: usize = 0;
        while k < i
            invariant
                n == t@.len(),
                k <= i < n,
                num@ == t@.take(k as int),
            decreases i - k,
        {
            num.push(t[k]);
            assert(t@.take(k + 1) =~= t@.take(k as int).push(t@[k as int]));
            k = k + 1;
        }
        let den = chars_from(&t, i + 1);
        (whole, Some((string_from_chars(num.as_slice()), string_from_chars(den.as_slice()))))
    }
}

/// Probing copies each kept track's fields from the identified track it
/// comes from: the id, the default and forced flags, the codec, language,
/// name and channel count, and the kind that mkvmerge's type names.
pub proof fn law_probe_copies_track_fields(ts: Seq<IdentifiedTrack>)
    ensures
        forall|k: int|
            #![trigger tracks_of(ts)[k]]
            0 <= k < tracks_of(ts).len() ==> exists|j: int|
                0 <= j < ts.len() && {
                    let tr = tracks_of(ts)[k];
                    let it = #[trigger] ts[j];
                    &&& tr.id == it.id
                    &&& tr.default_flag == it.default_track
                    &&& tr.forced_flag == it.forced_track
                    &&& tr.codec == it.codec
                    &&& tr.language == it.language
                    &&& tr.name == it.track_name
                    &&& tr.channels == it.audio_channels
                    &&& (tr.kind == TrackKind::Video <==> it.kind@ == "video"@)
                    &&& (tr.kind == TrackKind::Audio <==> it.kind@ == "audio"@)
                    &&& (tr.kind == TrackKind::Subtitle <==> it.kind@ == "subtitles"@)
                },
{
    law_probe_keeps_mergeable_tracks(ts);
    assert forall|k: int| #![trigger tracks_of(ts)[k]] 0 <= k < tracks_of(ts).len() implies exists|j: int|
        0 <= j < ts.len() && {
            let tr = tracks_of(ts)[k];
            let it = #[trigger] ts[j];
            &&& tr.id == it.id
            &&& tr.default_flag == it.default_track
            &&& tr.forced_flag == it.forced_track
            &&& tr.codec == it.codec
            &&& tr.language == it.language
            &&& tr.name == it.track_name
            &&& tr.channels == it.audio_channels
            &&& (tr.kind == TrackKind::Video <==> it.kind@ == "video"@)
            &&& (tr.kind == TrackKind::Audio <==> it.kind@ == "audio"@)
            &&& (tr.kind == TrackKind::Subtitle <==> it.kind@ == "subtitles"@)
        } by {
        let j = choose|j: int| 0 <= j < ts.len() && #[trigger] track_of(ts[j]) == Some(tracks_of(ts)[k]);
        let it = ts[j];
        reveal_strlit("video");
        reveal_strlit("audio");
        reveal_strlit("subtitles");
        assert("video"@[0] != "audio"@[0]);
        assert("video"@.len() != "subtitles"@.len());
        assert("audio"@.len() != "subtitles"@.len());
    }
}

} // verus!
