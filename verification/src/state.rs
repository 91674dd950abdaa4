//! The merge session: which tracks are chosen, the sync offset, the extras,
//! and the rules that decide when a merge may run.
use vstd::prelude::*;
use crate::mux::{
    law_only_file_b_tracks_are_delayed, merge_args, occurrences, ChapterSource, MergePlan,
    TrackSelection,
};
use crate::paths::{file_stem, join, parent, path_file_stem, path_join, path_parent};
use crate::probe::{first_audio_id, first_audio_track_id, MediaFile, Track};
use crate::text::{
    chars_equal, chars_of, contains_chars, occurs_at, decimal, digit_char, is_ascii_digit, owned, push_decimal, string_from_chars, trim_both, trimmed,
    CharClass,
};

verus! {

/// Which input file's chapters to keep, as chosen in the interface.
#[derive(Debug, Clone, Copy, PartialEq, Eq, Structural)]
pub enum ChaptersChoice {
    FileA,
    FileB,
    /// Neither file's chapters.
    Neither,
}

/// The interface state of one track row: whether it is chosen, and the
/// flags to set on it.
#[derive(Debug, Clone, Copy, PartialEq, Eq, Structural)]
pub struct TrackUiState {
    pub selected: bool,
    pub default_flag: bool,
    pub forced_flag: bool,
}

impl Default for TrackUiState {
    fn default() -> (r: Self)
        ensures
            r == (TrackUiState { selected: false, default_flag: false, forced_flag: false }),
    {
        TrackUiState { selected: false, default_flag: false, forced_flag: false }
    }
}

/// The accent name that GNOME's `accent-color` setting gives: the text with
/// surrounding whitespace, then surrounding single quotes, removed.
pub open spec fn accent_name_of(output: Seq<char>) -> Seq<char> {
    trim_both(trim_both(output, CharClass::Whitespace), CharClass::Exactly('\''))
}

/// The hex colour of a GNOME accent name that the interface knows.
pub open spec fn accent_hex_of(name: Seq<char>) -> Option<Seq<char>> {
    if name == "blue"@ {
        Some("#3584e4"@)
    } else if name == "green"@ {
        Some("#3a944a"@)
    } else if name == "purple"@ {
        Some("#9141ac"@)
    } else if name == "orange"@ {
        Some("#ed5b00"@)
    } else {
        None
    }
}

/// Reads the output of `gsettings get org.gnome.desktop.interface
/// accent-color` (such as `'blue'` and a newline) and gives the hex colour
/// of a known accent name, or `None`.
pub fn parse_accent_name(output: &str) -> (r: Option<&'static str>)
    ensures
        match r {
            Some(hex) => accent_hex_of(accent_name_of(output@)) == Some(hex@),
            None => accent_hex_of(accent_name_of(output@)) is None,
        },
{
    let name = trimmed(&trimmed(&chars_of(output), CharClass::Whitespace), CharClass::Exactly('\''));
    if chars_equal(&name, &chars_of("blue")) {
        Some("#3584e4")
    } else if chars_equal(&name, &chars_of("green")) {
        Some("#3a944a")
    } else if chars_equal(&name, &chars_of("purple")) {
        Some("#9141ac")
    } else if chars_equal(&name, &chars_of("orange")) {
        Some("#ed5b00")
    } else {
        None
    }
}

/// The accent colour to use: the one that GNOME's setting names when it can
/// be read and is known, Adwaita blue otherwise.
pub fn accent_hex_or_default(output: Option<&str>) -> (hex: &'static str)
    ensures
        hex@ == (match output {
            Some(o) => match accent_hex_of(accent_name_of(o@)) {
                Some(h) => h,
                None => "#3584e4"@,
            },
            None => "#3584e4"@,
        }),
{
    match output {
        Some(o) => match parse_accent_name(o) {
            Some(h) => h,
            None => "#3584e4",
        },
        None => "#3584e4",
    }
}

/// Whether the output of `gsettings get org.gnome.desktop.interface
/// color-scheme` asks for a dark theme: it mentions `prefer-dark`.
pub fn prefers_dark(output: &str) -> (dark: bool)
    ensures
        dark == exists|i: int| occurs_at(output@, "prefer-dark"@, i),
{
    contains_chars(&chars_of(output), &chars_of("prefer-dark"))
}

/// The default output path for a File A path: File A's own directory and
/// stem, with ` — Merged.mkv` appended; `None` when the path has no stem or
/// no parent.
pub open spec fn default_output_path_of(file_a_path: Seq<char>) -> Option<Seq<char>> {
    match (path_file_stem(file_a_path), path_parent(file_a_path)) {
        (Some(stem), Some(dir)) => Some(path_join(dir, merged_name_of(stem))),
        _ => None,
    }
}

/// The merged output's file name for File A's stem: the stem, unchanged,
/// and ` — Merged.mkv`.
pub open spec fn merged_name_of(stem: Seq<char>) -> Seq<char> {
    stem + " — Merged.mkv"@
}

/// The merged output's file name for File A's stem.
pub fn merged_file_name(stem: &str) -> (name: String)
    ensures
        name@ == merged_name_of(stem@),
{
    let mut name = owned(stem);
    name.append(" — Merged.mkv");
    name
}

/// The default output path: File A's stem, unchanged, with a ` — Merged.mkv`
/// postfix, in File A's directory.
pub fn default_output_path(file_a_path: &str) -> (r: Option<String>)
    ensures
        match r {
            Some(p) => default_output_path_of(file_a_path@) == Some(p@),
            None => default_output_path_of(file_a_path@) is None,
        },
{
    let stem = match file_stem(file_a_path) {
        Some(s) => s,
        None => {
            return None;
        },
    };
    let dir = match parent(file_a_path) {
        Some(d) => d,
        None => {
            return None;
        },
    };
    let name = merged_file_name(stem.as_str());
    Some(join(dir.as_str(), name.as_str()))
}

/// `h:mm:ss` for a whole number of seconds: hours unpadded, minutes and
/// seconds two digits each.
pub open spec fn hms_of(total: nat) -> Seq<char> {
    let minutes = (total % 3600) / 60;
    let seconds = total % 60;
    decimal(total / 3600) + seq![':', crate::text::digit_char(minutes / 10), crate::text::digit_char(minutes % 10), ':', crate::text::digit_char(seconds / 10), crate::text::digit_char(seconds % 10)]
}

/// Formats a duration of whole seconds as `h:mm:ss`.
pub fn format_hms(total_secs: u64) -> (s: String)
    ensures
        s@ == hms_of(total_secs as nat),
{
    let hours: u64 = total_secs / 3600;
    let minutes: u64 = (total_secs % 3600) / 60;
    let seconds: u64 = total_secs % 60;
    let mut v: Vec<char> = Vec::new();
    push_decimal(&mut v, hours);
    v.push(':');
    v.push(crate::text::digit(minutes / 10));
    v.push(crate::text::digit(minutes % 10));
    v.push(':');
    v.push(crate::text::digit(seconds / 10));
    v.push(crate::text::digit(seconds % 10));
    assert(v@ =~= hms_of(total_secs as nat));
    string_from_chars(v.as_slice())
}

/// An offset in milliseconds written as seconds with three decimals, as the
/// offset field shows it (`2.348`, `-0.500`). A value below zero that rounds
/// to 0 ms keeps its sign (`-0.000`).
pub open spec fn offset_text_of(ms: int, below_zero: bool) -> Seq<char> {
    let m: nat = if ms < 0 { (-ms) as nat } else { ms as nat };
    let frac = m % 1000;
    (if ms < 0 || (ms == 0 && below_zero) { seq!['-'] } else { Seq::empty() }) + decimal(m / 1000) + seq![
        '.',
        crate::text::digit_char(frac / 100),
        crate::text::digit_char((frac / 10) % 10),
        crate::text::digit_char(frac % 10),
    ]
}

/// Writes an offset in milliseconds as seconds with three decimals;
/// `below_zero` tells whether the value was below zero before it was
/// rounded to milliseconds.
pub fn format_offset_ms(ms: i64, below_zero: bool) -> (s: String)
    ensures
        s@ == offset_text_of(ms as int, below_zero),
{
    let m: u64 = if ms < 0 {
        (-(ms as i128)) as u64
    } else {
        ms as u64
    };
    let frac: u64 = m % 1000;
    let mut v: Vec<char> = Vec::new();
    if ms < 0 || (ms == 0 && below_zero) {
        v.push('-');
    }
    push_decimal(&mut v, m / 1000);
    v.push('.');
    v.push(crate::text::digit(frac / 100));
    v.push(crate::text::digit((frac / 10) % 10));
    v.push(crate::text::digit(frac % 10));
    assert(v@ =~= offset_text_of(ms as int, below_zero));
    string_from_chars(v.as_slice())
}

/// The selection that a chosen row makes of a track.
pub open spec fn selection_of(t: Track, u: TrackUiState) -> TrackSelection {
    TrackSelection {
        track_id: t.id,
        kind: t.kind,
        set_default: u.default_flag,
        set_forced: u.forced_flag,
    }
}

/// The selections of the first `n` rows, the chosen ones in row order.
pub open spec fn selected_upto(tracks: Seq<Track>, ui: Seq<TrackUiState>, n: nat) -> Seq<
    TrackSelection,
>
    decreases n,
{
    if n == 0 {
        Seq::empty()
    } else {
        let rest = selected_upto(tracks, ui, (n - 1) as nat);
        if ui[n - 1].selected {
            rest.push(selection_of(tracks[n - 1], ui[n - 1]))
        } else {
            rest
        }
    }
}

/// The selections that the rows make of the tracks: rows and tracks are
/// paired in order (as far as both go), and each chosen row gives one
/// selection.
pub open spec fn selected_of(tracks: Seq<Track>, ui: Seq<TrackUiState>) -> Seq<TrackSelection> {
    selected_upto(
        tracks,
        ui,
        if tracks.len() <= ui.len() {
            tracks.len()
        } else {
            ui.len()
        },
    )
}

/// The selections that the rows make of the tracks.
pub fn selections(tracks: &[Track], ui: &[TrackUiState]) -> (r: Vec<TrackSelection>)
    ensures
        r@ == selected_of(tracks@, ui@),
{
    let n: usize = if tracks.len() <= ui.len() {
        tracks.len()
    } else {
        ui.len()
    };
    let mut r: Vec<TrackSelection> = Vec::new();
    let mut i: usize = 0;
    while i < n
        invariant
            n <= tracks@.len(),
            n <= ui@.len(),
            n == (if tracks@.len() <= ui@.len() {
                tracks@.len()
            } else {
                ui@.len()
            }),
            i <= n,
            r@ == selected_upto(tracks@, ui@, i as nat),
        decreases n - i,
    {
        let u = ui[i];
        if u.selected {
            r.push(
                TrackSelection {
                    track_id: tracks[i].id,
                    kind: tracks[i].kind,
                    set_default: u.default_flag,
                    set_forced: u.forced_flag,
                },
            );
        }
        i = i + 1;
    }
    r
}

/// The chapter source of the plan for an interface choice.
pub open spec fn chapter_source_of(choice: ChaptersChoice) -> ChapterSource {
    match choice {
        ChaptersChoice::FileA => ChapterSource::FileA,
        ChaptersChoice::FileB => ChapterSource::FileB,
        ChaptersChoice::Neither => ChapterSource::Neither,
    }
}

/// The chapter source of the plan for an interface choice: the same file,
/// or neither.
pub fn chapter_source(choice: ChaptersChoice) -> (r: ChapterSource)
    ensures
        r == chapter_source_of(choice),
        choice == ChaptersChoice::FileA ==> r == ChapterSource::FileA,
        choice == ChaptersChoice::FileB ==> r == ChapterSource::FileB,
        choice == ChaptersChoice::Neither ==> r == ChapterSource::Neither,
{
    match choice {
        ChaptersChoice::FileA => ChapterSource::FileA,
        ChaptersChoice::FileB => ChapterSource::FileB,
        ChaptersChoice::Neither => ChapterSource::Neither,
    }
}

/// How far the two measurements of an offset detection agree.
#[derive(Debug, Clone, Copy, PartialEq, Eq, Structural)]
pub enum Consistency {
    /// The early and the late measurement agree.
    Consistent,
    /// The early and the late measurement disagree: a single fixed offset
    /// may not hold.
    Inconsistent,
    /// The file was too short for a second measurement.
    Unverified,
}

/// What a successful offset detection yields for the session: the offset of
/// File B against File A, rounded to milliseconds, whether the measured
/// offset was below zero, and its consistency.
#[derive(Debug, Clone, Copy, PartialEq, Eq, Structural)]
pub struct DetectedOffset {
    pub offset_ms: i64,
    pub below_zero: bool,
    pub consistency: Consistency,
}

/// The sync offset of the session.
#[derive(Debug, Clone, Copy, PartialEq, Eq, Structural)]
pub enum OffsetState {
    NotDetected,
    Detecting,
    Detected(DetectedOffset),
    /// An offset that the user entered, rounded to milliseconds, and
    /// whether the entered value was below zero.
    ManualOverride { offset_ms: i64, below_zero: bool },
}

/// The audio tracks to measure the offset on: the first audio track of each
/// file.
#[derive(Debug)]
pub struct AudioPair {
    pub path_a: String,
    pub track_a: u64,
    pub path_b: String,
    pub track_b: u64,
}

/// What the running merge reports back to the session.
#[derive(Debug)]
pub enum MergeUpdate {
    /// A line of mkvmerge's log output.
    Log(String),
    /// mkvmerge finished, successfully or with the error text.
    Finished(Result<(), String>),
    /// The merge worker went away without reporting an end.
    Vanished,
}

/// Whether the merge can start, and what to tell the user when it cannot.
#[derive(Debug)]
pub enum MergeReadiness {
    /// Everything is in place; the number of chosen track rows.
    Ready(usize),
    /// A blocking reason stops the merge.
    Blocked(String),
    /// No track row is chosen.
    NoTrackSelected,
    /// No offset is detected or entered.
    NoOffset,
    /// The output file (or an input file) is missing.
    ChooseOutput,
}

/// The number of chosen rows.
pub open spec fn count_selected(ui: Seq<TrackUiState>) -> nat
    decreases ui.len(),
{
    if ui.len() == 0 {
        0
    } else {
        count_selected(ui.drop_last()) + if ui.last().selected {
            1nat
        } else {
            0nat
        }
    }
}

fn count_selected_rows(ui: &Vec<TrackUiState>) -> (n: usize)
    ensures
        n == count_selected(ui@),
{
    let len: usize = ui.len();
    let mut n: usize = 0;
    let mut i: usize = 0;
    while i < len
        invariant
            len == ui@.len(),
            i <= len,
            n == count_selected(ui@.take(i as int)),
            n <= i,
        decreases len - i,
    {
        assert(ui@.take(i + 1).drop_last() =~= ui@.take(i as int));
        if ui[i].selected {
            n = n + 1;
        }
        i = i + 1;
    }
    assert(ui@.take(len as int) =~= ui@);
    n
}

/// The merge session: the two files, the chosen tracks, the framerate
/// check, the offset, the extras and the state of a running merge. `E` is
/// the error type of probing and of the framerate check.
#[derive(Debug)]
pub struct AppState<E> {
    pub file_a: Option<MediaFile>,
    pub file_b: Option<MediaFile>,
    pub tracks_a_ui: Vec<TrackUiState>,
    pub tracks_b_ui: Vec<TrackUiState>,
    pub framerate_error: Option<E>,
    pub framerate_override: bool,
    pub offset: OffsetState,
    pub last_detected: Option<DetectedOffset>,
    pub manual_offset_input: String,
    pub detect_offset_error: Option<String>,
    pub chapters_choice: ChaptersChoice,
    pub attachments_a: bool,
    pub attachments_b: bool,
    pub tags_a: bool,
    pub tags_b: bool,
    pub output_path: Option<String>,
    pub merge_running: bool,
    pub log: Vec<String>,
    pub merge_error: Option<String>,
    pub picking_file_a: bool,
    pub picking_file_b: bool,
    pub log_expanded: bool,
}

impl<E> Default for AppState<E> {
    fn default() -> (s: Self)
        ensures
            s.is_fresh(),
    {
        Self::new()
    }
}

impl<E> AppState<E> {
    /// A session in its starting state: nothing loaded, nothing chosen,
    /// chapters and attachments from File A, no tags.
    pub open spec fn is_fresh(self) -> bool {
        &&& self.file_a is None
        &&& self.file_b is None
        &&& self.tracks_a_ui@.len() == 0
        &&& self.tracks_b_ui@.len() == 0
        &&& self.framerate_error is None
        &&& !self.framerate_override
        &&& self.offset == OffsetState::NotDetected
        &&& self.last_detected is None
        &&& self.manual_offset_input@.len() == 0
        &&& self.detect_offset_error is None
        &&& self.chapters_choice == ChaptersChoice::FileA
        &&& self.attachments_a
        &&& !self.attachments_b
        &&& !self.tags_a
        &&& !self.tags_b
        &&& self.output_path is None
        &&& !self.merge_running
        &&& self.log@.len() == 0
        &&& self.merge_error is None
        &&& !self.picking_file_a
        &&& !self.picking_file_b
        &&& !self.log_expanded
    }

    /// Each loaded file has exactly one row per track.
    pub open spec fn rows_in_step(self) -> bool {
        &&& self.file_a matches Some(a) ==> self.tracks_a_ui@.len() == a.tracks@.len()
        &&& self.file_b matches Some(b) ==> self.tracks_b_ui@.len() == b.tracks@.len()
    }

    /// Whether the interface offers the merge: nothing blocks, a row is
    /// chosen, an output path is chosen, an offset is resolved and both
    /// files are loaded.
    pub open spec fn merge_enabled(self) -> bool {
        &&& self.block_reason() is None
        &&& count_selected(self.tracks_a_ui@) + count_selected(self.tracks_b_ui@) > 0
        &&& self.output_path is Some
        &&& self.resolved_offset() is Some
        &&& self.file_a is Some
        &&& self.file_b is Some
    }

    /// Whether the framerate check blocks: a mismatch that the user has not
    /// overridden.
    pub open spec fn framerate_blocked(self) -> bool {
        self.framerate_error is Some && !self.framerate_override
    }

    /// The offset a merge would use, in milliseconds: the detected or the
    /// entered one; none while nothing is detected or detection runs.
    pub open spec fn resolved_offset(self) -> Option<i64> {
        match self.offset {
            OffsetState::Detected(r) => Some(r.offset_ms),
            OffsetState::ManualOverride { offset_ms, .. } => Some(offset_ms),
            _ => None,
        }
    }

    /// Why a merge (or a new detection) is blocked, if it is: a framerate
    /// mismatch that is not overridden, or a detected offset whose
    /// measurements disagree. An entered offset is the confirmation that an
    /// inconsistent detection asks for, so it never blocks.
    pub open spec fn block_reason(self) -> Option<Seq<char>> {
        if self.framerate_blocked() {
            Some("video framerates do not match"@)
        } else if self.offset matches OffsetState::Detected(r) && r.consistency
            == Consistency::Inconsistent {
            Some("offset measurements are inconsistent - resolve manually before merging"@)
        } else {
            None
        }
    }

    /// Whether the session can make a plan: both files loaded, an offset
    /// resolved, and at least one track chosen.
    pub open spec fn plan_possible(self) -> bool {
        &&& self.file_a is Some
        &&& self.file_b is Some
        &&& self.resolved_offset() is Some
        &&& !(selected_of(self.file_a->0.tracks@, self.tracks_a_ui@).len() == 0 && selected_of(
            self.file_b->0.tracks@,
            self.tracks_b_ui@,
        ).len() == 0)
    }

    /// `plan` is the plan the session makes for `output_path`.
    pub open spec fn plan_matches(self, output_path: Seq<char>, plan: MergePlan) -> bool {
        &&& self.file_a matches Some(a) && plan.file_a@ == a.path@
            && plan.tracks_from_a@ == selected_of(a.tracks@, self.tracks_a_ui@)
        &&& self.file_b matches Some(b) && plan.file_b@ == b.path@
            && plan.tracks_from_b@ == selected_of(b.tracks@, self.tracks_b_ui@)
        &&& self.resolved_offset() == Some(plan.offset_ms)
        &&& plan.chapters == chapter_source_of(self.chapters_choice)
        &&& plan.attachments_from_a == self.attachments_a
        &&& plan.attachments_from_b == self.attachments_b
        &&& plan.tags_from_a == self.tags_a
        &&& plan.tags_from_b == self.tags_b
        &&& plan.output_path@ == output_path
    }

    /// The first audio track of each file, when both files are loaded and
    /// both have one.
    pub open spec fn audio_pair_of(self) -> Option<(Seq<char>, u64, Seq<char>, u64)> {
        match (self.file_a, self.file_b) {
            (Some(a), Some(b)) => match (first_audio_id(a.tracks@), first_audio_id(b.tracks@)) {
                (Some(ta), Some(tb)) => Some((a.path@, ta, b.path@, tb)),
                _ => None,
            },
            _ => None,
        }
    }

    /// A session in its starting state.
    pub fn new() -> (s: Self)
        ensures
            s.is_fresh(),
    {
        AppState {
            file_a: None,
            file_b: None,
            tracks_a_ui: Vec::new(),
            tracks_b_ui: Vec::new(),
            framerate_error: None,
            framerate_override: false,
            offset: OffsetState::NotDetected,
            last_detected: None,
            manual_offset_input: String::new(),
            detect_offset_error: None,
            chapters_choice: ChaptersChoice::FileA,
            attachments_a: true,
            attachments_b: false,
            tags_a: false,
            tags_b: false,
            output_path: None,
            merge_running: false,
            log: Vec::new(),
            merge_error: None,
            picking_file_a: false,
            picking_file_b: false,
            log_expanded: false,
        }
    }

    /// Makes the row list as long as the track list: existing rows keep
    /// their state, new rows start unselected with no flags, and rows past
    /// the last track are dropped.
    pub fn sync_track_ui_len(tracks: &[Track], ui: &mut Vec<TrackUiState>)
        ensures
            final(ui)@.len() == tracks@.len(),
            forall|i: int|
                0 <= i < final(ui)@.len() ==> #[trigger] final(ui)@[i] == (if i < old(ui)@.len() {
                    old(ui)@[i]
                } else {
                    TrackUiState { selected: false, default_flag: false, forced_flag: false }
                }),
    {
        let n: usize = tracks.len();
        ui.truncate(n);
        while ui.len() < n
            invariant
                n == tracks@.len(),
                ui@.len() <= n,
                forall|i: int|
                    0 <= i < ui@.len() ==> #[trigger] ui@[i] == (if i < old(ui)@.len() {
                        old(ui)@[i]
                    } else {
                        TrackUiState { selected: false, default_flag: false, forced_flag: false }
                    }),
                ui@.len() >= (if old(ui)@.len() <= n {
                    old(ui)@.len()
                } else {
                    n as nat
                }),
            decreases n - ui@.len(),
        {
            ui.push(TrackUiState::default());
        }
    }

    /// The offset a merge would use, in milliseconds.
    pub fn resolved_offset_ms(&self) -> (r: Option<i64>)
        ensures
            r == self.resolved_offset(),
    {
        match self.offset {
            OffsetState::Detected(r) => Some(r.offset_ms),
            OffsetState::ManualOverride { offset_ms, .. } => Some(offset_ms),
            _ => None,
        }
    }

    /// Whether an offset detection may start: it may unless a framerate
    /// mismatch that is not overridden blocks it.
    pub fn detect_offset_allowed(&self) -> (allowed: bool)
        ensures
            allowed == !self.framerate_blocked(),
    {
        !(self.framerate_error.is_some() && !self.framerate_override)
    }

    /// Why a merge (or a new detection) must be blocked, or `None` when it
    /// may proceed.
    pub fn blocking_reason(&self) -> (r: Option<String>)
        ensures
            match r {
                Some(s) => self.block_reason() == Some(s@),
                None => self.block_reason() is None,
            },
    {
        if self.framerate_error.is_some() && !self.framerate_override {
            return Some(owned("video framerates do not match"));
        }
        if let OffsetState::Detected(r) = self.offset {
            if r.consistency == Consistency::Inconsistent {
                return Some(
                    owned("offset measurements are inconsistent - resolve manually before merging"),
                );
            }
        }
        None
    }

    /// The merge plan for `output_path`, or `None` when a file is missing,
    /// no offset is resolved, or no track is chosen.
    pub fn to_merge_plan(&self, output_path: String) -> (r: Option<MergePlan>)
        ensures
            r is Some == self.plan_possible(),
            r matches Some(p) ==> self.plan_matches(output_path@, p),
    {
        let file_a = match &self.file_a {
            Some(f) => f,
            None => {
                return None;
            },
        };
        let file_b = match &self.file_b {
            Some(f) => f,
            None => {
                return None;
            },
        };
        let offset_ms = match self.resolved_offset_ms() {
            Some(v) => v,
            None => {
                return None;
            },
        };
        let tracks_from_a = selections(file_a.tracks.as_slice(), self.tracks_a_ui.as_slice());
        let tracks_from_b = selections(file_b.tracks.as_slice(), self.tracks_b_ui.as_slice());
        if tracks_from_a.len() == 0 && tracks_from_b.len() == 0 {
            return None;
        }
        Some(
            MergePlan {
                file_a: file_a.path.clone(),
                file_b: file_b.path.clone(),
                tracks_from_a,
                tracks_from_b,
                offset_ms,
                chapters: chapter_source(self.chapters_choice),
                attachments_from_a: self.attachments_a,
                attachments_from_b: self.attachments_b,
                tags_from_a: self.tags_a,
                tags_from_b: self.tags_b,
                output_path,
            },
        )
    }
    /// Whether the merge can start: nothing blocks, a row is chosen, an
    /// output path is chosen, an offset is resolved and both files are
    /// loaded. Otherwise the first of these that fails is named (a missing
    /// file counts as a missing output choice).
    pub fn merge_readiness(&self) -> (r: MergeReadiness)
        requires
            self.tracks_a_ui@.len() + self.tracks_b_ui@.len() <= usize::MAX,
        ensures
            ({
                let count = count_selected(self.tracks_a_ui@) + count_selected(self.tracks_b_ui@);
                let enabled = self.merge_enabled();
                match r {
                    MergeReadiness::Ready(n) => enabled && n == count,
                    MergeReadiness::Blocked(reason) => !enabled && self.block_reason() == Some(reason@),
                    MergeReadiness::NoTrackSelected => !enabled && self.block_reason() is None && count == 0,
                    MergeReadiness::NoOffset => !enabled && self.block_reason() is None && count > 0
                        && self.resolved_offset() is None,
                    MergeReadiness::ChooseOutput => !enabled && self.block_reason() is None && count > 0
                        && self.resolved_offset() is Some,
                }
            }),
    {
        proof {
            lemma_count_selected_le(self.tracks_a_ui@);
            lemma_count_selected_le(self.tracks_b_ui@);
        }
        let reason = self.blocking_reason();
        let count: usize = count_selected_rows(&self.tracks_a_ui) + count_selected_rows(&self.tracks_b_ui);
        let offset_resolved = self.resolved_offset_ms().is_some();
        let enabled = reason.is_none() && count > 0 && self.output_path.is_some() && offset_resolved
            && self.file_a.is_some() && self.file_b.is_some();
        if enabled {
            MergeReadiness::Ready(count)
        } else if let Some(r) = reason {
            MergeReadiness::Blocked(r)
        } else if count == 0 {
            MergeReadiness::NoTrackSelected
        } else if !offset_resolved {
            MergeReadiness::NoOffset
        } else {
            MergeReadiness::ChooseOutput
        }
    }

    /// The first audio track of each file, when both files are loaded and
    /// both have one.
    pub fn audio_pair(&self) -> (r: Option<AudioPair>)
        ensures
            match r {
                Some(p) => self.audio_pair_of() == Some((p.path_a@, p.track_a, p.path_b@, p.track_b)),
                None => self.audio_pair_of() is None,
            },
    {
        match (&self.file_a, &self.file_b) {
            (Some(a), Some(b)) => match (first_audio_track_id(a), first_audio_track_id(b)) {
                (Some(ta), Some(tb)) => Some(
                    AudioPair { path_a: a.path.clone(), track_a: ta, path_b: b.path.clone(), track_b: tb },
                ),
                _ => None,
            },
            _ => None,
        }
    }

    /// Opens a file dialog for File A or File B unless one is already open
    /// for it: returns whether to open one, and marks it open.
    pub fn begin_pick(&mut self, is_file_a: bool) -> (open: bool)
        ensures
            old(self).rows_in_step() ==> final(self).rows_in_step(),
            open == !(if is_file_a {
                old(self).picking_file_a
            } else {
                old(self).picking_file_b
            }),
            *final(self) == (if is_file_a {
                AppState { picking_file_a: true, ..*old(self) }
            } else {
                AppState { picking_file_b: true, ..*old(self) }
            }),
    {
        if is_file_a {
            if self.picking_file_a {
                return false;
            }
            self.picking_file_a = true;
        } else {
            if self.picking_file_b {
                return false;
            }
            self.picking_file_b = true;
        }
        true
    }

    /// Marks the file dialog for File A or File B closed, once its result
    /// has come back.
    pub fn end_pick(&mut self, is_file_a: bool)
        ensures
            old(self).rows_in_step() ==> final(self).rows_in_step(),
            *final(self) == (if is_file_a {
                AppState { picking_file_a: false, ..*old(self) }
            } else {
                AppState { picking_file_b: false, ..*old(self) }
            }),
    {
        if is_file_a {
            self.picking_file_a = false;
        } else {
            self.picking_file_b = false;
        }
    }

    /// Chooses which file's chapters the output keeps.
    pub fn set_chapters_choice(&mut self, choice: ChaptersChoice)
        ensures
            old(self).rows_in_step() ==> final(self).rows_in_step(),
            *final(self) == (AppState { chapters_choice: choice, ..*old(self) }),
    {
        self.chapters_choice = choice;
    }

    /// Chooses whether the output keeps File A's or File B's attachments.
    pub fn set_attachments(&mut self, is_file_a: bool, keep: bool)
        ensures
            old(self).rows_in_step() ==> final(self).rows_in_step(),
            *final(self) == (if is_file_a {
                AppState { attachments_a: keep, ..*old(self) }
            } else {
                AppState { attachments_b: keep, ..*old(self) }
            }),
    {
        if is_file_a {
            self.attachments_a = keep;
        } else {
            self.attachments_b = keep;
        }
    }

    /// Chooses whether the output keeps File A's or File B's tags.
    pub fn set_tags(&mut self, is_file_a: bool, keep: bool)
        ensures
            old(self).rows_in_step() ==> final(self).rows_in_step(),
            *final(self) == (if is_file_a {
                AppState { tags_a: keep, ..*old(self) }
            } else {
                AppState { tags_b: keep, ..*old(self) }
            }),
    {
        if is_file_a {
            self.tags_a = keep;
        } else {
            self.tags_b = keep;
        }
    }

    /// Takes in the output path that the save dialog gave, or `None` when
    /// it was cancelled (which clears the choice).
    pub fn set_output_path(&mut self, path: Option<String>)
        ensures
            old(self).rows_in_step() ==> final(self).rows_in_step(),
            *final(self) == (AppState { output_path: path, ..*old(self) }),
    {
        self.output_path = path;
    }

    /// Sets whether the user overrides a framerate mismatch.
    pub fn set_framerate_override(&mut self, overridden: bool)
        ensures
            old(self).rows_in_step() ==> final(self).rows_in_step(),
            *final(self) == (AppState { framerate_override: overridden, ..*old(self) }),
    {
        self.framerate_override = overridden;
    }

    /// Opens the merge log if it is closed, and closes it if it is open.
    pub fn toggle_log_expanded(&mut self)
        ensures
            old(self).rows_in_step() ==> final(self).rows_in_step(),
            *final(self) == (AppState { log_expanded: !old(self).log_expanded, ..*old(self) }),
    {
        self.log_expanded = !self.log_expanded;
    }

    /// Takes in the result of probing a newly picked File A or File B. A
    /// probed file replaces the old one, its rows are resized to its tracks,
    /// and the framerate check starts over: the old mismatch and its
    /// override are cleared. A failed probe is kept as the framerate error,
    /// and it too clears a prior override. Returns whether both files are
    /// now loaded, so that their framerates are to be compared.
    pub fn apply_probe_result(&mut self, result: Result<MediaFile, E>, is_file_a: bool) -> (check: bool)
        ensures
            old(self).rows_in_step() ==> final(self).rows_in_step(),
            match result {
                Ok(f) => {
                    &&& if is_file_a {
                        &&& final(self).file_a == Some(f)
                        &&& final(self).file_b == old(self).file_b
                        &&& final(self).tracks_b_ui == old(self).tracks_b_ui
                        &&& final(self).tracks_a_ui@.len() == f.tracks@.len()
                        &&& forall|i: int| 0 <= i < f.tracks@.len() ==> #[trigger] final(self).tracks_a_ui@[i]
                            == (if i < old(self).tracks_a_ui@.len() {
                                old(self).tracks_a_ui@[i]
                            } else {
                                TrackUiState { selected: false, default_flag: false, forced_flag: false }
                            })
                    } else {
                        &&& final(self).file_b == Some(f)
                        &&& final(self).file_a == old(self).file_a
                        &&& final(self).tracks_a_ui == old(self).tracks_a_ui
                        &&& final(self).tracks_b_ui@.len() == f.tracks@.len()
                        &&& forall|i: int| 0 <= i < f.tracks@.len() ==> #[trigger] final(self).tracks_b_ui@[i]
                            == (if i < old(self).tracks_b_ui@.len() {
                                old(self).tracks_b_ui@[i]
                            } else {
                                TrackUiState { selected: false, default_flag: false, forced_flag: false }
                            })
                    }
                    &&& final(self).framerate_error is None
                    &&& !final(self).framerate_override
                    &&& *final(self) == (AppState {
                        file_a: final(self).file_a,
                        file_b: final(self).file_b,
                        tracks_a_ui: final(self).tracks_a_ui,
                        tracks_b_ui: final(self).tracks_b_ui,
                        framerate_error: None,
                        framerate_override: false,
                        ..*old(self)
                    })
                    &&& check == (final(self).file_a is Some && final(self).file_b is Some)
                },
                Err(e) => {
                    &&& *final(self) == (AppState {
                        framerate_error: Some(e),
                        framerate_override: false,
                        ..*old(self)
                    })
                    &&& !check
                },
            },
    {
        match result {
            Ok(media_file) => {
                if is_file_a {
                    Self::sync_track_ui_len(media_file.tracks.as_slice(), &mut self.tracks_a_ui);
                    self.file_a = Some(media_file);
                } else {
                    Self::sync_track_ui_len(media_file.tracks.as_slice(), &mut self.tracks_b_ui);
                    self.file_b = Some(media_file);
                }
                self.framerate_error = None;
                self.framerate_override = false;
                self.file_a.is_some() && self.file_b.is_some()
            },
            Err(e) => {
                self.framerate_error = Some(e);
                self.framerate_override = false;
                false
            },
        }
    }

    /// Takes in the outcome of comparing the two files' framerates: a
    /// mismatch (or a failure to read a framerate) becomes the framerate
    /// error; a match leaves the session as it is.
    pub fn record_framerate_check(&mut self, result: Result<(), E>)
        ensures
            old(self).rows_in_step() ==> final(self).rows_in_step(),
            match result {
                Ok(()) => *final(self) == *old(self),
                Err(e) => *final(self) == (AppState { framerate_error: Some(e), ..*old(self) }),
            },
    {
        if let Err(e) = result {
            self.framerate_error = Some(e);
        }
    }

    /// Flips whether a row of File A or File B is chosen; an index past the
    /// rows changes nothing.
    pub fn toggle_track(&mut self, is_file_a: bool, idx: usize)
        ensures
            old(self).rows_in_step() ==> final(self).rows_in_step(),
            if is_file_a {
                &&& final(self).tracks_a_ui@ == (if idx < old(self).tracks_a_ui@.len() {
                    old(self).tracks_a_ui@.update(
                        idx as int,
                        TrackUiState {
                            selected: !old(self).tracks_a_ui@[idx as int].selected,
                            ..old(self).tracks_a_ui@[idx as int]
                        },
                    )
                } else {
                    old(self).tracks_a_ui@
                })
                &&& *final(self) == (AppState { tracks_a_ui: final(self).tracks_a_ui, ..*old(self) })
            } else {
                &&& final(self).tracks_b_ui@ == (if idx < old(self).tracks_b_ui@.len() {
                    old(self).tracks_b_ui@.update(
                        idx as int,
                        TrackUiState {
                            selected: !old(self).tracks_b_ui@[idx as int].selected,
                            ..old(self).tracks_b_ui@[idx as int]
                        },
                    )
                } else {
                    old(self).tracks_b_ui@
                })
                &&& *final(self) == (AppState { tracks_b_ui: final(self).tracks_b_ui, ..*old(self) })
            },
    {
        if is_file_a {
            if idx < self.tracks_a_ui.len() {
                let mut row = self.tracks_a_ui[idx];
                row.selected = !row.selected;
                self.tracks_a_ui.set(idx, row);
            }
        } else {
            if idx < self.tracks_b_ui.len() {
                let mut row = self.tracks_b_ui[idx];
                row.selected = !row.selected;
                self.tracks_b_ui.set(idx, row);
            }
        }
    }

    /// Sets the default flag of a row of File A or File B; an index past the
    /// rows changes nothing.
    pub fn set_default_flag(&mut self, is_file_a: bool, idx: usize, value: bool)
        ensures
            old(self).rows_in_step() ==> final(self).rows_in_step(),
            if is_file_a {
                &&& final(self).tracks_a_ui@ == (if idx < old(self).tracks_a_ui@.len() {
                    old(self).tracks_a_ui@.update(
                        idx as int,
                        TrackUiState { default_flag: value, ..old(self).tracks_a_ui@[idx as int] },
                    )
                } else {
                    old(self).tracks_a_ui@
                })
                &&& *final(self) == (AppState { tracks_a_ui: final(self).tracks_a_ui, ..*old(self) })
            } else {
                &&& final(self).tracks_b_ui@ == (if idx < old(self).tracks_b_ui@.len() {
                    old(self).tracks_b_ui@.update(
                        idx as int,
                        TrackUiState { default_flag: value, ..old(self).tracks_b_ui@[idx as int] },
                    )
                } else {
                    old(self).tracks_b_ui@
                })
                &&& *final(self) == (AppState { tracks_b_ui: final(self).tracks_b_ui, ..*old(self) })
            },
    {
        if is_file_a {
            if idx < self.tracks_a_ui.len() {
                let mut row = self.tracks_a_ui[idx];
                row.default_flag = value;
                self.tracks_a_ui.set(idx, row);
            }
        } else {
            if idx < self.tracks_b_ui.len() {
                let mut row = self.tracks_b_ui[idx];
                row.default_flag = value;
                self.tracks_b_ui.set(idx, row);
            }
        }
    }

    /// Sets the forced flag of a row of File A or File B; an index past the
    /// rows changes nothing.
    pub fn set_forced_flag(&mut self, is_file_a: bool, idx: usize, value: bool)
        ensures
            old(self).rows_in_step() ==> final(self).rows_in_step(),
            if is_file_a {
                &&& final(self).tracks_a_ui@ == (if idx < old(self).tracks_a_ui@.len() {
                    old(self).tracks_a_ui@.update(
                        idx as int,
                        TrackUiState { forced_flag: value, ..old(self).tracks_a_ui@[idx as int] },
                    )
                } else {
                    old(self).tracks_a_ui@
                })
                &&& *final(self) == (AppState { tracks_a_ui: final(self).tracks_a_ui, ..*old(self) })
            } else {
                &&& final(self).tracks_b_ui@ == (if idx < old(self).tracks_b_ui@.len() {
                    old(self).tracks_b_ui@.update(
                        idx as int,
                        TrackUiState { forced_flag: value, ..old(self).tracks_b_ui@[idx as int] },
                    )
                } else {
                    old(self).tracks_b_ui@
                })
                &&& *final(self) == (AppState { tracks_b_ui: final(self).tracks_b_ui, ..*old(self) })
            },
    {
        if is_file_a {
            if idx < self.tracks_a_ui.len() {
                let mut row = self.tracks_a_ui[idx];
                row.forced_flag = value;
                self.tracks_a_ui.set(idx, row);
            }
        } else {
            if idx < self.tracks_b_ui.len() {
                let mut row = self.tracks_b_ui[idx];
                row.forced_flag = value;
                self.tracks_b_ui.set(idx, row);
            }
        }
    }
    /// Starts an offset detection, unless a framerate mismatch that is not
    /// overridden blocks it (then nothing changes). Detection needs both
    /// files, each with an audio track; otherwise the offset stays
    /// undetected with a message saying what is missing. Returns the audio
    /// tracks to measure when detection is to run.
    pub fn begin_detect_offset(&mut self) -> (r: Option<AudioPair>)
        ensures
            old(self).rows_in_step() ==> final(self).rows_in_step(),
            old(self).framerate_blocked() ==> r is None && *final(self) == *old(self),
            !old(self).framerate_blocked() ==> {
                &&& match r {
                    Some(p) => old(self).audio_pair_of() == Some((p.path_a@, p.track_a, p.path_b@, p.track_b)),
                    None => old(self).audio_pair_of() is None,
                }
                &&& r is Some ==> *final(self) == (AppState {
                    offset: OffsetState::Detecting,
                    detect_offset_error: None,
                    ..*old(self)
                })
                &&& r is None ==> *final(self) == (AppState {
                    offset: OffsetState::NotDetected,
                    detect_offset_error: final(self).detect_offset_error,
                    ..*old(self)
                })
                &&& r is None ==> (final(self).detect_offset_error matches Some(msg) && msg@ == (
                if old(self).file_a is None || old(self).file_b is None {
                    "both files must be loaded before detecting offset"@
                } else if first_audio_id(old(self).file_a->0.tracks@) is None {
                    "File A has no audio track"@
                } else {
                    "File B has no audio track"@
                }))
            },
    {
        if !self.detect_offset_allowed() {
            return None;
        }
        self.offset = OffsetState::Detecting;
        self.detect_offset_error = None;
        let missing: Option<String> = match (&self.file_a, &self.file_b) {
            (Some(a), Some(b)) => {
                if first_audio_track_id(a).is_none() {
                    Some(owned("File A has no audio track"))
                } else if first_audio_track_id(b).is_none() {
                    Some(owned("File B has no audio track"))
                } else {
                    None
                }
            },
            _ => Some(owned("both files must be loaded before detecting offset")),
        };
        match missing {
            Some(msg) => {
                self.offset = OffsetState::NotDetected;
                self.detect_offset_error = Some(msg);
                None
            },
            None => self.audio_pair(),
        }
    }

    /// Takes in the outcome of an offset detection. A detected offset
    /// becomes the session's offset, is remembered as the last detection,
    /// and fills the offset field; returns the audio tracks to draw the
    /// waveform of, when both files still have one. A failure leaves the
    /// offset undetected with the failure's message.
    pub fn offset_detected(&mut self, result: Result<DetectedOffset, String>) -> (r: Option<AudioPair>)
        ensures
            old(self).rows_in_step() ==> final(self).rows_in_step(),
            match result {
                Ok(d) => {
                    &&& final(self).manual_offset_input@ == offset_text_of(d.offset_ms as int, d.below_zero)
                    &&& *final(self) == (AppState {
                        offset: OffsetState::Detected(d),
                        last_detected: Some(d),
                        manual_offset_input: final(self).manual_offset_input,
                        ..*old(self)
                    })
                    &&& match r {
                        Some(p) => old(self).audio_pair_of() == Some((p.path_a@, p.track_a, p.path_b@, p.track_b)),
                        None => old(self).audio_pair_of() is None,
                    }
                },
                Err(msg) => {
                    &&& *final(self) == (AppState {
                        offset: OffsetState::NotDetected,
                        detect_offset_error: Some(msg),
                        ..*old(self)
                    })
                    &&& r is None
                },
            },
    {
        match result {
            Ok(d) => {
                self.manual_offset_input = format_offset_ms(d.offset_ms, d.below_zero);
                self.last_detected = Some(d);
                self.offset = OffsetState::Detected(d);
                self.audio_pair()
            },
            Err(msg) => {
                self.detect_offset_error = Some(msg);
                self.offset = OffsetState::NotDetected;
                None
            },
        }
    }

    /// Takes in an edit of the offset field: the text is kept as typed, and
    /// when it reads as a number (`value`: milliseconds, and whether the
    /// number is below zero) it becomes the entered offset.
    pub fn manual_offset_changed(&mut self, text: String, value: Option<(i64, bool)>)
        ensures
            old(self).rows_in_step() ==> final(self).rows_in_step(),
            *final(self) == (AppState {
                manual_offset_input: text,
                offset: match value {
                    Some((ms, neg)) => OffsetState::ManualOverride { offset_ms: ms, below_zero: neg },
                    None => old(self).offset,
                },
                ..*old(self)
            }),
    {
        if let Some((ms, neg)) = value {
            self.offset = OffsetState::ManualOverride { offset_ms: ms, below_zero: neg };
        }
        self.manual_offset_input = text;
    }

    /// Goes back from an entered offset to the last detected one, if there
    /// is one, and shows it in the offset field.
    pub fn use_detected_offset(&mut self)
        ensures
            old(self).rows_in_step() ==> final(self).rows_in_step(),
            match old(self).last_detected {
                Some(d) => {
                    &&& final(self).manual_offset_input@ == offset_text_of(d.offset_ms as int, d.below_zero)
                    &&& *final(self) == (AppState {
                        offset: OffsetState::Detected(d),
                        manual_offset_input: final(self).manual_offset_input,
                        ..*old(self)
                    })
                },
                None => *final(self) == *old(self),
            },
    {
        if let Some(d) = self.last_detected {
            self.offset = OffsetState::Detected(d);
            self.manual_offset_input = format_offset_ms(d.offset_ms, d.below_zero);
        }
    }

    /// Starts a merge when nothing prevents it: no merge is running, nothing
    /// blocks, an output path is chosen and a plan can be made. Then the log
    /// opens and is cleared, the last error is dropped, the merge counts as
    /// running, and the plan is returned; otherwise nothing changes.
    pub fn start_merge(&mut self) -> (r: Option<MergePlan>)
        ensures
            old(self).rows_in_step() ==> final(self).rows_in_step(),
            r is Some == (!old(self).merge_running && old(self).block_reason() is None
                && old(self).output_path is Some && old(self).plan_possible()),
            r is None ==> *final(self) == *old(self),
            r matches Some(p) ==> {
                &&& old(self).plan_matches(old(self).output_path->0@, p)
                &&& final(self).log@.len() == 0
                &&& *final(self) == (AppState {
                    log_expanded: true,
                    log: final(self).log,
                    merge_error: None,
                    merge_running: true,
                    ..*old(self)
                })
            },
    {
        if self.merge_running {
            return None;
        }
        if self.blocking_reason().is_some() {
            return None;
        }
        let output_path = match &self.output_path {
            Some(p) => p.clone(),
            None => {
                return None;
            },
        };
        let plan = match self.to_merge_plan(output_path) {
            Some(p) => p,
            None => {
                return None;
            },
        };
        self.log_expanded = true;
        self.log = Vec::new();
        self.merge_error = None;
        self.merge_running = true;
        Some(plan)
    }

    /// Takes in what the running merge reports: a log line is kept; the end
    /// of the merge stops it, keeping mkvmerge's error text when it failed
    /// and reporting a worker that vanished. Returns whether more reports
    /// are to come.
    pub fn merge_event(&mut self, update: MergeUpdate) -> (more: bool)
        ensures
            old(self).rows_in_step() ==> final(self).rows_in_step(),
            match update {
                MergeUpdate::Log(line) => {
                    &&& more
                    &&& final(self).log@ == old(self).log@.push(line)
                    &&& *final(self) == (AppState { log: final(self).log, ..*old(self) })
                },
                MergeUpdate::Finished(Ok(())) => {
                    &&& !more
                    &&& *final(self) == (AppState { merge_running: false, ..*old(self) })
                },
                MergeUpdate::Finished(Err(e)) => {
                    &&& !more
                    &&& *final(self) == (AppState {
                        merge_running: false,
                        merge_error: Some(e),
                        ..*old(self)
                    })
                },
                MergeUpdate::Vanished => {
                    &&& !more
                    &&& (final(self).merge_error matches Some(e) && e@
                        == "merge worker terminated unexpectedly"@)
                    &&& *final(self) == (AppState {
                        merge_running: false,
                        merge_error: final(self).merge_error,
                        ..*old(self)
                    })
                },
            },
    {
        match update {
            MergeUpdate::Log(line) => {
                self.log.push(line);
                true
            },
            MergeUpdate::Finished(Ok(())) => {
                self.merge_running = false;
                false
            },
            MergeUpdate::Finished(Err(e)) => {
                self.merge_error = Some(e);
                self.merge_running = false;
                false
            },
            MergeUpdate::Vanished => {
                self.merge_error = Some(owned("merge worker terminated unexpectedly"));
                self.merge_running = false;
                false
            },
        }
    }

    /// Starts over with a fresh session, unless a merge is running (then
    /// nothing changes). Returns whether it started over.
    pub fn new_merge(&mut self) -> (reset: bool)
        ensures
            old(self).rows_in_step() ==> final(self).rows_in_step(),
            reset == !old(self).merge_running,
            reset ==> final(self).is_fresh(),
            !reset ==> *final(self) == *old(self),
    {
        if self.merge_running {
            return false;
        }
        *self = Self::new();
        true
    }
}

proof fn lemma_count_selected_le(ui: Seq<TrackUiState>)
    ensures
        count_selected(ui) <= ui.len(),
    decreases ui.len(),
{
    if ui.len() > 0 {
        lemma_count_selected_le(ui.drop_last());
    }
}

proof fn lemma_selected_count(tracks: Seq<Track>, ui: Seq<TrackUiState>, n: nat)
    requires
        n <= tracks.len(),
        n <= ui.len(),
    ensures
        selected_upto(tracks, ui, n).len() == count_selected(ui.take(n as int)),
    decreases n,
{
    if n > 0 {
        lemma_selected_count(tracks, ui, (n - 1) as nat);
        assert(ui.take(n as int).drop_last() =~= ui.take(n - 1));
    } else {
        assert(ui.take(0) =~= Seq::<TrackUiState>::empty());
    }
}

/// The interface offers the merge exactly when a merge can start (given
/// that each loaded file has one row per track, which every operation of
/// the session keeps): nothing blocks, an output path is chosen and a plan
/// can be made.
pub proof fn law_offered_merge_can_start<E>(s: AppState<E>)
    requires
        s.rows_in_step(),
    ensures
        s.merge_enabled() <==> (s.block_reason() is None && s.output_path is Some
            && s.plan_possible()),
{
    if s.file_a is Some && s.file_b is Some {
        let a = s.file_a->0;
        let b = s.file_b->0;
        lemma_selected_count(a.tracks@, s.tracks_a_ui@, a.tracks@.len());
        lemma_selected_count(b.tracks@, s.tracks_b_ui@, b.tracks@.len());
        assert(s.tracks_a_ui@.take(a.tracks@.len() as int) =~= s.tracks_a_ui@);
        assert(s.tracks_b_ui@.take(b.tracks@.len() as int) =~= s.tracks_b_ui@);
    }
}

proof fn lemma_selected_upto_origin(tracks: Seq<Track>, ui: Seq<TrackUiState>, n: nat)
    requires
        n <= tracks.len(),
        n <= ui.len(),
    ensures
        selected_upto(tracks, ui, n).len() <= n,
        forall|k: int|
            #![trigger selected_upto(tracks, ui, n)[k]]
            0 <= k < selected_upto(tracks, ui, n).len() ==> exists|j: int|
                0 <= j < n && #[trigger] ui[j].selected && selected_upto(tracks, ui, n)[k]
                    == selection_of(tracks[j], ui[j]),
    decreases n,
{
    if n > 0 {
        let m = (n - 1) as nat;
        lemma_selected_upto_origin(tracks, ui, m);
        let rest = selected_upto(tracks, ui, m);
        let all = selected_upto(tracks, ui, n);
        assert forall|k: int| #![trigger all[k]] 0 <= k < all.len() implies exists|j: int|
            0 <= j < n && #[trigger] ui[j].selected && all[k] == selection_of(tracks[j], ui[j]) by {
            if k < rest.len() {
                assert(all[k] == rest[k]);
                let j = choose|j: int|
                    0 <= j < m && #[trigger] ui[j].selected && rest[k] == selection_of(tracks[j], ui[j]);
                assert(0 <= j < n && ui[j].selected && all[k] == selection_of(tracks[j], ui[j]));
            } else {
                assert(ui[m as int].selected && all[k] == selection_of(tracks[m as int], ui[m as int]));
            }
        }
    }
}

/// Track ids reach the merge unchanged: every track of a plan is a chosen
/// row's track of the same file, with that track's mkvmerge id and kind and
/// the row's flags.
pub proof fn law_plan_tracks_are_chosen_rows<E>(s: AppState<E>, output_path: Seq<char>, plan: MergePlan)
    requires
        s.plan_matches(output_path, plan),
    ensures
        forall|k: int|
            #![trigger plan.tracks_from_a@[k]]
            0 <= k < plan.tracks_from_a@.len() ==> exists|j: int|
                0 <= j < s.file_a->0.tracks@.len() && 0 <= j < s.tracks_a_ui@.len()
                    && #[trigger] s.tracks_a_ui@[j].selected && plan.tracks_from_a@[k] == selection_of(
                    s.file_a->0.tracks@[j],
                    s.tracks_a_ui@[j],
                ),
        forall|k: int|
            #![trigger plan.tracks_from_b@[k]]
            0 <= k < plan.tracks_from_b@.len() ==> exists|j: int|
                0 <= j < s.file_b->0.tracks@.len() && 0 <= j < s.tracks_b_ui@.len()
                    && #[trigger] s.tracks_b_ui@[j].selected && plan.tracks_from_b@[k] == selection_of(
                    s.file_b->0.tracks@[j],
                    s.tracks_b_ui@[j],
                ),
{
    let ta = s.file_a->0.tracks@;
    let tb = s.file_b->0.tracks@;
    let na: nat = if ta.len() <= s.tracks_a_ui@.len() { ta.len() } else { s.tracks_a_ui@.len() };
    let nb: nat = if tb.len() <= s.tracks_b_ui@.len() { tb.len() } else { s.tracks_b_ui@.len() };
    lemma_selected_upto_origin(ta, s.tracks_a_ui@, na);
    lemma_selected_upto_origin(tb, s.tracks_b_ui@, nb);
}

/// An entered offset is the manual confirmation that an inconsistent
/// detection asks for: with an entered offset, only an unoverridden
/// framerate mismatch blocks.
pub proof fn law_entered_offset_blocks_only_on_framerate<E>(s: AppState<E>)
    requires
        s.offset is ManualOverride,
    ensures
        s.block_reason() is Some <==> s.framerate_blocked(),
{
}

/// Overriding the framerate check lifts its block: an overridden session is
/// blocked only by a detected offset whose measurements disagree.
pub proof fn law_framerate_override_lifts_block<E>(s: AppState<E>)
    requires
        s.framerate_override,
    ensures
        s.block_reason() is Some <==> (s.offset matches OffsetState::Detected(r)
            && r.consistency == Consistency::Inconsistent),
{
}

/// Only the donor's chosen tracks are delayed: the command of a plan that
/// the session makes holds `--sync` once per chosen File B track (unless a
/// path is itself the text `--sync`).
pub proof fn law_only_chosen_file_b_tracks_are_delayed<E>(
    s: AppState<E>,
    output_path: Seq<char>,
    plan: MergePlan,
)
    requires
        s.plan_matches(output_path, plan),
        plan.file_a@ != "--sync"@,
        plan.file_b@ != "--sync"@,
        plan.output_path@ != "--sync"@,
    ensures
        occurrences(merge_args(plan), "--sync"@) == selected_of(
            s.file_b->0.tracks@,
            s.tracks_b_ui@,
        ).len(),
{
    law_only_file_b_tracks_are_delayed(plan);
}

/// The plan keeps the chapters of the file that the session chose: File A's
/// for File A, File B's for File B, and neither file's for neither.
pub proof fn law_plan_keeps_chosen_chapters<E>(s: AppState<E>, output_path: Seq<char>, plan: MergePlan)
    requires
        s.plan_matches(output_path, plan),
    ensures
        s.chapters_choice == ChaptersChoice::FileA ==> plan.chapters == ChapterSource::FileA,
        s.chapters_choice == ChaptersChoice::FileB ==> plan.chapters == ChapterSource::FileB,
        s.chapters_choice == ChaptersChoice::Neither ==> plan.chapters == ChapterSource::Neither,
{
}

/// A merge (or a new detection) is blocked exactly by a framerate mismatch
/// that is not overridden, or by a detected offset whose two measurements
/// disagree; a consistent or unverified detection never blocks.
pub proof fn law_blocked_only_by_mismatch_or_inconsistency<E>(s: AppState<E>)
    ensures
        s.block_reason() is Some <==> ((s.framerate_error is Some && !s.framerate_override) || (
        s.offset matches OffsetState::Detected(r) && r.consistency == Consistency::Inconsistent)),
{
}

/// The value of an ASCII digit.
pub open spec fn digit_value(c: char) -> int {
    c as int - '0' as int
}

/// The value of a run of decimal digits, most significant first.
pub open spec fn digits_value(s: Seq<char>) -> int
    decreases s.len(),
{
    if s.len() == 0 {
        0
    } else {
        digits_value(s.drop_last()) * 10 + digit_value(s.last())
    }
}

proof fn lemma_digit_char_value(d: nat)
    requires
        d < 10,
    ensures
        digit_value(digit_char(d)) == d,
        is_ascii_digit(digit_char(d)),
{
}

proof fn lemma_decimal_reads_back(n: nat)
    ensures
        digits_value(decimal(n)) == n,
        decimal(n).len() > 0,
        forall|i: int| 0 <= i < decimal(n).len() ==> is_ascii_digit(#[trigger] decimal(n)[i]),
    decreases n,
{
    lemma_digit_char_value(n % 10);
    if n < 10 {
        assert(seq![digit_char(n)].drop_last() =~= Seq::<char>::empty());
        assert(digits_value(Seq::<char>::empty()) == 0);
    } else {
        lemma_decimal_reads_back(n / 10);
        let d = decimal(n);
        assert(d.drop_last() =~= decimal(n / 10));
        assert forall|i: int| 0 <= i < d.len() implies is_ascii_digit(#[trigger] d[i]) by {
            if i < d.len() - 1 {
                assert(d[i] == decimal(n / 10)[i]);
            }
        }
    }
}

proof fn lemma_three_digits_value(a: char, b: char, c: char)
    ensures
        digits_value(seq![a, b, c]) == digit_value(a) * 100 + digit_value(b) * 10 + digit_value(c),
{
    let s3 = seq![a, b, c];
    assert(s3.drop_last() =~= seq![a, b]);
    assert(seq![a, b].drop_last() =~= seq![a]);
    assert(seq![a].drop_last() =~= Seq::<char>::empty());
    assert(digits_value(Seq::<char>::empty()) == 0);
    assert(digits_value(seq![a]) == digit_value(a));
    assert(digits_value(seq![a, b]) == digit_value(a) * 10 + digit_value(b));
}

/// The offset field's text reads back as the offset: it starts with `-`
/// for every negative offset and never for a positive one, and the rest is
/// the whole seconds in decimal digits, a `.`, and three digits of
/// milliseconds, together worth the offset's magnitude in milliseconds.
pub proof fn law_offset_text_reads_back(ms: i64, below_zero: bool)
    ensures
        ({
            let t = offset_text_of(ms as int, below_zero);
            let neg = t.len() > 0 && t[0] == '-';
            let u = if neg {
                t.drop_first()
            } else {
                t
            };
            let m = if ms < 0 {
                -(ms as int)
            } else {
                ms as int
            };
            &&& ms < 0 ==> neg
            &&& ms > 0 ==> !neg
            &&& u.len() >= 5
            &&& u[u.len() - 4] == '.'
            &&& forall|i: int| 0 <= i < u.len() && i != u.len() - 4 ==> is_ascii_digit(#[trigger] u[i])
            &&& digits_value(u.take(u.len() - 4)) * 1000 + digits_value(u.skip(u.len() - 3)) == m
        }),
{
    let t = offset_text_of(ms as int, below_zero);
    let m: nat = if ms < 0 {
        (-(ms as int)) as nat
    } else {
        ms as nat
    };
    let frac = m % 1000;
    let whole = decimal(m / 1000);
    let (d1, d2, d3) = (frac / 100, (frac / 10) % 10, frac % 10);
    let tail = seq!['.', digit_char(d1), digit_char(d2), digit_char(d3)];
    let u = whole + tail;
    let minus = ms < 0 || (ms == 0 && below_zero);
    lemma_decimal_reads_back(m / 1000);
    lemma_digit_char_value(d1);
    lemma_digit_char_value(d2);
    lemma_digit_char_value(d3);
    if minus {
        assert(t =~= seq!['-'] + u);
        assert(t.drop_first() =~= u);
    } else {
        assert(t =~= u);
        assert(t[0] == whole[0]);
    }
    assert(u.take(u.len() - 4) =~= whole);
    assert(u.skip(u.len() - 3) =~= seq![digit_char(d1), digit_char(d2), digit_char(d3)]);
    lemma_three_digits_value(digit_char(d1), digit_char(d2), digit_char(d3));
    assert(d1 * 100 + d2 * 10 + d3 == frac) by (nonlinear_arith)
        requires
            d1 == frac / 100,
            d2 == (frac / 10) % 10,
            d3 == frac % 10,
            frac < 1000,
    ;
    assert((m / 1000) * 1000 + frac == m) by (nonlinear_arith)
        requires
            frac == m % 1000,
    ;
    assert forall|i: int| 0 <= i < u.len() && i != u.len() - 4 implies is_ascii_digit(#[trigger] u[i]) by {
        if i < whole.len() {
            assert(u[i] == whole[i]);
        } else {
            assert(u[i] == tail[i - whole.len()]);
        }
    }
}

} // verus!
