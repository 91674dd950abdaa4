//! The merge plan and the mkvmerge command line that carries it out.
use vstd::prelude::*;
use crate::probe::TrackKind;
use crate::text::{
    append_chars, chars_from, chars_of, starts_with, trim_back, trim_both, trimmed, trimmed_back,
    CharClass, decimal, join, owned, push_decimal, push_signed_decimal,
    signed_decimal, string_from_chars, strings_view, is_ascii_digit, lemma_decimal_starts_with_digit,
};

verus! {

/// A track chosen from one of the two input files, with the flags to set on
/// it in the output.
#[derive(Debug, Clone, Copy, PartialEq, Eq, Structural)]
pub struct TrackSelection {
    pub track_id: u64,
    pub kind: TrackKind,
    pub set_default: bool,
    pub set_forced: bool,
}

/// Which input file's chapters the output keeps.
#[derive(Debug, Clone, Copy, PartialEq, Eq, Structural)]
pub enum ChapterSource {
    FileA,
    FileB,
    /// Neither file's chapters.
    Neither,
}

/// Everything a merge needs. File A is the reference timeline; File B's
/// shared content occurs `offset_ms` milliseconds later than File A's.
#[derive(Debug)]
pub struct MergePlan {
    pub file_a: String,
    pub file_b: String,
    pub tracks_from_a: Vec<TrackSelection>,
    pub tracks_from_b: Vec<TrackSelection>,
    /// The offset of File B against File A, rounded to milliseconds.
    pub offset_ms: i64,
    pub chapters: ChapterSource,
    pub attachments_from_a: bool,
    pub attachments_from_b: bool,
    pub tags_from_a: bool,
    pub tags_from_b: bool,
    pub output_path: String,
}

/// The option that keeps only the listed tracks of a kind.
pub open spec fn keep_flag(kind: TrackKind) -> Seq<char> {
    match kind {
        TrackKind::Video => "--video-tracks"@,
        TrackKind::Audio => "--audio-tracks"@,
        TrackKind::Subtitle => "--subtitle-tracks"@,
    }
}

/// The option that drops every track of a kind.
pub open spec fn exclude_flag(kind: TrackKind) -> Seq<char> {
    match kind {
        TrackKind::Video => "--no-video"@,
        TrackKind::Audio => "--no-audio"@,
        TrackKind::Subtitle => "--no-subtitles"@,
    }
}

/// The decimal ids of the selections of one kind, in order.
pub open spec fn ids_of_kind(sels: Seq<TrackSelection>, kind: TrackKind) -> Seq<Seq<char>>
    decreases sels.len(),
{
    if sels.len() == 0 {
        Seq::empty()
    } else {
        let rest = ids_of_kind(sels.drop_last(), kind);
        if sels.last().kind == kind {
            rest.push(decimal(sels.last().track_id as nat))
        } else {
            rest
        }
    }
}

/// The arguments for one kind: the ids to keep, or the option that drops
/// the kind when none of it is selected.
pub open spec fn kind_args(sels: Seq<TrackSelection>, kind: TrackKind) -> Seq<Seq<char>> {
    let ids = ids_of_kind(sels, kind);
    if ids.len() == 0 {
        seq![exclude_flag(kind)]
    } else {
        seq![keep_flag(kind), join(ids, seq![','])]
    }
}

/// The track-selection arguments for one input file: video, then audio, then
/// subtitles.
pub open spec fn selection_args(sels: Seq<TrackSelection>) -> Seq<Seq<char>> {
    kind_args(sels, TrackKind::Video) + kind_args(sels, TrackKind::Audio) + kind_args(
        sels,
        TrackKind::Subtitle,
    )
}

/// `<id>:yes`
pub open spec fn yes_arg(id: u64) -> Seq<char> {
    decimal(id as nat) + ":yes"@
}

/// `<id>:<delay>`
pub open spec fn sync_arg(id: u64, delay_ms: int) -> Seq<char> {
    decimal(id as nat) + seq![':'] + signed_decimal(delay_ms)
}

/// The per-track arguments of one selection: its default flag, its forced
/// flag, and, for File B's tracks, its delay.
pub open spec fn track_flag_args(s: TrackSelection, delay_ms: Option<int>) -> Seq<Seq<char>> {
    (if s.set_default {
        seq!["--default-track-flag"@, yes_arg(s.track_id)]
    } else {
        Seq::empty()
    }) + (if s.set_forced {
        seq!["--forced-display-flag"@, yes_arg(s.track_id)]
    } else {
        Seq::empty()
    }) + (match delay_ms {
        Some(d) => seq!["--sync"@, sync_arg(s.track_id, d)],
        None => Seq::empty(),
    })
}

/// The per-track arguments of all selections, in order.
pub open spec fn flag_args(sels: Seq<TrackSelection>, delay_ms: Option<int>) -> Seq<Seq<char>>
    decreases sels.len(),
{
    if sels.len() == 0 {
        Seq::empty()
    } else {
        flag_args(sels.drop_last(), delay_ms) + track_flag_args(sels.last(), delay_ms)
    }
}

/// The options that drop chapters, attachments and tags of one input file.
pub open spec fn extras_args(keep_chapters: bool, attachments: bool, tags: bool) -> Seq<
    Seq<char>,
> {
    (if keep_chapters {
        Seq::empty()
    } else {
        seq!["--no-chapters"@]
    }) + (if attachments {
        Seq::empty()
    } else {
        seq!["--no-attachments"@]
    }) + (if tags {
        Seq::empty()
    } else {
        seq!["--no-global-tags"@, "--no-track-tags"@]
    })
}

/// The delay applied to File B's tracks: the negation of the offset, so
/// that File B's content moves back onto File A's timeline (saturating at
/// the bounds of `i64`).
pub open spec fn sync_delay_ms(offset_ms: i64) -> i64 {
    if offset_ms == i64::MIN {
        i64::MAX
    } else {
        (-offset_ms) as i64
    }
}

/// `<file>:<id>` for each selection of one input file.
pub open spec fn order_parts(sels: Seq<TrackSelection>, file: char) -> Seq<Seq<char>>
    decreases sels.len(),
{
    if sels.len() == 0 {
        Seq::empty()
    } else {
        order_parts(sels.drop_last(), file).push(
            seq![file, ':'] + decimal(sels.last().track_id as nat),
        )
    }
}

/// The arguments that concern File A, ending with its path.
pub open spec fn file_a_args(plan: MergePlan) -> Seq<Seq<char>> {
    selection_args(plan.tracks_from_a@) + flag_args(plan.tracks_from_a@, None) + extras_args(
        plan.chapters == ChapterSource::FileA,
        plan.attachments_from_a,
        plan.tags_from_a,
    ) + seq![plan.file_a@]
}

/// The arguments that concern File B, ending with its path.
pub open spec fn file_b_args(plan: MergePlan) -> Seq<Seq<char>> {
    selection_args(plan.tracks_from_b@) + flag_args(
        plan.tracks_from_b@,
        Some(sync_delay_ms(plan.offset_ms) as int),
    ) + extras_args(
        plan.chapters == ChapterSource::FileB,
        plan.attachments_from_b,
        plan.tags_from_b,
    ) + seq![plan.file_b@]
}

/// The output path and the order of the output's tracks: File A's selected
/// tracks, then File B's.
pub open spec fn output_args(plan: MergePlan) -> Seq<Seq<char>> {
    seq![
        "-o"@,
        plan.output_path@,
        "--track-order"@,
        join(
            order_parts(plan.tracks_from_a@, '0') + order_parts(plan.tracks_from_b@, '1'),
            seq![','],
        ),
    ]
}

/// The full mkvmerge argument list for a plan.
pub open spec fn merge_args(plan: MergePlan) -> Seq<Seq<char>> {
    file_a_args(plan) + file_b_args(plan) + output_args(plan)
}

proof fn lemma_join_push(parts: Seq<Seq<char>>, p: Seq<char>, sep: Seq<char>)
    ensures
        join(parts.push(p), sep) == (if parts.len() == 0 {
            p
        } else {
            join(parts, sep) + sep + p
        }),
{
    assert(parts.push(p).drop_last() =~= parts);
    if parts.len() == 0 {
        assert(parts.push(p) =~= seq![p]);
    }
}

fn push_str_arg(args: &mut Vec<String>, s: &str)
    ensures
        strings_view(final(args)@) == strings_view(old(args)@).push(s@),
{
    args.push(owned(s));
    assert(strings_view(args@) =~= strings_view(old(args)@).push(s@));
}

fn push_chars_arg(args: &mut Vec<String>, v: &Vec<char>)
    ensures
        strings_view(final(args)@) == strings_view(old(args)@).push(v@),
{
    args.push(string_from_chars(v.as_slice()));
    assert(strings_view(args@) =~= strings_view(old(args)@).push(v@));
}

fn push_string_arg(args: &mut Vec<String>, s: &String)
    ensures
        strings_view(final(args)@) == strings_view(old(args)@).push(s@),
{
    args.push(s.clone());
    assert(strings_view(args@) =~= strings_view(old(args)@).push(s@));
}

fn keep_flag_str(kind: TrackKind) -> (r: &'static str)
    ensures
        r@ == keep_flag(kind),
{
    match kind {
        TrackKind::Video => "--video-tracks",
        TrackKind::Audio => "--audio-tracks",
        TrackKind::Subtitle => "--subtitle-tracks",
    }
}

fn exclude_flag_str(kind: TrackKind) -> (r: &'static str)
    ensures
        r@ == exclude_flag(kind),
{
    match kind {
        TrackKind::Video => "--no-video",
        TrackKind::Audio => "--no-audio",
        TrackKind::Subtitle => "--no-subtitles",
    }
}

/// Appends the selection arguments of one kind.
fn push_kind_args(args: &mut Vec<String>, selections: &[TrackSelection], kind: TrackKind)
    ensures
        strings_view(final(args)@) == strings_view(old(args)@) + kind_args(selections@, kind),
{
    let n: usize = selections.len();
    let mut ids: Vec<char> = Vec::new();
    let mut count: usize = 0;
    let mut i: usize = 0;
    proof {
        assert(selections@.take(0) =~= Seq::<TrackSelection>::empty());
    }
    while i < n
        invariant
            n == selections@.len(),
            i <= n,
            count == ids_of_kind(selections@.take(i as int), kind).len(),
            ids@ == join(ids_of_kind(selections@.take(i as int), kind), seq![',']),
            count <= i,
        decreases n - i,
    {
        let s = selections[i];
        let ghost prev = ids_of_kind(selections@.take(i as int), kind);
        proof {
            assert(selections@.take(i + 1).drop_last() =~= selections@.take(i as int));
            assert(selections@.take(i + 1).last() == s);
        }
        if s.kind == kind {
            if count > 0 {
                ids.push(',');
            }
            push_decimal(&mut ids, s.track_id);
            proof {
                lemma_join_push(prev, decimal(s.track_id as nat), seq![',']);
                if count > 0 {
                    assert(ids@ =~= join(prev, seq![',']) + seq![','] + decimal(s.track_id as nat));
                } else {
                    assert(ids@ =~= decimal(s.track_id as nat));
                }
            }
            count = count + 1;
        }
        i = i + 1;
    }
    proof {
        assert(selections@.take(n as int) =~= selections@);
    }
    if count == 0 {
        push_str_arg(args, exclude_flag_str(kind));
    } else {
        push_str_arg(args, keep_flag_str(kind));
        push_chars_arg(args, &ids);
    }
    assert(strings_view(args@) =~= strings_view(old(args)@) + kind_args(selections@, kind));
}

/// Appends the track-selection arguments for one input file: for each of
/// video, audio and subtitles, either the option that keeps the listed ids
/// (comma-separated, in selection order) or the option that drops the kind.
pub fn push_track_selection_args(args: &mut Vec<String>, selections: &[TrackSelection])
    ensures
        strings_view(final(args)@) == strings_view(old(args)@) + selection_args(selections@),
{
    push_kind_args(args, selections, TrackKind::Video);
    push_kind_args(args, selections, TrackKind::Audio);
    push_kind_args(args, selections, TrackKind::Subtitle);
    assert(strings_view(args@) =~= strings_view(old(args)@) + selection_args(selections@));
}

fn id_with_suffix(id: u64, suffix: &str) -> (r: Vec<char>)
    ensures
        r@ == decimal(id as nat) + suffix@,
{
    let mut v: Vec<char> = Vec::new();
    push_decimal(&mut v, id);
    append_chars(&mut v, &chars_of(suffix));
    assert(v@ =~= decimal(id as nat) + suffix@);
    v
}

/// Appends the per-track arguments of every selection; with a delay, each
/// track also gets a `--sync`.
fn push_flag_args(args: &mut Vec<String>, selections: &[TrackSelection], delay_ms: Option<i64>)
    ensures
        strings_view(final(args)@) == strings_view(old(args)@) + flag_args(
            selections@,
            match delay_ms {
                Some(d) => Some(d as int),
                None => None,
            },
        ),
{
    let ghost d: Option<int> = match delay_ms {
        Some(d) => Some(d as int),
        None => None,
    };
    let n: usize = selections.len();
    let mut i: usize = 0;
    proof {
        assert(selections@.take(0) =~= Seq::<TrackSelection>::empty());
        assert(strings_view(args@) =~= strings_view(old(args)@) + flag_args(
            selections@.take(0),
            d,
        ));
    }
    while i < n
        invariant
            n == selections@.len(),
            i <= n,
            d == match delay_ms {
                Some(x) => Some(x as int),
                None => None,
            },
            strings_view(args@) == strings_view(old(args)@) + flag_args(
                selections@.take(i as int),
                d,
            ),
        decreases n - i,
    {
        let s = selections[i];
        let ghost before = strings_view(args@);
        proof {
            assert(selections@.take(i + 1).drop_last() =~= selections@.take(i as int));
            assert(selections@.take(i + 1).last() == s);
        }
        if s.set_default {
            push_str_arg(args, "--default-track-flag");
            push_chars_arg(args, &id_with_suffix(s.track_id, ":yes"));
        }
        let ghost mid1 = strings_view(args@);
        if s.set_forced {
            push_str_arg(args, "--forced-display-flag");
            push_chars_arg(args, &id_with_suffix(s.track_id, ":yes"));
        }
        let ghost mid2 = strings_view(args@);
        let ghost p3: Seq<Seq<char>> = match d {
            Some(dd) => seq!["--sync"@, sync_arg(s.track_id, dd)],
            None => Seq::empty(),
        };
        match delay_ms {
            Some(delay) => {
                push_str_arg(args, "--sync");
                let mut v: Vec<char> = Vec::new();
                push_decimal(&mut v, s.track_id);
                v.push(':');
                push_signed_decimal(&mut v, delay);
                assert(v@ =~= sync_arg(s.track_id, delay as int));
                push_chars_arg(args, &v);
                assert(strings_view(args@) =~= mid2 + p3);
            },
            None => {
                assert(strings_view(args@) =~= mid2 + p3);
            },
        }
        proof {
            let tf = track_flag_args(s, d);
            let p1: Seq<Seq<char>> = if s.set_default {
                seq!["--default-track-flag"@, yes_arg(s.track_id)]
            } else {
                Seq::empty()
            };
            let p2: Seq<Seq<char>> = if s.set_forced {
                seq!["--forced-display-flag"@, yes_arg(s.track_id)]
            } else {
                Seq::empty()
            };
            assert(mid1 =~= before + p1);
            assert(mid2 =~= mid1 + p2);
            assert(tf == p1 + p2 + p3);
            assert(strings_view(args@) =~= strings_view(old(args)@) + flag_args(
                selections@.take(i + 1),
                d,
            ));
        }
        i = i + 1;
    }
    proof {
        assert(selections@.take(n as int) =~= selections@);
    }
}

/// Appends the options that drop chapters, attachments and tags.
fn push_extras_args(args: &mut Vec<String>, keep_chapters: bool, attachments: bool, tags: bool)
    ensures
        strings_view(final(args)@) == strings_view(old(args)@) + extras_args(
            keep_chapters,
            attachments,
            tags,
        ),
{
    if !keep_chapters {
        push_str_arg(args, "--no-chapters");
    }
    let ghost mid1 = strings_view(args@);
    if !attachments {
        push_str_arg(args, "--no-attachments");
    }
    let ghost mid2 = strings_view(args@);
    if !tags {
        push_str_arg(args, "--no-global-tags");
        push_str_arg(args, "--no-track-tags");
    }
    assert(strings_view(args@) =~= strings_view(old(args)@) + extras_args(
        keep_chapters,
        attachments,
        tags,
    ));
}

/// Appends `<file>:<id>` parts for each selection to a comma-separated list.
fn push_order_parts(
    out: &mut Vec<char>,
    selections: &[TrackSelection],
    file: char,
    Ghost(prefix): Ghost<Seq<Seq<char>>>,
)
    requires
        old(out)@ == join(prefix, seq![',']),
        (old(out)@.len() == 0) == (prefix.len() == 0),
    ensures
        final(out)@ == join(prefix + order_parts(selections@, file), seq![',']),
        (final(out)@.len() == 0) == ((prefix + order_parts(selections@, file)).len() == 0),
{
    let n: usize = selections.len();
    let mut i: usize = 0;
    proof {
        assert(selections@.take(0) =~= Seq::<TrackSelection>::empty());
        assert(prefix + order_parts(selections@.take(0), file) =~= prefix);
    }
    while i < n
        invariant
            n == selections@.len(),
            i <= n,
            out@ == join(prefix + order_parts(selections@.take(i as int), file), seq![',']),
            (out@.len() == 0) == ((prefix + order_parts(selections@.take(i as int), file)).len()
                == 0),
        decreases n - i,
    {
        let s = selections[i];
        let ghost parts = prefix + order_parts(selections@.take(i as int), file);
        let ghost part = seq![file, ':'] + decimal(s.track_id as nat);
        proof {
            assert(selections@.take(i + 1).drop_last() =~= selections@.take(i as int));
            assert(selections@.take(i + 1).last() == s);
            assert(prefix + order_parts(selections@.take(i + 1), file) =~= parts.push(part));
            lemma_join_push(parts, part, seq![',']);
        }
        if out.len() > 0 {
            out.push(',');
        }
        out.push(file);
        out.push(':');
        push_decimal(out, s.track_id);
        proof {
            if parts.len() == 0 {
                assert(out@ =~= part);
            } else {
                assert(out@ =~= join(parts, seq![',']) + seq![','] + part);
            }
        }
        i = i + 1;
    }
    proof {
        assert(selections@.take(n as int) =~= selections@);
    }
}

/// Builds the mkvmerge argument list that carries out `plan`. File A is the
/// timeline reference; every track taken from File B is delayed by the
/// negation of the plan's offset.
pub fn build_command(plan: &MergePlan) -> (args: Vec<String>)
    ensures
        strings_view(args@) == merge_args(*plan),
{
    let mut args: Vec<String> = Vec::new();
    push_file_a_args(&mut args, plan);
    let ghost after_a = strings_view(args@);
    push_file_b_args(&mut args, plan);
    let ghost after_b = strings_view(args@);
    push_output_args(&mut args, plan);
    proof {
        assert(after_a =~= file_a_args(*plan));
        assert(after_b =~= file_a_args(*plan) + file_b_args(*plan));
        assert(strings_view(args@) =~= merge_args(*plan));
    }
    args
}

fn push_file_a_args(args: &mut Vec<String>, plan: &MergePlan)
    ensures
        strings_view(final(args)@) == strings_view(old(args)@) + file_a_args(*plan),
{
    push_track_selection_args(args, plan.tracks_from_a.as_slice());
    let ghost s1 = strings_view(args@);
    push_flag_args(args, plan.tracks_from_a.as_slice(), None);
    let ghost s2 = strings_view(args@);
    push_extras_args(
        args,
        plan.chapters == ChapterSource::FileA,
        plan.attachments_from_a,
        plan.tags_from_a,
    );
    let ghost s3 = strings_view(args@);
    push_string_arg(args, &plan.file_a);
    proof {
        assert(strings_view(args@) =~= strings_view(old(args)@) + file_a_args(*plan));
    }
}

fn push_file_b_args(args: &mut Vec<String>, plan: &MergePlan)
    ensures
        strings_view(final(args)@) == strings_view(old(args)@) + file_b_args(*plan),
{
    let delay: i64 = if plan.offset_ms == i64::MIN {
        i64::MAX
    } else {
        -plan.offset_ms
    };
    push_track_selection_args(args, plan.tracks_from_b.as_slice());
    push_flag_args(args, plan.tracks_from_b.as_slice(), Some(delay));
    push_extras_args(
        args,
        plan.chapters == ChapterSource::FileB,
        plan.attachments_from_b,
        plan.tags_from_b,
    );
    push_string_arg(args, &plan.file_b);
    proof {
        assert(strings_view(args@) =~= strings_view(old(args)@) + file_b_args(*plan));
    }
}

fn push_output_args(args: &mut Vec<String>, plan: &MergePlan)
    ensures
        strings_view(final(args)@) == strings_view(old(args)@) + output_args(*plan),
{
    push_str_arg(args, "-o");
    push_string_arg(args, &plan.output_path);
    let mut order: Vec<char> = Vec::new();
    push_order_parts(&mut order, plan.tracks_from_a.as_slice(), '0', Ghost(Seq::empty()));
    proof {
        assert(Seq::<Seq<char>>::empty() + order_parts(plan.tracks_from_a@, '0') =~= order_parts(
            plan.tracks_from_a@,
            '0',
        ));
    }
    push_order_parts(
        &mut order,
        plan.tracks_from_b.as_slice(),
        '1',
        Ghost(order_parts(plan.tracks_from_a@, '0')),
    );
    push_str_arg(args, "--track-order");
    push_chars_arg(args, &order);
    proof {
        assert(strings_view(args@) =~= strings_view(old(args)@) + output_args(*plan));
    }
}

/// The text after mkvmerge's `#GUI#progress ` marker, with surrounding
/// whitespace and any trailing `%` removed; `None` for a line without the
/// marker.
pub open spec fn progress_text_of(line: Seq<char>) -> Option<Seq<char>> {
    let marker = "#GUI#progress "@;
    if marker.len() <= line.len() && line.take(marker.len() as int) == marker {
        Some(
            trim_back(
                trim_both(line.skip(marker.len() as int), CharClass::Whitespace),
                CharClass::Exactly('%'),
            ),
        )
    } else {
        None
    }
}

/// For a progress line of mkvmerge's GUI mode (`#GUI#progress 42%`), the
/// percentage text (`42`); `None` for any other line, which is log output.
pub fn progress_text(line: &str) -> (r: Option<String>)
    ensures
        match r {
            Some(t) => progress_text_of(line@) == Some(t@),
            None => progress_text_of(line@) is None,
        },
{
    let v = chars_of(line);
    let marker = chars_of("#GUI#progress ");
    if !starts_with(&v, &marker) {
        return None;
    }
    let rest = chars_from(&v, marker.len());
    let t = trimmed_back(&trimmed(&rest, CharClass::Whitespace), CharClass::Exactly('%'));
    Some(string_from_chars(t.as_slice()))
}

/// How many times `x` occurs in a list of arguments.
pub open spec fn occurrences(args: Seq<Seq<char>>, x: Seq<char>) -> nat
    decreases args.len(),
{
    if args.len() == 0 {
        0
    } else {
        occurrences(args.drop_last(), x) + if args.last() == x {
            1nat
        } else {
            0nat
        }
    }
}

/// `x` is none of the track-selection options, and does not start with a
/// digit (as id lists do).
pub open spec fn not_a_selection_arg(x: Seq<char>) -> bool {
    &&& x.len() > 0
    &&& !is_ascii_digit(x[0])
    &&& x != keep_flag(TrackKind::Video) && x != keep_flag(TrackKind::Audio) && x != keep_flag(
        TrackKind::Subtitle,
    )
    &&& x != exclude_flag(TrackKind::Video) && x != exclude_flag(TrackKind::Audio) && x
        != exclude_flag(TrackKind::Subtitle)
}

/// `x` is none of the track-selection and track-flag options, and does not
/// start with a digit (as ids, id lists and track-order lists do).
pub open spec fn not_a_track_arg(x: Seq<char>) -> bool {
    &&& x.len() > 0
    &&& !is_ascii_digit(x[0])
    &&& x != keep_flag(TrackKind::Video) && x != keep_flag(TrackKind::Audio) && x != keep_flag(
        TrackKind::Subtitle,
    )
    &&& x != exclude_flag(TrackKind::Video) && x != exclude_flag(TrackKind::Audio) && x
        != exclude_flag(TrackKind::Subtitle)
    &&& x != "--default-track-flag"@ && x != "--forced-display-flag"@
}

/// `x` is none of the options that the command writes other than
/// `--sync` and `--no-chapters`, and does not start with a digit (as ids,
/// id lists and track-order lists do).
pub open spec fn unlike_other_args(x: Seq<char>) -> bool {
    &&& x.len() > 0
    &&& !is_ascii_digit(x[0])
    &&& x != keep_flag(TrackKind::Video) && x != keep_flag(TrackKind::Audio) && x != keep_flag(
        TrackKind::Subtitle,
    )
    &&& x != exclude_flag(TrackKind::Video) && x != exclude_flag(TrackKind::Audio) && x
        != exclude_flag(TrackKind::Subtitle)
    &&& x != "--default-track-flag"@ && x != "--forced-display-flag"@
    &&& x != "--no-attachments"@ && x != "--no-global-tags"@ && x != "--no-track-tags"@
    &&& x != "-o"@ && x != "--track-order"@
}

proof fn lemma_occurrences_concat(a: Seq<Seq<char>>, b: Seq<Seq<char>>, x: Seq<char>)
    ensures
        occurrences(a + b, x) == occurrences(a, x) + occurrences(b, x),
    decreases b.len(),
{
    if b.len() == 0 {
        assert(a + b =~= a);
    } else {
        assert((a + b).drop_last() =~= a + b.drop_last());
        lemma_occurrences_concat(a, b.drop_last(), x);
    }
}

proof fn lemma_occurrences_two(p: Seq<char>, q: Seq<char>, x: Seq<char>)
    ensures
        occurrences(seq![p, q], x) == (if p == x { 1nat } else { 0nat }) + (if q == x { 1nat } else { 0nat }),
{
    assert(seq![p, q].drop_last() =~= seq![p]);
    lemma_occurrences_one(p, x);
}

proof fn lemma_occurrences_one(p: Seq<char>, x: Seq<char>)
    ensures
        occurrences(seq![p], x) == (if p == x { 1nat } else { 0nat }),
{
    assert(seq![p].drop_last() =~= Seq::<Seq<char>>::empty());
    assert(occurrences(Seq::<Seq<char>>::empty(), x) == 0);
}

proof fn lemma_join_starts_with_digit(parts: Seq<Seq<char>>)
    requires
        parts.len() > 0,
        forall|i: int| 0 <= i < parts.len() ==> #[trigger] parts[i].len() > 0 && is_ascii_digit(parts[i][0]),
    ensures
        join(parts, seq![',']).len() > 0,
        is_ascii_digit(join(parts, seq![','])[0]),
    decreases parts.len(),
{
    if parts.len() > 1 {
        let rest = parts.drop_last();
        assert(rest[0] == parts[0]);
        lemma_join_starts_with_digit(rest);
    }
}

proof fn lemma_ids_start_with_digit(sels: Seq<TrackSelection>, kind: TrackKind)
    ensures
        forall|i: int| 0 <= i < ids_of_kind(sels, kind).len() ==> #[trigger] ids_of_kind(sels, kind)[i].len() > 0
            && is_ascii_digit(ids_of_kind(sels, kind)[i][0]),
    decreases sels.len(),
{
    if sels.len() > 0 {
        lemma_ids_start_with_digit(sels.drop_last(), kind);
        lemma_decimal_starts_with_digit(sels.last().track_id as nat);
        let rest = ids_of_kind(sels.drop_last(), kind);
        let all = ids_of_kind(sels, kind);
        assert forall|i: int| 0 <= i < all.len() implies #[trigger] all[i].len() > 0 && is_ascii_digit(all[i][0]) by {
            if i < rest.len() {
                assert(all[i] == rest[i]);
            }
        }
    }
}

proof fn lemma_order_parts_start_with_digit(sels: Seq<TrackSelection>, file: char)
    requires
        is_ascii_digit(file),
    ensures
        forall|i: int| 0 <= i < order_parts(sels, file).len() ==> #[trigger] order_parts(sels, file)[i].len() > 0
            && is_ascii_digit(order_parts(sels, file)[i][0]),
    decreases sels.len(),
{
    if sels.len() > 0 {
        lemma_order_parts_start_with_digit(sels.drop_last(), file);
        let rest = order_parts(sels.drop_last(), file);
        let all = order_parts(sels, file);
        assert forall|i: int| 0 <= i < all.len() implies #[trigger] all[i].len() > 0 && is_ascii_digit(all[i][0]) by {
            if i < rest.len() {
                assert(all[i] == rest[i]);
            }
        }
    }
}

proof fn lemma_kind_args_free(sels: Seq<TrackSelection>, kind: TrackKind, x: Seq<char>)
    requires
        not_a_selection_arg(x),
    ensures
        occurrences(kind_args(sels, kind), x) == 0,
{
    let ids = ids_of_kind(sels, kind);
    if ids.len() == 0 {
        lemma_occurrences_one(exclude_flag(kind), x);
    } else {
        lemma_ids_start_with_digit(sels, kind);
        lemma_join_starts_with_digit(ids);
        lemma_occurrences_two(keep_flag(kind), join(ids, seq![',']), x);
    }
}

proof fn lemma_selection_args_free(sels: Seq<TrackSelection>, x: Seq<char>)
    requires
        not_a_selection_arg(x),
    ensures
        occurrences(selection_args(sels), x) == 0,
{
    lemma_kind_args_free(sels, TrackKind::Video, x);
    lemma_kind_args_free(sels, TrackKind::Audio, x);
    lemma_kind_args_free(sels, TrackKind::Subtitle, x);
    lemma_occurrences_concat(kind_args(sels, TrackKind::Video), kind_args(sels, TrackKind::Audio), x);
    lemma_occurrences_concat(
        kind_args(sels, TrackKind::Video) + kind_args(sels, TrackKind::Audio),
        kind_args(sels, TrackKind::Subtitle),
        x,
    );
}

proof fn lemma_track_flag_args_count(s: TrackSelection, delay_ms: Option<int>, x: Seq<char>)
    requires
        not_a_track_arg(x),
    ensures
        occurrences(track_flag_args(s, delay_ms), x) == (if delay_ms is Some && x == "--sync"@ {
            1nat
        } else {
            0nat
        }),
{
    lemma_decimal_starts_with_digit(s.track_id as nat);
    let y = yes_arg(s.track_id);
    assert(y[0] == decimal(s.track_id as nat)[0]);
    let p1: Seq<Seq<char>> = if s.set_default {
        seq!["--default-track-flag"@, y]
    } else {
        Seq::empty()
    };
    let p2: Seq<Seq<char>> = if s.set_forced {
        seq!["--forced-display-flag"@, y]
    } else {
        Seq::empty()
    };
    let p3: Seq<Seq<char>> = match delay_ms {
        Some(d) => seq!["--sync"@, sync_arg(s.track_id, d)],
        None => Seq::empty(),
    };
    if s.set_default {
        lemma_occurrences_two("--default-track-flag"@, y, x);
    }
    if s.set_forced {
        lemma_occurrences_two("--forced-display-flag"@, y, x);
    }
    if let Some(d) = delay_ms {
        assert(sync_arg(s.track_id, d)[0] == decimal(s.track_id as nat)[0]);
        lemma_occurrences_two("--sync"@, sync_arg(s.track_id, d), x);
    }
    lemma_occurrences_concat(p1, p2, x);
    lemma_occurrences_concat(p1 + p2, p3, x);
}

proof fn lemma_flag_args_count(sels: Seq<TrackSelection>, delay_ms: Option<int>, x: Seq<char>)
    requires
        not_a_track_arg(x),
    ensures
        occurrences(flag_args(sels, delay_ms), x) == (if delay_ms is Some && x == "--sync"@ {
            sels.len()
        } else {
            0nat
        }),
    decreases sels.len(),
{
    if sels.len() > 0 {
        lemma_flag_args_count(sels.drop_last(), delay_ms, x);
        lemma_track_flag_args_count(sels.last(), delay_ms, x);
        lemma_occurrences_concat(
            flag_args(sels.drop_last(), delay_ms),
            track_flag_args(sels.last(), delay_ms),
            x,
        );
    }
}

proof fn lemma_extras_args_count(keep_chapters: bool, attachments: bool, tags: bool, x: Seq<char>)
    requires
        unlike_other_args(x),
    ensures
        occurrences(extras_args(keep_chapters, attachments, tags), x) == (if !keep_chapters && x
            == "--no-chapters"@ {
            1nat
        } else {
            0nat
        }),
{
    let p1: Seq<Seq<char>> = if keep_chapters {
        Seq::empty()
    } else {
        seq!["--no-chapters"@]
    };
    let p2: Seq<Seq<char>> = if attachments {
        Seq::empty()
    } else {
        seq!["--no-attachments"@]
    };
    let p3: Seq<Seq<char>> = if tags {
        Seq::empty()
    } else {
        seq!["--no-global-tags"@, "--no-track-tags"@]
    };
    if !keep_chapters {
        lemma_occurrences_one("--no-chapters"@, x);
    }
    if !attachments {
        lemma_occurrences_one("--no-attachments"@, x);
    }
    if !tags {
        lemma_occurrences_two("--no-global-tags"@, "--no-track-tags"@, x);
    }
    lemma_occurrences_concat(p1, p2, x);
    lemma_occurrences_concat(p1 + p2, p3, x);
}

proof fn lemma_merge_args_count(plan: MergePlan, x: Seq<char>)
    requires
        unlike_other_args(x),
        x != plan.file_a@,
        x != plan.file_b@,
        x != plan.output_path@,
    ensures
        occurrences(merge_args(plan), x) == (if x == "--sync"@ {
            plan.tracks_from_b@.len()
        } else {
            0nat
        }) + (if x == "--no-chapters"@ && plan.chapters != ChapterSource::FileA {
            1nat
        } else {
            0nat
        }) + (if x == "--no-chapters"@ && plan.chapters != ChapterSource::FileB {
            1nat
        } else {
            0nat
        }),
        occurrences(file_a_args(plan), x) == (if x == "--no-chapters"@ && plan.chapters
            != ChapterSource::FileA {
            1nat
        } else {
            0nat
        }),
        occurrences(output_args(plan), x) == 0,
{
    let a = plan.tracks_from_a@;
    let b = plan.tracks_from_b@;
    lemma_selection_args_free(a, x);
    lemma_selection_args_free(b, x);
    lemma_flag_args_count(a, None, x);
    lemma_flag_args_count(b, Some(sync_delay_ms(plan.offset_ms) as int), x);
    lemma_extras_args_count(plan.chapters == ChapterSource::FileA, plan.attachments_from_a, plan.tags_from_a, x);
    lemma_extras_args_count(plan.chapters == ChapterSource::FileB, plan.attachments_from_b, plan.tags_from_b, x);
    let sa = selection_args(a);
    let fa = flag_args(a, None);
    let ea = extras_args(plan.chapters == ChapterSource::FileA, plan.attachments_from_a, plan.tags_from_a);
    lemma_occurrences_concat(sa, fa, x);
    lemma_occurrences_concat(sa + fa, ea, x);
    lemma_occurrences_one(plan.file_a@, x);
    lemma_occurrences_concat(sa + fa + ea, seq![plan.file_a@], x);
    let sb = selection_args(b);
    let fb = flag_args(b, Some(sync_delay_ms(plan.offset_ms) as int));
    let eb = extras_args(plan.chapters == ChapterSource::FileB, plan.attachments_from_b, plan.tags_from_b);
    lemma_occurrences_concat(sb, fb, x);
    lemma_occurrences_concat(sb + fb, eb, x);
    lemma_occurrences_one(plan.file_b@, x);
    lemma_occurrences_concat(sb + fb + eb, seq![plan.file_b@], x);
    let parts = order_parts(a, '0') + order_parts(b, '1');
    let order = join(parts, seq![',']);
    if parts.len() > 0 {
        lemma_order_parts_start_with_digit(a, '0');
        lemma_order_parts_start_with_digit(b, '1');
        assert forall|i: int| 0 <= i < parts.len() implies #[trigger] parts[i].len() > 0 && is_ascii_digit(parts[i][0]) by {
            if i < order_parts(a, '0').len() {
                assert(parts[i] == order_parts(a, '0')[i]);
            } else {
                assert(parts[i] == order_parts(b, '1')[i - order_parts(a, '0').len()]);
            }
        }
        lemma_join_starts_with_digit(parts);
    } else {
        assert(order.len() == 0);
    }
    let out = output_args(plan);
    assert(out =~= seq!["-o"@, plan.output_path@] + seq!["--track-order"@, order]);
    lemma_occurrences_two("-o"@, plan.output_path@, x);
    lemma_occurrences_two("--track-order"@, order, x);
    lemma_occurrences_concat(seq!["-o"@, plan.output_path@], seq!["--track-order"@, order], x);
    lemma_occurrences_concat(file_a_args(plan), file_b_args(plan), x);
    lemma_occurrences_concat(file_a_args(plan) + file_b_args(plan), out, x);
}

proof fn lemma_literal_args_distinct()
    ensures
        unlike_other_args("--sync"@),
        unlike_other_args("--no-chapters"@),
        "--sync"@ != "--no-chapters"@,
{
    reveal_strlit("--sync");
    reveal_strlit("--no-chapters");
    reveal_strlit("--video-tracks");
    reveal_strlit("--audio-tracks");
    reveal_strlit("--subtitle-tracks");
    reveal_strlit("--no-video");
    reveal_strlit("--no-audio");
    reveal_strlit("--no-subtitles");
    reveal_strlit("--default-track-flag");
    reveal_strlit("--forced-display-flag");
    reveal_strlit("--no-attachments");
    reveal_strlit("--no-global-tags");
    reveal_strlit("--no-track-tags");
    reveal_strlit("-o");
    reveal_strlit("--track-order");
    assert("--sync"@.len() == 6);
    assert("--sync"@[0] == '-');
    assert(!is_ascii_digit("--sync"@[0]));
    assert("--sync"@ != "-o"@);
    assert("--sync"@ != "--no-video"@);
    assert("--no-chapters"@[2] != "--track-order"@[2]);
    assert("--no-chapters"@[3] != "--no-subtitles"@[3] || "--no-chapters"@[5] != "--no-subtitles"@[5]);
}

/// File A is the timeline reference: the offset is applied to File B's
/// tracks only, once each. The merge arguments hold `--sync` exactly once
/// per track taken from File B (unless a path of the plan is itself the
/// text `--sync`).
pub proof fn law_only_file_b_tracks_are_delayed(plan: MergePlan)
    requires
        plan.file_a@ != "--sync"@,
        plan.file_b@ != "--sync"@,
        plan.output_path@ != "--sync"@,
    ensures
        occurrences(merge_args(plan), "--sync"@) == plan.tracks_from_b@.len(),
{
    lemma_literal_args_distinct();
    lemma_merge_args_count(plan, "--sync"@);
}

/// Each input file whose chapters are not the chosen source has its
/// chapters dropped: `--no-chapters` occurs twice when neither file's
/// chapters are kept, and once otherwise (unless a path of the plan is
/// itself the text `--no-chapters`).
pub proof fn law_chapters_dropped_except_from_the_chosen_file(plan: MergePlan)
    requires
        plan.file_a@ != "--no-chapters"@,
        plan.file_b@ != "--no-chapters"@,
        plan.output_path@ != "--no-chapters"@,
    ensures
        occurrences(merge_args(plan), "--no-chapters"@) == (if plan.chapters == ChapterSource::Neither {
            2nat
        } else {
            1nat
        }),
{
    lemma_literal_args_distinct();
    lemma_merge_args_count(plan, "--no-chapters"@);
}

/// The delay given to File B's tracks is the negation of the offset: a
/// File B whose content comes later is moved earlier.
pub proof fn law_delay_is_negated_offset(offset_ms: i64)
    requires
        offset_ms != i64::MIN,
    ensures
        sync_delay_ms(offset_ms) == -offset_ms,
{
}

/// The arguments that directly follow each occurrence of `x`, in order.
pub open spec fn followers(args: Seq<Seq<char>>, x: Seq<char>) -> Seq<Seq<char>>
    decreases args.len(),
{
    if args.len() < 2 {
        Seq::empty()
    } else {
        followers(args.drop_last(), x) + if args[args.len() - 2] == x {
            seq![args.last()]
        } else {
            Seq::empty()
        }
    }
}

/// The `<id>:<delay>` argument of each selection, in order.
pub open spec fn sync_args_of(sels: Seq<TrackSelection>, delay_ms: int) -> Seq<Seq<char>> {
    Seq::new(sels.len(), |k: int| sync_arg(sels[k].track_id, delay_ms))
}

spec fn ends_clear(p: Seq<Seq<char>>, x: Seq<char>) -> bool {
    p.len() == 0 || p.last() != x
}

proof fn lemma_followers_concat(p: Seq<Seq<char>>, q: Seq<Seq<char>>, x: Seq<char>)
    requires
        ends_clear(p, x),
    ensures
        followers(p + q, x) == followers(p, x) + followers(q, x),
    decreases q.len(),
{
    let pq = p + q;
    if q.len() == 0 {
        assert(pq =~= p);
        assert(followers(p, x) + followers(q, x) =~= followers(p, x));
    } else {
        assert(pq.drop_last() =~= p + q.drop_last());
        lemma_followers_concat(p, q.drop_last(), x);
        if pq.len() < 2 {
            assert(p.len() == 0);
            assert(pq =~= q);
            assert(followers(p, x) + followers(q, x) =~= followers(q, x));
        } else if q.len() == 1 {
            assert(pq[pq.len() - 2] == p.last());
            assert(followers(q, x) =~= Seq::<Seq<char>>::empty());
            assert(followers(q.drop_last(), x) =~= Seq::<Seq<char>>::empty());
            assert(followers(pq, x) =~= followers(p, x) + followers(q, x));
        } else {
            assert(pq[pq.len() - 2] == q[q.len() - 2]);
            assert(pq.last() == q.last());
            let tail: Seq<Seq<char>> = if q[q.len() - 2] == x {
                seq![q.last()]
            } else {
                Seq::empty()
            };
            assert(followers(pq, x) == followers(p, x) + followers(q.drop_last(), x) + tail);
            assert(followers(q, x) == followers(q.drop_last(), x) + tail);
            assert(followers(pq, x) =~= followers(p, x) + followers(q, x));
        }
    }
}

proof fn lemma_no_occurrence(s: Seq<Seq<char>>, x: Seq<char>)
    requires
        occurrences(s, x) == 0,
    ensures
        followers(s, x) == Seq::<Seq<char>>::empty(),
        forall|i: int| 0 <= i < s.len() ==> #[trigger] s[i] != x,
        ends_clear(s, x),
    decreases s.len(),
{
    if s.len() > 0 {
        let init = s.drop_last();
        lemma_no_occurrence(init, x);
        assert forall|i: int| 0 <= i < s.len() implies #[trigger] s[i] != x by {
            if i < s.len() - 1 {
                assert(s[i] == init[i]);
            }
        }
        if s.len() >= 2 {
            assert(s[s.len() - 2] == init[s.len() - 2]);
            assert(followers(s, x) =~= Seq::<Seq<char>>::empty());
        }
    }
}

proof fn lemma_ends_clear_concat(p: Seq<Seq<char>>, q: Seq<Seq<char>>, x: Seq<char>)
    requires
        ends_clear(p, x),
        ends_clear(q, x),
    ensures
        ends_clear(p + q, x),
{
    if q.len() == 0 {
        assert(p + q =~= p);
    } else {
        assert((p + q).last() == q.last());
    }
}

proof fn lemma_single_arg(a: Seq<char>, x: Seq<char>)
    requires
        a != x,
    ensures
        followers(seq![a], x) == Seq::<Seq<char>>::empty(),
        occurrences(seq![a], x) == 0,
        ends_clear(seq![a], x),
{
    lemma_occurrences_one(a, x);
}

proof fn lemma_flag_args_followers(sels: Seq<TrackSelection>, delay_ms: int)
    ensures
        followers(flag_args(sels, Some(delay_ms)), "--sync"@) == sync_args_of(sels, delay_ms),
        ends_clear(flag_args(sels, Some(delay_ms)), "--sync"@),
    decreases sels.len(),
{
    let x = "--sync"@;
    lemma_literal_args_distinct();
    if sels.len() == 0 {
        assert(sync_args_of(sels, delay_ms) =~= Seq::<Seq<char>>::empty());
    } else {
        let init = sels.drop_last();
        let s = sels.last();
        lemma_flag_args_followers(init, delay_ms);
        let sa = sync_arg(s.track_id, delay_ms);
        let t0 = track_flag_args(s, None);
        let pair = seq![x, sa];
        let t = track_flag_args(s, Some(delay_ms));
        assert(t =~= t0 + pair);
        lemma_track_flag_args_count(s, None, x);
        lemma_no_occurrence(t0, x);
        lemma_decimal_starts_with_digit(s.track_id as nat);
        assert(sa[0] == decimal(s.track_id as nat)[0]);
        assert(sa != x);
        assert(pair.drop_last() =~= seq![x]);
        assert(followers(seq![x], x) =~= Seq::<Seq<char>>::empty());
        assert(pair[pair.len() - 2] == x);
        assert(pair.last() == sa);
        assert(followers(pair, x) =~= seq![sa]);
        lemma_followers_concat(t0, pair, x);
        let f = flag_args(init, Some(delay_ms));
        lemma_followers_concat(f, t, x);
        assert(flag_args(sels, Some(delay_ms)) == f + t);
        assert(sync_args_of(sels, delay_ms) =~= sync_args_of(init, delay_ms) + seq![sa]);
        assert((f + t).last() == sa);
    }
}

proof fn lemma_extras_literals()
    ensures
        not_a_track_arg("--no-chapters"@),
        not_a_track_arg("--no-attachments"@),
        not_a_track_arg("--no-global-tags"@),
        not_a_track_arg("--no-track-tags"@),
        "--no-chapters"@ != "--sync"@,
        "--no-attachments"@ != "--sync"@,
        "--no-global-tags"@ != "--sync"@,
        "--no-track-tags"@ != "--sync"@,
        "--no-chapters"@ != "--no-attachments"@,
        "--no-chapters"@ != "--no-global-tags"@,
        "--no-chapters"@ != "--no-track-tags"@,
        "--no-attachments"@ != "--no-global-tags"@,
        "--no-attachments"@ != "--no-track-tags"@,
        "--no-global-tags"@ != "--no-track-tags"@,
{
    lemma_literal_args_distinct();
    reveal_strlit("--sync");
    reveal_strlit("--no-chapters");
    reveal_strlit("--video-tracks");
    reveal_strlit("--audio-tracks");
    reveal_strlit("--subtitle-tracks");
    reveal_strlit("--no-video");
    reveal_strlit("--no-audio");
    reveal_strlit("--no-subtitles");
    reveal_strlit("--default-track-flag");
    reveal_strlit("--forced-display-flag");
    reveal_strlit("--no-attachments");
    reveal_strlit("--no-global-tags");
    reveal_strlit("--no-track-tags");
    assert("--no-attachments"@[5] != "--no-global-tags"@[5]);
    assert(!is_ascii_digit("--no-attachments"@[0]));
    assert(!is_ascii_digit("--no-global-tags"@[0]));
    assert(!is_ascii_digit("--no-track-tags"@[0]));
}

proof fn lemma_extras_args_each(keep_chapters: bool, attachments: bool, tags: bool, x: Seq<char>)
    ensures
        occurrences(extras_args(keep_chapters, attachments, tags), x) == (if !keep_chapters && x
            == "--no-chapters"@ {
            1nat
        } else {
            0nat
        }) + (if !attachments && x == "--no-attachments"@ {
            1nat
        } else {
            0nat
        }) + (if !tags && x == "--no-global-tags"@ {
            1nat
        } else {
            0nat
        }) + (if !tags && x == "--no-track-tags"@ {
            1nat
        } else {
            0nat
        }),
{
    lemma_extras_literals();
    let p1: Seq<Seq<char>> = if keep_chapters {
        Seq::empty()
    } else {
        seq!["--no-chapters"@]
    };
    let p2: Seq<Seq<char>> = if attachments {
        Seq::empty()
    } else {
        seq!["--no-attachments"@]
    };
    let p3: Seq<Seq<char>> = if tags {
        Seq::empty()
    } else {
        seq!["--no-global-tags"@, "--no-track-tags"@]
    };
    if !keep_chapters {
        lemma_occurrences_one("--no-chapters"@, x);
    }
    if !attachments {
        lemma_occurrences_one("--no-attachments"@, x);
    }
    if !tags {
        lemma_occurrences_two("--no-global-tags"@, "--no-track-tags"@, x);
    }
    lemma_occurrences_concat(p1, p2, x);
    lemma_occurrences_concat(p1 + p2, p3, x);
}

/// The occurrences of an option other than the track options and `--sync`
/// in one file's block are those in the block's extras.
proof fn lemma_block_extras_count(
    sels: Seq<TrackSelection>,
    delay_ms: Option<int>,
    extras: Seq<Seq<char>>,
    path: Seq<char>,
    x: Seq<char>,
)
    requires
        not_a_track_arg(x),
        x != "--sync"@,
        x != path,
    ensures
        occurrences(selection_args(sels) + flag_args(sels, delay_ms) + extras + seq![path], x)
            == occurrences(extras, x),
{
    lemma_selection_args_free(sels, x);
    lemma_flag_args_count(sels, delay_ms, x);
    lemma_occurrences_one(path, x);
    let sa = selection_args(sels);
    let fa = flag_args(sels, delay_ms);
    lemma_occurrences_concat(sa, fa, x);
    lemma_occurrences_concat(sa + fa, extras, x);
    lemma_occurrences_concat(sa + fa + extras, seq![path], x);
}

/// File A is the timeline reference and gets no delay: every `--sync`
/// stands in File B's block, after File A's path and before File B's, and
/// the k-th one is followed by `<id>:<delay>` of the k-th track taken from
/// File B, the delay being the negated offset (unless a path of the plan is
/// itself the text `--sync`).
pub proof fn law_sync_only_inside_file_b_block(plan: MergePlan)
    requires
        plan.file_a@ != "--sync"@,
        plan.file_b@ != "--sync"@,
        plan.output_path@ != "--sync"@,
    ensures
        ({
            let args = merge_args(plan);
            let a_end = file_a_args(plan).len() as int;
            let b_end = a_end + file_b_args(plan).len();
            &&& args[a_end - 1] == plan.file_a@
            &&& args[b_end - 1] == plan.file_b@
            &&& forall|i: int| 0 <= i < args.len() && #[trigger] args[i] == "--sync"@ ==> a_end <= i < b_end - 1
            &&& followers(args, "--sync"@) == sync_args_of(
                plan.tracks_from_b@,
                sync_delay_ms(plan.offset_ms) as int,
            )
        }),
{
    let x = "--sync"@;
    lemma_literal_args_distinct();
    lemma_merge_args_count(plan, x);
    let a = file_a_args(plan);
    let bb = file_b_args(plan);
    let o = output_args(plan);
    let args = merge_args(plan);
    lemma_no_occurrence(a, x);
    lemma_no_occurrence(o, x);
    let d = sync_delay_ms(plan.offset_ms) as int;
    let sels = plan.tracks_from_b@;
    let sb = selection_args(sels);
    let fb = flag_args(sels, Some(d));
    let eb = extras_args(plan.chapters == ChapterSource::FileB, plan.attachments_from_b, plan.tags_from_b);
    lemma_selection_args_free(sels, x);
    lemma_no_occurrence(sb, x);
    lemma_flag_args_followers(sels, d);
    lemma_extras_args_count(plan.chapters == ChapterSource::FileB, plan.attachments_from_b, plan.tags_from_b, x);
    lemma_no_occurrence(eb, x);
    lemma_single_arg(plan.file_b@, x);
    lemma_followers_concat(sb, fb, x);
    lemma_ends_clear_concat(sb, fb, x);
    lemma_followers_concat(sb + fb, eb, x);
    lemma_ends_clear_concat(sb + fb, eb, x);
    lemma_followers_concat(sb + fb + eb, seq![plan.file_b@], x);
    assert(bb == sb + fb + eb + seq![plan.file_b@]);
    assert(followers(bb, x) =~= sync_args_of(sels, d));
    lemma_followers_concat(a, bb, x);
    assert(bb.last() == plan.file_b@);
    assert((a + bb).last() == plan.file_b@);
    lemma_followers_concat(a + bb, o, x);
    assert(args == a + bb + o);
    assert(followers(args, x) =~= sync_args_of(sels, d));
    let a_end = a.len() as int;
    let b_end = a_end + bb.len();
    assert(a.last() == plan.file_a@);
    assert(args[a_end - 1] == a[a_end - 1]);
    assert(args[b_end - 1] == bb[bb.len() - 1]);
    assert forall|i: int| 0 <= i < args.len() && #[trigger] args[i] == x implies a_end <= i < b_end - 1 by {
        if i < a_end {
            assert(args[i] == a[i]);
        } else if i >= b_end {
            assert(args[i] == o[i - b_end]);
        } else if i == b_end - 1 {
            assert(args[i] == plan.file_b@);
        }
    }
}

/// Chapters, attachments and tags are dropped file by file: File A's block
/// holds `--no-chapters` once unless File A's chapters are kept,
/// `--no-attachments` once unless its attachments are kept, and the pair
/// `--no-global-tags`, `--no-track-tags` (side by side, just before the
/// path) unless its tags are kept; likewise File B's block (unless a path is
/// itself one of these options).
pub proof fn law_extras_dropped_per_file(plan: MergePlan)
    requires
        plan.file_a@ != "--no-chapters"@ && plan.file_a@ != "--no-attachments"@
            && plan.file_a@ != "--no-global-tags"@ && plan.file_a@ != "--no-track-tags"@,
        plan.file_b@ != "--no-chapters"@ && plan.file_b@ != "--no-attachments"@
            && plan.file_b@ != "--no-global-tags"@ && plan.file_b@ != "--no-track-tags"@,
    ensures
        merge_args(plan) == file_a_args(plan) + file_b_args(plan) + output_args(plan),
        file_a_args(plan).last() == plan.file_a@,
        file_b_args(plan).last() == plan.file_b@,
        occurrences(file_a_args(plan), "--no-chapters"@) == if plan.chapters == ChapterSource::FileA {
            0nat
        } else {
            1nat
        },
        occurrences(file_b_args(plan), "--no-chapters"@) == if plan.chapters == ChapterSource::FileB {
            0nat
        } else {
            1nat
        },
        occurrences(file_a_args(plan), "--no-attachments"@) == if plan.attachments_from_a {
            0nat
        } else {
            1nat
        },
        occurrences(file_b_args(plan), "--no-attachments"@) == if plan.attachments_from_b {
            0nat
        } else {
            1nat
        },
        occurrences(file_a_args(plan), "--no-global-tags"@) == if plan.tags_from_a {
            0nat
        } else {
            1nat
        },
        occurrences(file_a_args(plan), "--no-track-tags"@) == if plan.tags_from_a {
            0nat
        } else {
            1nat
        },
        occurrences(file_b_args(plan), "--no-global-tags"@) == if plan.tags_from_b {
            0nat
        } else {
            1nat
        },
        occurrences(file_b_args(plan), "--no-track-tags"@) == if plan.tags_from_b {
            0nat
        } else {
            1nat
        },
        !plan.tags_from_a ==> file_a_args(plan)[file_a_args(plan).len() - 3] == "--no-global-tags"@
            && file_a_args(plan)[file_a_args(plan).len() - 2] == "--no-track-tags"@,
        !plan.tags_from_b ==> file_b_args(plan)[file_b_args(plan).len() - 3] == "--no-global-tags"@
            && file_b_args(plan)[file_b_args(plan).len() - 2] == "--no-track-tags"@,
{
    lemma_extras_literals();
    let a = plan.tracks_from_a@;
    let b = plan.tracks_from_b@;
    let d = Some(sync_delay_ms(plan.offset_ms) as int);
    let kca = plan.chapters == ChapterSource::FileA;
    let kcb = plan.chapters == ChapterSource::FileB;
    let ea = extras_args(kca, plan.attachments_from_a, plan.tags_from_a);
    let eb = extras_args(kcb, plan.attachments_from_b, plan.tags_from_b);
    let xs = seq!["--no-chapters"@, "--no-attachments"@, "--no-global-tags"@, "--no-track-tags"@];
    assert forall|k: int| 0 <= k < 4 implies
        occurrences(file_a_args(plan), #[trigger] xs[k]) == occurrences(ea, xs[k])
        && occurrences(file_b_args(plan), xs[k]) == occurrences(eb, xs[k]) by {
        lemma_block_extras_count(a, None, ea, plan.file_a@, xs[k]);
        lemma_block_extras_count(b, d, eb, plan.file_b@, xs[k]);
    }
    assert(xs[0] == "--no-chapters"@);
    assert(xs[1] == "--no-attachments"@);
    assert(xs[2] == "--no-global-tags"@);
    assert(xs[3] == "--no-track-tags"@);
    lemma_extras_args_each(kca, plan.attachments_from_a, plan.tags_from_a, "--no-chapters"@);
    lemma_extras_args_each(kca, plan.attachments_from_a, plan.tags_from_a, "--no-attachments"@);
    lemma_extras_args_each(kca, plan.attachments_from_a, plan.tags_from_a, "--no-global-tags"@);
    lemma_extras_args_each(kca, plan.attachments_from_a, plan.tags_from_a, "--no-track-tags"@);
    lemma_extras_args_each(kcb, plan.attachments_from_b, plan.tags_from_b, "--no-chapters"@);
    lemma_extras_args_each(kcb, plan.attachments_from_b, plan.tags_from_b, "--no-attachments"@);
    lemma_extras_args_each(kcb, plan.attachments_from_b, plan.tags_from_b, "--no-global-tags"@);
    lemma_extras_args_each(kcb, plan.attachments_from_b, plan.tags_from_b, "--no-track-tags"@);
    let pa = selection_args(a) + flag_args(a, None);
    let pb = selection_args(b) + flag_args(b, d);
    assert(file_a_args(plan) == pa + ea + seq![plan.file_a@]);
    assert(file_b_args(plan) == pb + eb + seq![plan.file_b@]);
    if !plan.tags_from_a {
        let fa = file_a_args(plan);
        assert(fa[fa.len() - 3] == ea[ea.len() - 2]);
        assert(fa[fa.len() - 2] == ea[ea.len() - 1]);
    }
    if !plan.tags_from_b {
        let fb = file_b_args(plan);
        assert(fb[fb.len() - 3] == eb[eb.len() - 2]);
        assert(fb[fb.len() - 2] == eb[eb.len() - 1]);
    }
}

/// The `<id>:yes` argument of each selection whose forced flag (when
/// `forced`) or default flag (otherwise) is set, in order.
pub open spec fn flagged_yes_args(sels: Seq<TrackSelection>, forced: bool) -> Seq<Seq<char>>
    decreases sels.len(),
{
    if sels.len() == 0 {
        Seq::empty()
    } else {
        let rest = flagged_yes_args(sels.drop_last(), forced);
        let s = sels.last();
        if (if forced {
            s.set_forced
        } else {
            s.set_default
        }) {
            rest.push(decimal(s.track_id as nat) + ":yes"@)
        } else {
            rest
        }
    }
}

/// The option that sets the forced flag (when `forced`) or the default flag.
pub open spec fn track_flag_option(forced: bool) -> Seq<char> {
    if forced {
        "--forced-display-flag"@
    } else {
        "--default-track-flag"@
    }
}

proof fn lemma_flag_option_literals(forced: bool)
    ensures
        not_a_selection_arg(track_flag_option(forced)),
        track_flag_option(forced) != track_flag_option(!forced),
        track_flag_option(forced) != "--sync"@,
        track_flag_option(forced) != "--no-chapters"@,
        track_flag_option(forced) != "--no-attachments"@,
        track_flag_option(forced) != "--no-global-tags"@,
        track_flag_option(forced) != "--no-track-tags"@,
        track_flag_option(forced) != "-o"@,
        track_flag_option(forced) != "--track-order"@,
{
    reveal_strlit("--sync");
    reveal_strlit("--no-chapters");
    reveal_strlit("--video-tracks");
    reveal_strlit("--audio-tracks");
    reveal_strlit("--subtitle-tracks");
    reveal_strlit("--no-video");
    reveal_strlit("--no-audio");
    reveal_strlit("--no-subtitles");
    reveal_strlit("--default-track-flag");
    reveal_strlit("--forced-display-flag");
    reveal_strlit("--no-attachments");
    reveal_strlit("--no-global-tags");
    reveal_strlit("--no-track-tags");
    reveal_strlit("-o");
    reveal_strlit("--track-order");
    assert("--default-track-flag"@.len() == 20);
    assert("--forced-display-flag"@.len() == 21);
    assert(!is_ascii_digit("--default-track-flag"@[0]));
    assert(!is_ascii_digit("--forced-display-flag"@[0]));
}

proof fn lemma_pair_followers(a: Seq<char>, b: Seq<char>, x: Seq<char>)
    requires
        b != x,
    ensures
        followers(seq![a, b], x) == (if a == x {
            seq![b]
        } else {
            Seq::<Seq<char>>::empty()
        }),
        occurrences(seq![a, b], x) == (if a == x {
            1nat
        } else {
            0nat
        }),
        ends_clear(seq![a, b], x),
{
    lemma_occurrences_two(a, b, x);
    assert(seq![a, b].drop_last() =~= seq![a]);
    assert(followers(seq![a], x) =~= Seq::<Seq<char>>::empty());
    if a == x {
        assert(followers(seq![a, b], x) =~= seq![b]);
    } else {
        assert(followers(seq![a, b], x) =~= Seq::<Seq<char>>::empty());
    }
}

proof fn lemma_empty_args(x: Seq<char>)
    ensures
        followers(Seq::<Seq<char>>::empty(), x) == Seq::<Seq<char>>::empty(),
        occurrences(Seq::<Seq<char>>::empty(), x) == 0,
        ends_clear(Seq::<Seq<char>>::empty(), x),
{
}

/// The per-track arguments of one selection hold the flag option once when
/// the selection sets that flag, followed by the track's `<id>:yes`.
proof fn lemma_track_flag_followers(s: TrackSelection, delay_ms: Option<int>, forced: bool)
    ensures
        followers(track_flag_args(s, delay_ms), track_flag_option(forced)) == flagged_yes_args(
            seq![s],
            forced,
        ),
        occurrences(track_flag_args(s, delay_ms), track_flag_option(forced)) == flagged_yes_args(
            seq![s],
            forced,
        ).len(),
        ends_clear(track_flag_args(s, delay_ms), track_flag_option(forced)),
{
    let x = track_flag_option(forced);
    lemma_flag_option_literals(forced);
    lemma_flag_option_literals(!forced);
    lemma_decimal_starts_with_digit(s.track_id as nat);
    let y = yes_arg(s.track_id);
    assert(y[0] == decimal(s.track_id as nat)[0]);
    assert(y != x);
    let p1: Seq<Seq<char>> = if s.set_default {
        seq!["--default-track-flag"@, y]
    } else {
        Seq::empty()
    };
    let p2: Seq<Seq<char>> = if s.set_forced {
        seq!["--forced-display-flag"@, y]
    } else {
        Seq::empty()
    };
    let p3: Seq<Seq<char>> = match delay_ms {
        Some(d) => seq!["--sync"@, sync_arg(s.track_id, d)],
        None => Seq::empty(),
    };
    if s.set_default {
        lemma_pair_followers("--default-track-flag"@, y, x);
    } else {
        lemma_empty_args(x);
    }
    if s.set_forced {
        lemma_pair_followers("--forced-display-flag"@, y, x);
    } else {
        lemma_empty_args(x);
    }
    if let Some(d) = delay_ms {
        assert(sync_arg(s.track_id, d)[0] == decimal(s.track_id as nat)[0]);
        lemma_pair_followers("--sync"@, sync_arg(s.track_id, d), x);
    } else {
        lemma_empty_args(x);
    }
    lemma_followers_concat(p1, p2, x);
    lemma_ends_clear_concat(p1, p2, x);
    lemma_followers_concat(p1 + p2, p3, x);
    lemma_ends_clear_concat(p1 + p2, p3, x);
    lemma_occurrences_concat(p1, p2, x);
    lemma_occurrences_concat(p1 + p2, p3, x);
    assert(track_flag_args(s, delay_ms) == p1 + p2 + p3);
    assert(seq![s].drop_last() =~= Seq::<TrackSelection>::empty());
    assert(seq![s].last() == s);
    assert(flagged_yes_args(Seq::<TrackSelection>::empty(), forced) == Seq::<Seq<char>>::empty());
    assert(decimal(s.track_id as nat) + ":yes"@ == y);
    if forced {
        assert(x == "--forced-display-flag"@);
    } else {
        assert(x == "--default-track-flag"@);
    }
    assert(followers(track_flag_args(s, delay_ms), x) =~= flagged_yes_args(seq![s], forced));
}

proof fn lemma_flag_args_flag_followers(sels: Seq<TrackSelection>, delay_ms: Option<int>, forced: bool)
    ensures
        followers(flag_args(sels, delay_ms), track_flag_option(forced)) == flagged_yes_args(
            sels,
            forced,
        ),
        occurrences(flag_args(sels, delay_ms), track_flag_option(forced)) == flagged_yes_args(
            sels,
            forced,
        ).len(),
        ends_clear(flag_args(sels, delay_ms), track_flag_option(forced)),
    decreases sels.len(),
{
    let x = track_flag_option(forced);
    if sels.len() > 0 {
        let init = sels.drop_last();
        let s = sels.last();
        lemma_flag_args_flag_followers(init, delay_ms, forced);
        lemma_track_flag_followers(s, delay_ms, forced);
        let f = flag_args(init, delay_ms);
        let t = track_flag_args(s, delay_ms);
        lemma_followers_concat(f, t, x);
        lemma_ends_clear_concat(f, t, x);
        lemma_occurrences_concat(f, t, x);
        assert(flag_args(sels, delay_ms) == f + t);
        assert(seq![s].drop_last() =~= Seq::<TrackSelection>::empty());
        assert(flagged_yes_args(Seq::<TrackSelection>::empty(), forced) == Seq::<Seq<char>>::empty());
        assert(flagged_yes_args(sels, forced) =~= flagged_yes_args(init, forced) + flagged_yes_args(
            seq![s],
            forced,
        ));
    }
}

proof fn lemma_output_args_free(plan: MergePlan, x: Seq<char>)
    requires
        x.len() > 0,
        !is_ascii_digit(x[0]),
        x != "-o"@,
        x != "--track-order"@,
        x != plan.output_path@,
    ensures
        occurrences(output_args(plan), x) == 0,
{
    let a = plan.tracks_from_a@;
    let b = plan.tracks_from_b@;
    let parts = order_parts(a, '0') + order_parts(b, '1');
    let order = join(parts, seq![',']);
    if parts.len() > 0 {
        lemma_order_parts_start_with_digit(a, '0');
        lemma_order_parts_start_with_digit(b, '1');
        assert forall|i: int| 0 <= i < parts.len() implies #[trigger] parts[i].len() > 0 && is_ascii_digit(parts[i][0]) by {
            if i < order_parts(a, '0').len() {
                assert(parts[i] == order_parts(a, '0')[i]);
            } else {
                assert(parts[i] == order_parts(b, '1')[i - order_parts(a, '0').len()]);
            }
        }
        lemma_join_starts_with_digit(parts);
    } else {
        assert(order.len() == 0);
    }
    let out = output_args(plan);
    assert(out =~= seq!["-o"@, plan.output_path@] + seq!["--track-order"@, order]);
    lemma_occurrences_two("-o"@, plan.output_path@, x);
    lemma_occurrences_two("--track-order"@, order, x);
    lemma_occurrences_concat(seq!["-o"@, plan.output_path@], seq!["--track-order"@, order], x);
}

/// One file's block, for the flag options: what follows them, how often
/// they occur, and that the block does not end in one.
proof fn lemma_block_flag_followers(
    sels: Seq<TrackSelection>,
    delay_ms: Option<int>,
    extras: Seq<Seq<char>>,
    path: Seq<char>,
    forced: bool,
)
    requires
        occurrences(extras, track_flag_option(forced)) == 0,
        path != track_flag_option(forced),
    ensures
        followers(selection_args(sels) + flag_args(sels, delay_ms) + extras + seq![path], track_flag_option(forced))
            == flagged_yes_args(sels, forced),
        occurrences(selection_args(sels) + flag_args(sels, delay_ms) + extras + seq![path], track_flag_option(forced))
            == flagged_yes_args(sels, forced).len(),
        ends_clear(selection_args(sels) + flag_args(sels, delay_ms) + extras + seq![path], track_flag_option(forced)),
{
    let x = track_flag_option(forced);
    lemma_flag_option_literals(forced);
    let sa = selection_args(sels);
    let fa = flag_args(sels, delay_ms);
    lemma_selection_args_free(sels, x);
    lemma_no_occurrence(sa, x);
    lemma_flag_args_flag_followers(sels, delay_ms, forced);
    lemma_no_occurrence(extras, x);
    lemma_single_arg(path, x);
    lemma_followers_concat(sa, fa, x);
    lemma_ends_clear_concat(sa, fa, x);
    lemma_occurrences_concat(sa, fa, x);
    lemma_followers_concat(sa + fa, extras, x);
    lemma_ends_clear_concat(sa + fa, extras, x);
    lemma_occurrences_concat(sa + fa, extras, x);
    lemma_followers_concat(sa + fa + extras, seq![path], x);
    lemma_ends_clear_concat(sa + fa + extras, seq![path], x);
    lemma_occurrences_concat(sa + fa + extras, seq![path], x);
    assert(followers(sa + fa + extras + seq![path], x) =~= flagged_yes_args(sels, forced));
}

/// Each chosen track's default and forced flags reach the command
/// independently: `--default-track-flag` occurs once per selection that sets
/// the default flag and `--forced-display-flag` once per selection that sets
/// the forced flag (File A's, then File B's, in order), each followed by that
/// track's `<id>:yes` (unless a path of the plan is itself one of these
/// options).
pub proof fn law_track_flags_follow_selections(plan: MergePlan, forced: bool)
    requires
        plan.file_a@ != "--default-track-flag"@ && plan.file_a@ != "--forced-display-flag"@,
        plan.file_b@ != "--default-track-flag"@ && plan.file_b@ != "--forced-display-flag"@,
        plan.output_path@ != "--default-track-flag"@ && plan.output_path@ != "--forced-display-flag"@,
    ensures
        followers(merge_args(plan), track_flag_option(forced)) == flagged_yes_args(
            plan.tracks_from_a@,
            forced,
        ) + flagged_yes_args(plan.tracks_from_b@, forced),
        occurrences(merge_args(plan), track_flag_option(forced)) == flagged_yes_args(
            plan.tracks_from_a@,
            forced,
        ).len() + flagged_yes_args(plan.tracks_from_b@, forced).len(),
{
    let x = track_flag_option(forced);
    lemma_flag_option_literals(forced);
    lemma_extras_literals();
    let kca = plan.chapters == ChapterSource::FileA;
    let kcb = plan.chapters == ChapterSource::FileB;
    let ea = extras_args(kca, plan.attachments_from_a, plan.tags_from_a);
    let eb = extras_args(kcb, plan.attachments_from_b, plan.tags_from_b);
    lemma_extras_args_each(kca, plan.attachments_from_a, plan.tags_from_a, x);
    lemma_extras_args_each(kcb, plan.attachments_from_b, plan.tags_from_b, x);
    let d = Some(sync_delay_ms(plan.offset_ms) as int);
    lemma_block_flag_followers(plan.tracks_from_a@, None, ea, plan.file_a@, forced);
    lemma_block_flag_followers(plan.tracks_from_b@, d, eb, plan.file_b@, forced);
    let a = file_a_args(plan);
    let bb = file_b_args(plan);
    let o = output_args(plan);
    assert(a == selection_args(plan.tracks_from_a@) + flag_args(plan.tracks_from_a@, None) + ea + seq![plan.file_a@]);
    assert(bb == selection_args(plan.tracks_from_b@) + flag_args(plan.tracks_from_b@, d) + eb + seq![plan.file_b@]);
    lemma_output_args_free(plan, x);
    lemma_no_occurrence(o, x);
    lemma_followers_concat(a, bb, x);
    lemma_ends_clear_concat(a, bb, x);
    lemma_occurrences_concat(a, bb, x);
    lemma_followers_concat(a + bb, o, x);
    lemma_occurrences_concat(a + bb, o, x);
    assert(merge_args(plan) == a + bb + o);
    assert(followers(merge_args(plan), x) =~= flagged_yes_args(plan.tracks_from_a@, forced)
        + flagged_yes_args(plan.tracks_from_b@, forced));
}

/// The arguments mkvmerge runs with: GUI mode (machine-readable progress
/// lines) first, then the command.
pub fn gui_mode_args(args: &[String]) -> (full: Vec<String>)
    ensures
        strings_view(full@) == seq!["--gui-mode"@] + strings_view(args@),
{
    let mut full: Vec<String> = Vec::new();
    push_str_arg(&mut full, "--gui-mode");
    let n: usize = args.len();
    let mut i: usize = 0;
    while i < n
        invariant
            n == args@.len(),
            i <= n,
            strings_view(full@) == seq!["--gui-mode"@] + strings_view(args@.take(i as int)),
        decreases n - i,
    {
        push_string_arg(&mut full, &args[i]);
        assert(strings_view(args@.take(i + 1)) =~= strings_view(args@.take(i as int)).push(
            args@[i as int]@,
        ));
        i = i + 1;
    }
    assert(args@.take(n as int) =~= args@);
    full
}

/// Whether mkvmerge's exit status means the merge completed: 0 is success
/// and 1 success with warnings; any other status, or none (killed by a
/// signal), is a failure.
pub fn mux_exit_ok(code: Option<i32>) -> (ok: bool)
    ensures
        ok == (code == Some(0i32) || code == Some(1i32)),
{
    match code {
        Some(0) | Some(1) => true,
        _ => false,
    }
}

} // verus!
