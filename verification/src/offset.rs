//! The integer side of offset detection: decoding sample words, sizing the
//! correlation, and turning the correlation peak into a lag.
use vstd::prelude::*;
use crate::text::{decimal, push_decimal, string_from_chars, strings_view};

verus! {

/// `n` is a power of two (1, 2, 4, ...).
pub open spec fn is_power_of_two(n: nat) -> bool
    decreases n,
{
    if n == 1 {
        true
    } else if n >= 2 && n % 2 == 0 {
        is_power_of_two(n / 2)
    } else {
        false
    }
}

/// The little-endian 32-bit word of four bytes.
pub open spec fn le_word(b0: u8, b1: u8, b2: u8, b3: u8) -> u32 {
    (b0 as nat + 256 * b1 as nat + 65536 * b2 as nat + 16777216 * b3 as nat) as u32
}

/// Splits raw PCM output into little-endian 32-bit words, one per sample;
/// a trailing partial sample is dropped. (Each word is the bit pattern of
/// an `f32` sample.)
pub fn le_words(bytes: &[u8]) -> (words: Vec<u32>)
    ensures
        words@.len() == bytes@.len() / 4,
        forall|i: int|
            0 <= i < words@.len() ==> #[trigger] words@[i] == le_word(
                bytes@[4 * i],
                bytes@[4 * i + 1],
                bytes@[4 * i + 2],
                bytes@[4 * i + 3],
            ),
{
    let len: usize = bytes.len();
    let n: usize = len / 4;
    let mut words: Vec<u32> = Vec::new();
    let mut i: usize = 0;
    while i < n
        invariant
            len == bytes@.len(),
            n == bytes@.len() / 4,
            i <= n,
            words@.len() == i,
            forall|k: int|
                0 <= k < i ==> #[trigger] words@[k] == le_word(
                    bytes@[4 * k],
                    bytes@[4 * k + 1],
                    bytes@[4 * k + 2],
                    bytes@[4 * k + 3],
                ),
        decreases n - i,
    {
        assert(4 * i + 3 < bytes@.len()) by (nonlinear_arith)
            requires
                i < n,
                n == bytes@.len() / 4,
        ;
        let j: usize = 4 * i;
        let w: u32 = (bytes[j] as u32) + 256 * (bytes[j + 1] as u32) + 65536 * (bytes[j + 2] as u32)
            + 16777216 * (bytes[j + 3] as u32);
        words.push(w);
        i = i + 1;
    }
    words
}

proof fn lemma_double_power_of_two(n: nat)
    requires
        is_power_of_two(n),
    ensures
        is_power_of_two(2 * n),
{
    assert((2 * n) / 2 == n);
    assert((2 * n) % 2 == 0);
    assert(n >= 1) by {
        if n == 0 {
            assert(!is_power_of_two(0));
        }
    }
}

/// The length both signals are zero-padded to before the transform: the
/// least power of two that holds both of them end to end.
pub fn correlation_len(a_len: usize, b_len: usize) -> (n: usize)
    requires
        a_len + b_len <= usize::MAX / 2 + 1,
    ensures
        is_power_of_two(n as nat),
        n >= a_len + b_len,
        n == 1 || n / 2 < a_len + b_len,
{
    let total: usize = a_len + b_len;
    let mut n: usize = 1;
    while n < total
        invariant
            total == a_len + b_len,
            total <= usize::MAX / 2 + 1,
            is_power_of_two(n as nat),
            n == 1 || n / 2 < total,
        decreases usize::MAX - n,
    {
        proof {
            lemma_double_power_of_two(n as nat);
        }
        n = 2 * n;
    }
    n
}

/// The lag, in samples, of a peak at index `peak` of a circular correlation
/// of length `n`: indices past the middle stand for negative lags.
pub open spec fn lag_of(peak: int, n: int) -> int {
    if peak > n / 2 {
        peak - n
    } else {
        peak
    }
}

/// The lag, in samples, of the correlation peak at index `peak`.
pub fn peak_lag(peak: usize, n: usize) -> (lag: i64)
    requires
        peak < n,
        n <= i64::MAX,
    ensures
        lag == lag_of(peak as int, n as int),
        -(n as int) / 2 <= lag <= n as int / 2,
{
    if peak > n / 2 {
        (peak as i64) - (n as i64)
    } else {
        peak as i64
    }
}

/// The rate, in Hz, that audio is resampled to for offset detection.
pub const SAMPLE_RATE_HZ: u32 = 16000;

/// The ffmpeg arguments that extract one window of a track as mono 32-bit
/// float PCM at the detection sample rate on stdout. `start` and `duration`
/// are the window's bounds in seconds, as text.
pub open spec fn extract_window_args_of(
    path: Seq<char>,
    track_id: u64,
    start: Seq<char>,
    duration: Seq<char>,
) -> Seq<Seq<char>> {
    seq![
        "-v"@, "error"@, "-ss"@, start, "-t"@, duration, "-i"@, path, "-map"@,
        seq!['0', ':'] + decimal(track_id as nat), "-vn"@, "-ac"@, "1"@, "-ar"@,
        decimal(SAMPLE_RATE_HZ as nat), "-f"@, "f32le"@, "-"@,
    ]
}

fn push_owned(args: &mut Vec<String>, s: &str)
    ensures
        strings_view(final(args)@) == strings_view(old(args)@).push(s@),
{
    args.push(s.to_owned());
    assert(strings_view(args@) =~= strings_view(old(args)@).push(s@));
}

fn push_chars(args: &mut Vec<String>, v: &Vec<char>)
    ensures
        strings_view(final(args)@) == strings_view(old(args)@).push(v@),
{
    args.push(string_from_chars(v.as_slice()));
    assert(strings_view(args@) =~= strings_view(old(args)@).push(v@));
}

/// The ffmpeg arguments that extract one window of a track.
pub fn extract_window_args(path: &str, track_id: u64, start: &str, duration: &str) -> (args: Vec<String>)
    ensures
        strings_view(args@) == extract_window_args_of(path@, track_id, start@, duration@),
{
    let mut args: Vec<String> = Vec::new();
    push_owned(&mut args, "-v");
    push_owned(&mut args, "error");
    push_owned(&mut args, "-ss");
    push_owned(&mut args, start);
    push_owned(&mut args, "-t");
    push_owned(&mut args, duration);
    push_owned(&mut args, "-i");
    push_owned(&mut args, path);
    push_owned(&mut args, "-map");
    let mut map: Vec<char> = Vec::new();
    map.push('0');
    map.push(':');
    push_decimal(&mut map, track_id);
    assert(map@ =~= seq!['0', ':'] + decimal(track_id as nat));
    push_chars(&mut args, &map);
    push_owned(&mut args, "-vn");
    push_owned(&mut args, "-ac");
    push_owned(&mut args, "1");
    push_owned(&mut args, "-ar");
    let mut rate: Vec<char> = Vec::new();
    push_decimal(&mut rate, SAMPLE_RATE_HZ as u64);
    assert(rate@ =~= decimal(SAMPLE_RATE_HZ as nat));
    push_chars(&mut args, &rate);
    push_owned(&mut args, "-f");
    push_owned(&mut args, "f32le");
    push_owned(&mut args, "-");
    assert(strings_view(args@) =~= extract_window_args_of(path@, track_id, start@, duration@));
    args
}

} // verus!
