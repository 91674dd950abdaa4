use mediamerger::offset::{correlation_len, extract_window_args, le_words, peak_lag};
use mediamerger::theme::hex_to_rgb;

#[test]
fn decodes_little_endian_f32_samples() {
    let mut bytes = Vec::new();
    bytes.extend_from_slice(&1.0f32.to_le_bytes());
    bytes.extend_from_slice(&(-0.5f32).to_le_bytes());
    bytes.extend_from_slice(&0.25f32.to_le_bytes());

    let samples: Vec<f32> = le_words(&bytes).into_iter().map(f32::from_bits).collect();

    assert_eq!(samples, vec![1.0, -0.5, 0.25]);
}

#[test]
fn drops_trailing_partial_sample() {
    let mut bytes = Vec::new();
    bytes.extend_from_slice(&1.0f32.to_le_bytes());
    bytes.push(0); // 1 stray byte, not a full f32

    let samples: Vec<f32> = le_words(&bytes).into_iter().map(f32::from_bits).collect();

    assert_eq!(samples, vec![1.0]);
}

#[test]
fn correlation_length_is_next_power_of_two() {
    assert_eq!(correlation_len(0, 0), 1);
    assert_eq!(correlation_len(1, 0), 1);
    assert_eq!(correlation_len(1000, 1137), 4096);
    assert_eq!(correlation_len(1024, 1024), 2048);
    assert_eq!(correlation_len(1024, 1025), 4096);
}

#[test]
fn peaks_past_the_middle_are_negative_lags() {
    assert_eq!(peak_lag(0, 4096), 0);
    assert_eq!(peak_lag(137, 4096), 137);
    assert_eq!(peak_lag(2048, 4096), 2048);
    assert_eq!(peak_lag(2049, 4096), -2047);
    assert_eq!(peak_lag(4095, 4096), -1);
}

#[test]
fn window_extraction_asks_ffmpeg_for_mono_float_pcm() {
    let args = extract_window_args("in.mkv", 2, "12.5", "180");
    let expected: Vec<String> = [
        "-v", "error", "-ss", "12.5", "-t", "180", "-i", "in.mkv", "-map", "0:2", "-vn", "-ac", "1", "-ar", "16000",
        "-f", "f32le", "-",
    ]
    .iter()
    .map(|s| s.to_string())
    .collect();
    assert_eq!(args, expected);
}

#[test]
fn hex_colours_read_as_bytes() {
    assert_eq!(hex_to_rgb("#3584e4"), (0x35, 0x84, 0xe4));
    assert_eq!(hex_to_rgb("#9141ac"), (0x91, 0x41, 0xac));
    assert_eq!(hex_to_rgb("FFFFFF"), (255, 255, 255));
    assert_eq!(hex_to_rgb("##000000"), (0, 0, 0));
}

#[test]
fn short_hex_colours_double_each_digit() {
    assert_eq!(hex_to_rgb("#abc"), (0xaa, 0xbb, 0xcc));
    assert_eq!(hex_to_rgb("#abc"), hex_to_rgb("#aabbcc"));
}

#[test]
fn unreadable_colours_fall_back_to_adwaita_blue() {
    assert_eq!(hex_to_rgb("#zzzzzz"), (0x35, 0x84, 0xe4));
    assert_eq!(hex_to_rgb(""), (0x35, 0x84, 0xe4));
    assert_eq!(hex_to_rgb("#"), (0x35, 0x84, 0xe4));
    assert_eq!(hex_to_rgb("#1ffffffff"), (0x35, 0x84, 0xe4));
    assert_eq!(hex_to_rgb("+ff"), (0x35, 0x84, 0xe4));
    assert_eq!(hex_to_rgb("+0000ff"), (0, 0, 0xff));
}

#[test]
fn formatted_colours_read_back_as_their_bytes() {
    for &(r, g, b) in &[(0u8, 0u8, 0u8), (255, 255, 255), (0x35, 0x84, 0xe4), (1, 128, 254), (0x0a, 0xf0, 0x7f)] {
        assert_eq!(hex_to_rgb(&format!("#{r:02x}{g:02x}{b:02x}")), (r, g, b));
        assert_eq!(hex_to_rgb(&format!("{r:02x}{g:02x}{b:02x}")), (r, g, b));
    }
    assert_eq!(hex_to_rgb("zzz"), (0x35, 0x84, 0xe4));
}
