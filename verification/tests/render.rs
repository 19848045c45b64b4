use subsearch::subtitle::{Subtitle, SubtitleItem};
use subsearch::timecode::time_format;

fn cue(start_ms: u64, end_ms: u64, text: &str) -> SubtitleItem {
    SubtitleItem { start_ms, end_ms, content: text.to_string() }
}

#[test]
fn time_codec_round_trip() {
    let seconds: f32 = 3725.125;
    let ms = (seconds * 1000.0) as u64;
    assert_eq!(time_format(ms, "."), "01:02:05.125");
    let zero: f32 = 0.0;
    assert_eq!(time_format((zero * 1000.0) as u64, ","), "00:00:00,000");
}

#[test]
fn time_format_pads_each_part() {
    assert_eq!(time_format(59_999, "."), "00:00:59.999");
    assert_eq!(time_format(60_000, ","), "00:01:00,000");
    assert_eq!(time_format(3_599_001, "."), "00:59:59.001");
    assert_eq!(time_format(3_600_000, "."), "01:00:00.000");
}

#[test]
fn time_format_does_not_wrap_past_a_day() {
    assert_eq!(time_format(90_000_000, "."), "25:00:00.000");
    assert_eq!(time_format(360_000_000, ","), "100:00:00,000");
}

#[test]
fn vtt_rendering() {
    let sub = Subtitle { items: vec![cue(0, 1000, "Hello world."), cue(1500, 2250, "Bye.")] };
    let expected = "WEBVTT\n\n\
                    00:00:00.000 --> 00:00:01.000\nHello world.\n\n\
                    00:00:01.500 --> 00:00:02.250\nBye.\n\n";
    assert_eq!(sub.vtt(), expected);
}

#[test]
fn srt_rendering() {
    let sub = Subtitle { items: vec![cue(0, 1000, "Hello world."), cue(1500, 2250, "Bye.")] };
    let expected = "1\n00:00:00,000 --> 00:00:01,000\nHello world.\n\n\
                    2\n00:00:01,500 --> 00:00:02,250\nBye.\n\n";
    assert_eq!(sub.srt(), expected);
}

#[test]
fn index_body_rendering() {
    let sub = Subtitle { items: vec![cue(0, 1000, "Hello world."), cue(1500, 2250, "Bye.")] };
    assert_eq!(sub.index_body(), "00:00:00.000 Hello world.\n00:00:01.500 Bye.\n");
}

#[test]
fn renderer_equivalence() {
    let sub = Subtitle {
        items: vec![
            cue(0, 1000, "First cue."),
            cue(1200, 2000, "Second cue?"),
            cue(2500, 3000, "Third"),
        ],
    };
    let srt = sub.srt();
    let vtt = sub.vtt();
    assert_eq!(srt.matches(" --> ").count(), 3);
    assert_eq!(vtt.matches(" --> ").count(), 3);
    assert!(vtt.starts_with("WEBVTT\n\n"));
    assert!(!srt.starts_with("WEBVTT"));
    let srt_texts: Vec<&str> =
        srt.lines().filter(|l| !l.is_empty() && !l.contains(" --> ") && l.parse::<u32>().is_err()).collect();
    let vtt_texts: Vec<&str> =
        vtt.lines().filter(|l| !l.is_empty() && !l.contains(" --> ") && *l != "WEBVTT").collect();
    assert_eq!(srt_texts, vec!["First cue.", "Second cue?", "Third"]);
    assert_eq!(vtt_texts, vec!["First cue.", "Second cue?", "Third"]);
}

#[test]
fn empty_subtitle_renders_bare() {
    let sub = Subtitle { items: vec![] };
    assert_eq!(sub.vtt(), "WEBVTT\n\n");
    assert_eq!(sub.srt(), "");
    assert_eq!(sub.index_body(), "");
}
