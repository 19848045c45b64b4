use subsearch::ingest::{
    is_supported_video_ext,
    parse_seconds_ms,
    parse_video_filename,
    url_decode,
};

#[test]
fn decode_test() {
    let input = "Jamie's+Quick+&+Easy+Egg+Fried+Rice+_+Jamie+Oliver";
    let expected_output = "Jamie's Quick & Easy Egg Fried Rice _ Jamie Oliver";
    let output = url_decode(input);

    assert_eq!(output.as_str(), expected_output);
}

#[test]
fn decode_test2() {
    let input = "s3://video-search-drskur/video/Jamie%27s+Quick+%26+Easy+Egg+Fried+Rice+_+Jamie+Oliver.en-GB.mp4";
    let expected = "s3://video-search-drskur/video/Jamie's Quick & Easy Egg Fried Rice _ Jamie Oliver.en-GB.mp4";
    let output = url_decode(input);

    assert_eq!(output.as_str(), expected);
}

#[test]
fn parse_seconds_exact() {
    assert_eq!(parse_seconds_ms("12.34"), Some(12_340));
    assert_eq!(parse_seconds_ms("3725.125"), Some(3_725_125));
    assert_eq!(parse_seconds_ms("0"), Some(0));
    assert_eq!(parse_seconds_ms("7"), Some(7_000));
}

#[test]
fn parse_seconds_fraction_forms() {
    assert_eq!(parse_seconds_ms(".5"), Some(500));
    assert_eq!(parse_seconds_ms("12."), Some(12_000));
    assert_eq!(parse_seconds_ms("1.23456"), Some(1_234));
    assert_eq!(parse_seconds_ms("0.001"), Some(1));
}

#[test]
fn parse_seconds_rejects_malformed() {
    assert_eq!(parse_seconds_ms(""), None);
    assert_eq!(parse_seconds_ms("."), None);
    assert_eq!(parse_seconds_ms("1e3"), None);
    assert_eq!(parse_seconds_ms("-1"), None);
    assert_eq!(parse_seconds_ms("+1"), None);
    assert_eq!(parse_seconds_ms("1.2.3"), None);
    assert_eq!(parse_seconds_ms("12a"), None);
}

#[test]
fn parse_seconds_rejects_overflow() {
    assert_eq!(parse_seconds_ms("99999999999999999999999"), None);
    assert_eq!(parse_seconds_ms("18446744073709551615"), None);
    assert_eq!(parse_seconds_ms("18446744073709551.615"), Some(u64::MAX));
}

#[test]
fn video_filename_title_and_lang() {
    assert_eq!(
        parse_video_filename("My Movie.en-GB"),
        Some(("My Movie".to_string(), "en-GB".to_string()))
    );
    assert_eq!(parse_video_filename("a.b.c"), Some(("a".to_string(), "b".to_string())));
    assert_eq!(parse_video_filename("noext"), None);
}

#[test]
fn supported_video_extensions() {
    assert!(is_supported_video_ext("mp4"));
    assert!(is_supported_video_ext("MOV"));
    assert!(is_supported_video_ext("Mp4"));
    assert!(is_supported_video_ext("mov"));
    assert!(!is_supported_video_ext("avi"));
    assert!(!is_supported_video_ext("mp"));
    assert!(!is_supported_video_ext("mp41"));
}
