use subsearch::store::{
    add_language,
    content_url,
    content_url_opt,
    primary_language,
    second_format,
    IndexTemplate,
    VideoItem,
};
use subsearch::subtitle::SubtitleQueueMessage;

#[test]
fn add_language_appends_new() {
    let langs = vec!["en".to_string()];
    assert_eq!(add_language(langs, "ko"), vec!["en".to_string(), "ko".to_string()]);
}

#[test]
fn add_language_is_idempotent_on_repeat() {
    let langs = vec!["en".to_string(), "ko".to_string()];
    assert_eq!(add_language(langs, "ko"), vec!["en".to_string(), "ko".to_string()]);
}

#[test]
fn add_language_dedups_keeping_first_occurrence() {
    let langs = vec!["ko".to_string(), "en".to_string(), "ko".to_string()];
    assert_eq!(add_language(langs, "en"), vec!["ko".to_string(), "en".to_string()]);
}

#[test]
fn add_language_on_empty() {
    let langs: Vec<String> = vec![];
    assert_eq!(add_language(langs, "en"), vec!["en".to_string()]);
}

#[test]
fn second_format_cases() {
    assert_eq!(second_format(0), "");
    assert_eq!(second_format(65), "1:05");
    assert_eq!(second_format(600), "10:00");
    assert_eq!(second_format(59), "0:59");
    assert_eq!(second_format(3725), "62:05");
}

#[test]
fn content_urls() {
    assert_eq!(content_url("cdn.example.com", "thumbnail/a.jpg"), "//cdn.example.com/thumbnail/a.jpg");
    assert_eq!(
        content_url_opt("cdn.example.com", &Some("v.mp4".to_string())),
        "//cdn.example.com/v.mp4"
    );
    assert_eq!(content_url_opt("cdn.example.com", &None), "");
}

#[test]
fn primary_language_prefix() {
    assert_eq!(primary_language("en-GB"), "en");
    assert_eq!(primary_language("ko"), "ko");
    assert_eq!(primary_language("zh-Hant-TW"), "zh");
}

#[test]
fn subtitle_queue_message_new() {
    let m = SubtitleQueueMessage::new("vid-1", "en", Some("ko"));
    assert_eq!(m.video_id, "vid-1");
    assert_eq!(m.content_language, "en");
    assert_eq!(m.translate_language, Some("ko".to_string()));
    let m2 = SubtitleQueueMessage::new("vid-2", "ko", None);
    assert_eq!(m2.translate_language, None);
}

#[test]
fn index_template_keeps_videos() {
    let v = VideoItem {
        id: "a".to_string(),
        title: "T".to_string(),
        lang: "en-GB".to_string(),
        subtitles: vec!["en".to_string()],
        video_key: "video/t.mp4".to_string(),
        thumbnail_key: None,
    };
    let t = IndexTemplate::new(vec![v]);
    assert_eq!(t.videos.len(), 1);
    assert_eq!(t.videos[0].id, "a");
}
