use subsearch::subtitle::{Subtitle, TokenKind, TranscriptToken};

fn word(text: &str, start_ms: u64, end_ms: u64) -> TranscriptToken {
    TranscriptToken {
        kind: TokenKind::Pronunciation,
        content: text.to_string(),
        start_ms: Some(start_ms),
        end_ms: Some(end_ms),
    }
}

fn punct(text: &str) -> TranscriptToken {
    TranscriptToken {
        kind: TokenKind::Punctuation,
        content: text.to_string(),
        start_ms: None,
        end_ms: None,
    }
}

#[test]
fn terminator_boundary() {
    let tokens = vec![word("Hello", 0, 500), word("world", 500, 1000), word(".", 1000, 1000)];
    let sub = Subtitle::segment(&tokens);
    assert_eq!(sub.items.len(), 1);
    assert_eq!(sub.items[0].content, "Hello world.");
    assert_eq!(sub.items[0].start_ms, 0);
    assert_eq!(sub.items[0].end_ms, 1000);
}

#[test]
fn trailing_incomplete_cue() {
    let tokens = vec![word("Hello", 100, 500), word("world", 500, 1000)];
    let sub = Subtitle::segment(&tokens);
    assert_eq!(sub.items.len(), 1);
    assert_eq!(sub.items[0].content, "Hello world");
    assert_eq!(sub.items[0].start_ms, 100);
    assert_eq!(sub.items[0].end_ms, 1000);
}

#[test]
fn segmentation_deterministic() {
    let make = || {
        vec![word("One", 0, 300), punct("."), word("Two", 400, 700), word("three", 700, 900)]
    };
    let a = Subtitle::segment(&make());
    let b = Subtitle::segment(&make());
    assert_eq!(a.items.len(), b.items.len());
    for (x, y) in a.items.iter().zip(b.items.iter()) {
        assert_eq!(x.content, y.content);
        assert_eq!(x.start_ms, y.start_ms);
        assert_eq!(x.end_ms, y.end_ms);
    }
}

#[test]
fn empty_token_stream() {
    let tokens: Vec<TranscriptToken> = vec![];
    let sub = Subtitle::segment(&tokens);
    assert_eq!(sub.items.len(), 0);
}

#[test]
fn question_mark_terminates() {
    let tokens = vec![word("Ready", 0, 400), punct("?"), word("Go", 600, 800), punct(".")];
    let sub = Subtitle::segment(&tokens);
    assert_eq!(sub.items.len(), 2);
    assert_eq!(sub.items[0].content, "Ready?");
    assert_eq!(sub.items[0].start_ms, 0);
    assert_eq!(sub.items[0].end_ms, 400);
    assert_eq!(sub.items[1].content, "Go.");
    assert_eq!(sub.items[1].start_ms, 600);
    assert_eq!(sub.items[1].end_ms, 800);
}

#[test]
fn exclamation_does_not_terminate() {
    let tokens = vec![word("Wow", 0, 300), punct("!")];
    let sub = Subtitle::segment(&tokens);
    assert_eq!(sub.items.len(), 1);
    assert_eq!(sub.items[0].content, "Wow !");
}

#[test]
fn untimed_punctuation_keeps_end_time() {
    let tokens = vec![word("Sure", 0, 250), punct(","), word("go", 300, 500), punct(".")];
    let sub = Subtitle::segment(&tokens);
    assert_eq!(sub.items.len(), 1);
    assert_eq!(sub.items[0].content, "Sure , go.");
    assert_eq!(sub.items[0].end_ms, 500);
}

#[test]
fn cue_starting_at_zero_is_kept() {
    let tokens = vec![word("Zero", 0, 200), punct("."), word("Next", 300, 600), punct(".")];
    let sub = Subtitle::segment(&tokens);
    assert_eq!(sub.items.len(), 2);
    assert_eq!(sub.items[0].content, "Zero.");
    assert_eq!(sub.items[0].start_ms, 0);
}

#[test]
fn apply_translations_preserves_timing() {
    let tokens = vec![word("Hello", 0, 500), punct("."), word("Bye", 600, 900), punct(".")];
    let mut sub = Subtitle::segment(&tokens);
    let texts = vec!["Bonjour.".to_string(), "Au revoir.".to_string()];
    sub.apply_translations(&texts);
    assert_eq!(sub.items.len(), 2);
    assert_eq!(sub.items[0].content, "Bonjour.");
    assert_eq!(sub.items[0].start_ms, 0);
    assert_eq!(sub.items[0].end_ms, 500);
    assert_eq!(sub.items[1].content, "Au revoir.");
    assert_eq!(sub.items[1].start_ms, 600);
    assert_eq!(sub.items[1].end_ms, 900);
}
