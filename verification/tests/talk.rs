//! The conversation, streamed replies and what is said of them.
use voicebox::chat::{
    cleared_text, exchange_count, is_blank, reply_settled, system_message, upload_body,
    upload_content_type, ChatMessage, Conversation, TurnEnd, SYSTEM_PROMPT,
};
use voicebox::reply::{Delta, Progress, ReplyStream};
use voicebox::speech::speakable;

fn message(role: &str, content: &str) -> ChatMessage {
    ChatMessage { role: role.to_string(), content: content.to_string() }
}

fn contents(c: &Conversation) -> Vec<(&str, &str)> {
    c.messages.iter().map(|m| (m.role.as_str(), m.content.as_str())).collect()
}

// ---------- Conversation ----------

#[test]
fn system_prompt_comes_first() {
    let m = system_message();
    assert_eq!(m.role, "system");
    assert_eq!(m.content, SYSTEM_PROMPT);
    assert!(m.content.starts_with("You are a voice assistant built into a small handheld speaker"));
    assert!(m.content.ends_with("a real ceiling, not a style note."));
    assert_eq!(m.clone().content, m.content);
}

#[test]
fn exchanges_are_rounded_up() {
    let history: Vec<ChatMessage> = (0..6).map(|_| message("user", "x")).collect();
    let counts: Vec<usize> = (0..=6).map(|n| exchange_count(&history[..n])).collect();
    assert_eq!(counts, [0, 0, 1, 1, 2, 2, 3]);
}

#[test]
fn blank_texts() {
    assert!(is_blank(""));
    assert!(is_blank(" \t\n\u{3000}"));
    assert!(!is_blank(" x "));
}

#[test]
fn turn_that_is_answered() {
    let mut c = Conversation::new();
    assert_eq!(c.exchanges(), 0);
    assert!(c.ask(Some("why?".to_string())));
    assert_eq!(c.exchanges(), 1);
    assert_eq!(c.end_turn("because".to_string(), false, true), TurnEnd::Kept);
    assert_eq!(
        contents(&c)[1..],
        [("user", "why?"), ("assistant", "because")]
    );
    assert_eq!(c.exchanges(), 1);
}

#[test]
fn turn_that_is_cancelled() {
    let mut c = Conversation::new();
    c.ask(Some("first".to_string()));
    c.end_turn("answer".to_string(), false, true);
    let before: Vec<String> = c.messages.iter().map(|m| m.content.clone()).collect();
    c.ask(Some("second".to_string()));
    assert_eq!(c.end_turn(" ".to_string(), true, true), TurnEnd::Dropped);
    let after: Vec<String> = c.messages.iter().map(|m| m.content.clone()).collect();
    assert_eq!(before, after);
    c.ask(Some("third".to_string()));
    assert_eq!(c.end_turn("half an".to_string(), true, false), TurnEnd::Kept);
    assert_eq!(c.messages.len(), 5);
    assert_eq!(c.messages[0].content, SYSTEM_PROMPT);
}

#[test]
fn turn_without_response() {
    let mut c = Conversation::new();
    c.ask(Some("anyone?".to_string()));
    assert_eq!(c.end_turn(String::new(), false, true), TurnEnd::NoResponse);
    assert_eq!(c.end_turn("ghost".to_string(), false, false), TurnEnd::NoResponse);
    assert_eq!(c.messages.len(), 2);
    assert_eq!(c.exchanges(), 1);
}

#[test]
fn blank_transcripts_are_not_asked() {
    let mut c = Conversation::new();
    assert!(!c.ask(None));
    assert!(!c.ask(Some(" \n".to_string())));
    assert_eq!(c.messages.len(), 1);
}

#[test]
fn idling_forgets() {
    let mut c = Conversation::new();
    c.ask(Some("q".to_string()));
    for _ in 0..5 {
        assert!(!c.on_idle());
    }
    assert_eq!(c.messages.len(), 2);
    assert!(c.on_idle());
    assert_eq!(contents(&c), [("system", SYSTEM_PROMPT)]);
    assert!(!c.on_idle());
    assert_eq!(c.idle_secs, 140);
    c.on_turn();
    assert_eq!(c.idle_secs, 0);
}

#[test]
fn button_clears() {
    let mut c = Conversation::new();
    assert_eq!(c.clear(), 0);
    c.ask(Some("q".to_string()));
    c.end_turn("a".to_string(), false, true);
    c.ask(Some("q".to_string()));
    c.on_idle();
    assert_eq!(c.clear(), 2);
    assert_eq!(c.idle_secs, 0);
    assert_eq!(c.messages.len(), 1);
    assert_eq!(cleared_text(0), "already empty");
    assert_eq!(cleared_text(12), "12 exchanges cleared");
}

#[test]
fn cut_off_replies_are_asked_again() {
    let short = "It happened in nineteen thirty";
    assert!(!reply_settled(short, false, false, 0));
    assert!(!reply_settled(short, false, false, 1));
    assert!(reply_settled(short, false, false, 2));
    assert!(reply_settled(short, true, false, 0));
    assert!(reply_settled(short, false, true, 0));
    assert!(reply_settled(&"x".repeat(40), false, false, 0));
    assert!(!reply_settled(&"x".repeat(39), false, false, 0));
    assert!(!reply_settled(&format!("  {}  ", "x".repeat(39)), false, false, 0));
    // Characters count, not bytes.
    assert!(!reply_settled(&"\u{e9}".repeat(39), false, false, 0));
}

#[test]
fn upload_parts() {
    assert_eq!(
        upload_content_type(),
        "multipart/form-data; boundary=----esp32s3-voice-assistant-boundary"
    );
    let body = upload_body("whisper", &[0xFF, 0x00]);
    let mut expected = Vec::new();
    expected.extend_from_slice(
        b"------esp32s3-voice-assistant-boundary\r\n\
          Content-Disposition: form-data; name=\"model\"\r\n\r\nwhisper\r\n\
          ------esp32s3-voice-assistant-boundary\r\n\
          Content-Disposition: form-data; name=\"file\"; filename=\"audio.wav\"\r\n\
          Content-Type: audio/wav\r\n\r\n",
    );
    expected.extend_from_slice(&[0xFF, 0x00]);
    expected.extend_from_slice(b"\r\n------esp32s3-voice-assistant-boundary--\r\n");
    assert_eq!(body, expected);
}

// ---------- Replies ----------

const STREAM: &str = "data: {\"choices\":[{\"delta\":{\"role\":\"assistant\"}}]}\r\n\r\n\
    event: hermes.tool.progress\n\
    data: {\"status\":\"running\",\"tool\":\"search\",\"emoji\":\"?\"}\n\n\
    data: {\"choices\":[{\"delta\":{\"content\":\"Hel\"}}]}\n\n\
    : a comment\n\
    data: {\"choices\":[{\"delta\":{\"reasoning\":\"hm\",\"content\":\"lo\"}}]}\n\n\
    data: {\"choices\":[{\"delta\":{\"content\":\"!\"},\"finish_reason\":\"stop\"}]}\n\n";

#[test]
fn stream_is_put_together() {
    let mut s = ReplyStream::new();
    assert_eq!(s.patience_secs(), 30);
    s.feed(STREAM.as_bytes());
    assert_eq!(s.text, "Hello!");
    assert_eq!(s.tool_label.as_deref(), Some("? search"));
    assert_eq!(s.finish_reason.as_deref(), Some("stop"));
    assert!(s.done && s.started);
    assert_eq!(s.patience_secs(), 8);
}

#[test]
fn reads_cut_anywhere_give_the_same() {
    for cut in 0..=STREAM.len() {
        let mut s = ReplyStream::new();
        s.feed(&STREAM.as_bytes()[..cut]);
        let so_far = s.text.clone();
        s.feed(&STREAM.as_bytes()[cut..]);
        assert_eq!(s.text, "Hello!");
        assert!(s.text.starts_with(&so_far));
        assert!(s.done);
    }
}

#[test]
fn done_mark_ends_a_stream() {
    let mut s = ReplyStream::new();
    s.feed(b"data: {\"choices\":[{\"delta\":{\"content\":\"ok\"}}]}\n\ndata: [DONE]\n");
    assert!(s.done);
    assert_eq!((s.text.as_str(), s.finish_reason), ("ok", None));
}

#[test]
fn what_is_no_piece_of_a_reply_changes_nothing() {
    let mut s = ReplyStream::new();
    for line in [
        "data: not json",
        "data: 17",
        "data: {\"choices\":[]}",
        "data: {\"choices\":{\"0\":1}}",
        "data: {\"choices\":[{\"delta\":{\"content\":null}}]}",
        "data: {\"choices\":[{\"delta\":{\"content\":5},\"finish_reason\":null}]}",
        "data:{\"choices\":[{\"delta\":{\"content\":\"x\"}}]}",
        "id: 4",
    ] {
        s.on_line(line);
    }
    assert_eq!(s.text, "");
    assert!(!s.done);
    assert!(s.started);
}

#[test]
fn escapes_in_a_piece_are_read() {
    let mut s = ReplyStream::new();
    s.on_data("{\"choices\":[{\"delta\":{\"content\":\"a\\u2019b\\n\"}},{\"delta\":{\"content\":\"z\"}}]}");
    assert_eq!(s.text, "a\u{2019}b\n");
}

#[test]
fn tools_have_names() {
    let mut s = ReplyStream::new();
    let running = |label: Option<&str>, tool: Option<&str>, emoji: Option<&str>| Progress {
        status: Some("running".to_string()),
        label: label.map(str::to_string),
        tool: tool.map(str::to_string),
        emoji: emoji.map(str::to_string),
    };
    s.on_progress(&running(Some("Searching"), Some("search"), Some("*")));
    assert_eq!(s.tool_label.as_deref(), Some("* Searching"));
    s.on_progress(&running(None, Some("search"), None));
    assert_eq!(s.tool_label.as_deref(), Some(" search"));
    s.on_progress(&running(None, None, None));
    assert_eq!(s.tool_label.as_deref(), Some(" working"));
    s.on_progress(&Progress {
        status: Some("completed".to_string()),
        label: Some("gone".to_string()),
        tool: None,
        emoji: None,
    });
    assert_eq!(s.tool_label.as_deref(), Some(" working"));
}

#[test]
fn pieces_are_appended() {
    let mut s = ReplyStream::new();
    s.on_delta(Delta { content: Some("a".to_string()), finish_reason: None });
    s.on_delta(Delta { content: None, finish_reason: None });
    s.on_delta(Delta { content: Some("b".to_string()), finish_reason: Some("length".to_string()) });
    assert_eq!(s.text, "ab");
    assert_eq!(s.finish_reason.as_deref(), Some("length"));
    s.on_delta(Delta { content: None, finish_reason: None });
    assert!(s.done);
    assert_eq!(s.finish_reason.as_deref(), Some("length"));
}

#[test]
fn an_event_lasts_for_one_piece_of_data() {
    let mut s = ReplyStream::new();
    s.on_line("event: hermes.tool.progress");
    s.on_line("");
    s.on_line("data: {\"status\":\"running\",\"label\":\"x\"}");
    assert_eq!(s.tool_label, None);
    s.on_line("event: hermes.tool.progress");
    s.on_line("data: {\"status\":\"running\",\"label\":\"x\"}");
    assert_eq!(s.tool_label.as_deref(), Some(" x"));
    s.on_line("data: {\"choices\":[{\"delta\":{\"content\":\"y\"}}]}");
    assert_eq!(s.text, "y");
}

// ---------- Speakable text ----------

#[test]
fn replies_are_folded_to_ascii() {
    assert_eq!(speakable("It\u{2019}s \u{201C}fine\u{201D}"), "It's \"fine\"");
    assert_eq!(speakable("20\u{B0}C \u{2014} warm\u{2026}"), "20 degreesC - warm...");
    assert_eq!(speakable("3\u{D7}4\u{F7}2"), "3 times 4 divided by 2");
    assert_eq!(speakable("\u{BD} of \u{20AC}5"), "one half of euros5");
    assert_eq!(speakable("a\u{2192}b \u{2264} c"), "a to b less than or equal to c");
    assert_eq!(speakable("hi \u{1F600} there"), "hi there");
    assert_eq!(speakable("\u{65E5}\u{672C}"), "");
}

#[test]
fn markdown_is_stripped() {
    assert_eq!(speakable("**bold** and `code` and _it_"), "bold and code and it");
    assert_eq!(speakable("# Title\n## Sub\nC# is"), "Title Sub C# is");
    assert_eq!(speakable("  # still a heading"), "still a heading");
    assert_eq!(speakable("\u{2022} item"), "item");
    assert_eq!(speakable("*# not a heading"), "# not a heading");
}

#[test]
fn whitespace_is_collapsed() {
    assert_eq!(speakable("  a \n\n\t b\u{A0}\u{A0}c  "), "a b c");
    assert_eq!(speakable("a \u{D7} b"), "a times b");
    assert_eq!(speakable("\n "), "");
}

#[test]
fn clean_text_stays() {
    let clean = "Plain text, with 3 sentences? Yes! It's \"fine\" - really.";
    assert_eq!(speakable(clean), clean);
    assert_eq!(speakable("room #5 is # 1"), "room #5 is # 1");
    assert_eq!(speakable("#5"), "5");
    assert_eq!(speakable(&speakable("**x** \u{2192} y")), speakable("**x** \u{2192} y"));
}
