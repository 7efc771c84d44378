use session_import::budget::{take_recent_within_budget, ParsedMsg};
use session_import::error::ImportError;
use session_import::external_resume::{
    build_recap, flag, import_claude_session, map_content, message_plain_text, parse_lines,
    read_transcript, tool_result_text, truncate,
};
use session_import::json::{parse_json, Json};
use session_import::message::{ContentBlock, Role, Session, MAX_TOOL_RESULT_CHARS};

fn json(text: &str) -> Json {
    match parse_json(text) {
        Ok(value) => value,
        Err(error) => panic!("{error}"),
    }
}

fn line_user(text: &str) -> String {
    format!(
        r#"{{"type":"user","cwd":"/work","aiTitle":"demo","message":{{"role":"user","content":"{text}"}}}}"#
    )
}

fn line_assistant_text(text: &str) -> String {
    format!(
        r#"{{"type":"assistant","message":{{"role":"assistant","content":[{{"type":"thinking","thinking":"ignore me"}},{{"type":"text","text":"{text}"}}]}}}}"#
    )
}

fn imported(raw: &str) -> Session {
    match import_claude_session(raw, "Test Agent") {
        Ok(session) => session,
        Err(error) => panic!("{:?}", error),
    }
}

fn text_of(block: &ContentBlock) -> &str {
    match block {
        ContentBlock::Text { text } => text,
        _ => panic!("expected text"),
    }
}

#[test]
fn parses_and_skips_non_context() {
    let transcript = [
        r#"{"type":"mode","mode":"x"}"#.to_string(),
        line_user("first prompt"),
        line_assistant_text("an answer"),
        r#"{"type":"user","isSidechain":true,"message":{"role":"user","content":"sub"}}"#
            .to_string(),
        "{ not json".to_string(),
    ]
    .join("\n");

    let mut prompts = Vec::new();
    let mut msgs = 0;
    for line in transcript.lines() {
        let Ok(v) = parse_json(line.trim()) else {
            continue;
        };
        let typ = v.get_str("type").map(|s| s.as_str()).unwrap_or("");
        if typ != "user" && typ != "assistant" {
            continue;
        }
        if flag(&v, "isSidechain") {
            continue;
        }
        let blocks = map_content(&v);
        if blocks.is_empty() {
            continue;
        }
        if typ == "user" {
            if let ContentBlock::Text { text, .. } = &blocks[0] {
                prompts.push(text.clone());
            }
        }
        msgs += 1;
    }
    assert_eq!(msgs, 2, "kept user + assistant, skipped sidechain/mode/badjson");
    assert_eq!(prompts, vec!["first prompt".to_string()]);

    let read = read_transcript(&parse_lines(&transcript));
    assert_eq!(read.parsed.len(), 2);
    assert_eq!(read.user_prompts, vec!["first prompt".to_string()]);
}

#[test]
fn thinking_blocks_dropped_tool_result_truncated() {
    let big = "x".repeat(MAX_TOOL_RESULT_CHARS + 500);
    let v = json(&format!(
        r#"{{"type":"user","message":{{"role":"user","content":[{{"type":"tool_result","tool_use_id":"t1","content":"{big}"}}]}}}}"#
    ));
    let blocks = map_content(&v);
    assert_eq!(blocks.len(), 1);
    match &blocks[0] {
        ContentBlock::ToolResult { content, .. } => {
            assert!(content.len() < MAX_TOOL_RESULT_CHARS + 100);
            assert!(content.ends_with("…[truncated]"));
        }
        _ => panic!("expected tool result"),
    }
}

#[test]
fn recap_prefers_compaction_summary() {
    let r = build_recap(Some("THE SUMMARY"), &vec!["p1".into()]);
    assert_eq!(r, "THE SUMMARY");
    let r2 = build_recap(None, &vec!["p1".into(), "p2".into()]);
    assert!(r2.contains("p1") && r2.contains("p2"));
}

#[test]
fn budget_keeps_recent_tail() {
    let parsed: Vec<ParsedMsg> = (0..10)
        .map(|i| ParsedMsg {
            role: Role::User,
            content: vec![ContentBlock::Text { text: format!("m{i}") }],
            chars: 100,
        })
        .collect();
    let (recent, dropped) = take_recent_within_budget(parsed, 350);
    assert_eq!(recent.len() + dropped, 10);
    assert!(recent.len() <= 4 && !recent.is_empty());
    assert_eq!(dropped, 7);
    assert_eq!(text_of(&recent[0].content[0]), "m7");
}

#[test]
fn budget_keeps_the_last_message_though_it_is_too_large() {
    let parsed = vec![
        ParsedMsg { role: Role::User, content: vec![], chars: 1 },
        ParsedMsg { role: Role::Assistant, content: vec![], chars: 1_000 },
    ];
    let (recent, dropped) = take_recent_within_budget(parsed, 10);
    assert_eq!((recent.len(), dropped), (1, 1));
    assert_eq!(recent[0].role, Role::Assistant);
    let (none, dropped) = take_recent_within_budget(vec![], 10);
    assert_eq!((none.len(), dropped), (0, 0));
}

#[test]
fn recap_texts() {
    assert_eq!(
        build_recap(Some("  "), &vec![]),
        "(no recoverable summary; continue from the recent context below)"
    );
    assert_eq!(
        build_recap(None, &vec!["a".into(), "b".into()]),
        "Conversation thread (user requests, oldest→newest):\n- a\n- b\n"
    );
    let many: Vec<String> = (0..50).map(|i| format!("<{i}>")).collect();
    let r = build_recap(None, &many);
    assert!(!r.contains("<9>") && r.contains("<10>") && r.contains("<49>"));
    assert_eq!(build_recap(Some("\n sum \t"), &many), "sum");
}

#[test]
fn session_of_a_small_transcript() {
    let raw = [line_user("do it"), line_assistant_text("done")].join("\r\n");
    let session = imported(&raw);
    assert_eq!(session.title.as_deref(), Some("↩ demo"));
    assert_eq!(session.working_dir.as_deref(), Some("/work"));
    assert_eq!(session.provider_key.as_deref(), Some("ollama-local"));
    assert_eq!(session.model.as_deref(), Some("gemma4:12b"));
    assert_eq!(session.messages.len(), 3);
    assert_eq!(session.messages[0].role, Role::User);
    assert_eq!(
        text_of(&session.messages[0].content[0]),
        "[Imported from Test Agent · demo]\n\n\
             You are continuing a conversation that was started in Test Agent. \
             Recap of the work so far:\n\nConversation thread (user requests, oldest→newest):\n- do it\n\n\n\
             --- recent conversation context below ---"
    );
    assert_eq!(text_of(&session.messages[1].content[0]), "do it");
    assert_eq!(session.messages[2].role, Role::Assistant);
    assert_eq!(session.messages[2].content.len(), 1);
    assert_eq!(text_of(&session.messages[2].content[0]), "done");
}

#[test]
fn summary_counts_although_it_is_outside_the_context() {
    let raw = [
        r#"{"type":"user","isCompactSummary":true,"isVisibleInTranscriptOnly":true,"message":{"content":"old summary"}}"#,
        r#"{"type":"user","isCompactSummary":true,"message":{"content":[{"type":"text","text":"new"},{"text":"summary"}]}}"#,
        r#"{"type":"user","isCompactSummary":true,"message":{"content":"   "}}"#,
        r#"{"type":"user","isMeta":true,"message":{"content":"meta"}}"#,
        r#"{"type":"user","isVisibleInTranscriptOnly":true,"message":{"content":"shown"}}"#,
        r#"{"slug":"by-slug","type":"user","message":{"content":"go"}}"#,
    ]
    .join("\n");
    let session = imported(&raw);
    assert_eq!(session.title.as_deref(), Some("↩ by-slug"));
    assert_eq!(session.working_dir, None);
    assert_eq!(session.messages.len(), 2);
    let header = text_of(&session.messages[0].content[0]);
    assert!(header.contains("new\nsummary"));
    assert!(!header.contains("old summary") && !header.contains("omitted"));
}

#[test]
fn old_messages_are_dropped_and_counted() {
    let long = "y".repeat(200_000);
    let raw = [
        line_user("first"),
        line_assistant_text(&long),
        line_assistant_text(&long),
    ]
    .join("\n");
    let session = imported(&raw);
    assert_eq!(session.messages.len(), 2);
    let header = text_of(&session.messages[0].content[0]);
    assert!(header.contains(
        "\n\n(2 older message(s) omitted to fit the context budget; they are covered by the recap above.)"
    ));
    assert!(header.contains("- first\n"));
}

#[test]
fn transcript_without_conversation() {
    let raw = "{\"type\":\"mode\"}\n\nnot json";
    assert!(matches!(import_claude_session(raw, "Test Agent"), Err(ImportError::NoConversation)));
    assert!(matches!(import_claude_session("", "Test Agent"), Err(ImportError::NoConversation)));
    assert_eq!(
        ImportError::NoConversation.message("a.jsonl", "Test Agent").as_deref(),
        Some("no conversational messages found in a.jsonl (not a Test Agent transcript?)")
    );
}

#[test]
fn unreadable_lines_make_no_difference() {
    let good = [line_user("a"), line_assistant_text("b")];
    let noisy = [good[0].as_str(), "{ not json", "  ", good[1].as_str(), "[1,"].join("\n");
    assert_eq!(parse_lines(&noisy).len(), 2);
    assert_eq!(imported(&noisy).messages.len(), imported(&good.join("\n")).messages.len());
}

#[test]
fn blocks_of_every_kind() {
    let v = json(
        r#"{"message":{"content":[
            {"type":"text","text":"  "},
            {"type":"text","text":" keep "},
            {"type":"image"},
            {"type":"tool_use","id":"i","name":"n","input":{"b":1,"a":[true,null]}},
            {"type":"tool_use"},
            {"type":"tool_result","tool_use_id":"i","is_error":true,"content":[{"text":"x"},{"no":1},{"text":"y"}]},
            {"type":"tool_result","content":7}
        ]}}"#,
    );
    let blocks = map_content(&v);
    assert_eq!(blocks.len(), 5);
    assert_eq!(text_of(&blocks[0]), " keep ");
    match &blocks[1] {
        ContentBlock::ToolUse { id, name, input } => {
            assert_eq!((id.as_str(), name.as_str()), ("i", "n"));
            assert_eq!(input.render(), r#"{"a":[true,null],"b":1}"#);
        }
        _ => panic!("expected tool use"),
    }
    match &blocks[2] {
        ContentBlock::ToolUse { id, name, input } => {
            assert_eq!((id.as_str(), name.as_str()), ("", ""));
            assert!(matches!(input, Json::Null));
        }
        _ => panic!("expected tool use"),
    }
    match &blocks[3] {
        ContentBlock::ToolResult { tool_use_id, content, is_error } => {
            assert_eq!((tool_use_id.as_str(), content.as_str()), ("i", "x\ny"));
            assert_eq!(*is_error, Some(true));
        }
        _ => panic!("expected tool result"),
    }
    match &blocks[4] {
        ContentBlock::ToolResult { content, is_error, .. } => {
            assert_eq!(content, "");
            assert_eq!(*is_error, None);
        }
        _ => panic!("expected tool result"),
    }
    assert!(map_content(&json(r#"{"message":{"content":" "}}"#)).is_empty());
    assert!(map_content(&json(r#"{"message":{}}"#)).is_empty());
    assert!(map_content(&json(r#"{}"#)).is_empty());
    let plain = map_content(&json(r#"{"message":{"content":" a b "}}"#));
    assert_eq!(text_of(&plain[0]), "a b");
}

#[test]
fn texts_of_messages_and_tool_results() {
    let block = json(r#"{"content":"plain"}"#);
    assert_eq!(tool_result_text(&block), "plain");
    assert_eq!(message_plain_text(&json(r#"{"message":{"content":5}}"#)), None);
    assert_eq!(
        message_plain_text(&json(r#"{"message":{"content":[]}}"#)).as_deref(),
        Some("")
    );
    assert_eq!(truncate("äöü", 3), "äöü");
    assert_eq!(truncate("äöü", 2), "äö …[truncated]");
}
