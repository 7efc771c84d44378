use session_import::budget::truncate_messages_to_recent_budget;
use session_import::error::{Agent, ImportError};
use session_import::import::claude::{
    build_import_recap, claude_content_plain_text, collect_conversation, convert_content_blocks, entries_read,
    import_session_from_file, title_from_transcript, transcript_lines, ClaudeCodeContent,
    ClaudeCodeContentBlock, ClaudeCodeEntry, ClaudeCodeMessage,
};
use session_import::import::codex::{
    find_codex_session_file, import_codex_session_from_path, read_codex_transcript, CodexText,
    CodexTranscript,
};
use session_import::import::opencode::{
    choose_text, find_opencode_session_file, import_opencode_session_from_path,
    read_opencode_header, read_opencode_message, OpenCodeMessage, OpenCodeTexts,
};
use session_import::import::pi::{import_pi_session, read_pi_transcript, PiEvent, PiTranscript};
use session_import::import::resume::{
    import_codex_session, import_external_resume_id, import_opencode_session, import_session,
    import_source, imported_session_id_for_target, resolve_resume_target_to_jcode, ResumeStep,
    ResumeTarget,
};
use session_import::import::{
    keeps_stored_session, truncate_import_text, truncate_title, SessionFile,
};
use session_import::import::listing::ClaudeCodeSessionInfo;
use session_import::json::{parse_json, Json};
use session_import::message::{ContentBlock, Role, Session, SessionStatus, StoredMessage};
use session_import::time::Timestamp;

fn json(text: &str) -> Json {
    match parse_json(text) {
        Ok(value) => value,
        Err(error) => panic!("{error}"),
    }
}

fn lines(raw: &str) -> Vec<String> {
    raw.lines().map(|line| line.to_string()).collect()
}

fn text_of(block: &ContentBlock) -> &str {
    match block {
        ContentBlock::Text { text } => text,
        _ => panic!("expected text"),
    }
}

fn all_texts(session: &Session) -> Vec<&str> {
    session
        .messages
        .iter()
        .flat_map(|m| m.content.iter())
        .map(text_of)
        .collect()
}

fn at(secs: i64) -> Option<Timestamp> {
    Some(Timestamp { secs, nanos: 0 })
}

/// The texts in an array of blocks, or a text itself.
fn said(content: &Json) -> String {
    match content {
        Json::Text(text) => text.clone(),
        Json::Array(items) => items
            .iter()
            .filter_map(|item| item.get_text("text"))
            .collect::<Vec<_>>()
            .join("\n"),
        _ => String::new(),
    }
}

fn codex_texts(transcript: &CodexTranscript) -> Vec<CodexText> {
    transcript
        .messages
        .iter()
        .map(|m| {
            let text = said(&m.content);
            let title = Some(truncate_title(&text)).filter(|t| !t.starts_with('<'));
            CodexText { text, title }
        })
        .collect()
}

fn pi_texts(transcript: &PiTranscript) -> Vec<String> {
    transcript
        .lines
        .iter()
        .map(|line| match &line.event {
            PiEvent::Message { content, .. } => said(content),
            _ => String::new(),
        })
        .collect()
}

#[test]
fn test_truncate_title() {
    assert_eq!(truncate_title("short"), "short");
    assert_eq!(truncate_title("line1\nline2"), "line1");

    let long = "a".repeat(100);
    let truncated = truncate_title(&long);
    assert!(truncated.ends_with("..."));
    assert!(truncated.len() <= 80);
}

#[test]
fn titles_at_the_limit() {
    let fits = "a".repeat(80);
    assert_eq!(truncate_title(&fits), fits);
    assert_eq!(truncate_title(&"a".repeat(81)), format!("{}...", "a".repeat(77)));
    // Two bytes each: 38 of them fit into 77 bytes.
    assert_eq!(truncate_title(&"ä".repeat(60)), format!("{}...", "ä".repeat(38)));
    assert_eq!(truncate_title(""), "");
    assert_eq!(truncate_title("one\r\ntwo"), "one");
    assert_eq!(truncate_title("\nsecond"), "");
}

#[test]
fn test_convert_text_content() {
    let content = ClaudeCodeContent::Text("hello".to_string());
    let blocks = convert_content_blocks(&content);
    assert_eq!(blocks.len(), 1);
    match &blocks[0] {
        ContentBlock::Text { text, .. } => assert_eq!(text, "hello"),
        _ => panic!("Expected text block"),
    }
}

#[test]
fn test_convert_empty_content() {
    let content = ClaudeCodeContent::Empty;
    let blocks = convert_content_blocks(&content);
    assert!(blocks.is_empty());
    assert!(convert_content_blocks(&ClaudeCodeContent::Text(String::new())).is_empty());
}

#[test]
fn test_convert_blocks_content() {
    let content = ClaudeCodeContent::Blocks(vec![
        ClaudeCodeContentBlock::Text {
            text: "hello".to_string(),
        },
        ClaudeCodeContentBlock::Thinking {
            thinking: "let me think".to_string(),
        },
        ClaudeCodeContentBlock::ToolUse {
            id: "tool1".to_string(),
            name: "bash".to_string(),
            input: json(r#"{"cmd": "ls"}"#),
        },
    ]);
    let blocks = convert_content_blocks(&content);
    // Hidden reasoning is dropped, so only the text and the tool call remain.
    assert_eq!(blocks.len(), 2);

    match &blocks[0] {
        ContentBlock::Text { text, .. } => assert_eq!(text, "hello"),
        _ => panic!("Expected text"),
    }
    match &blocks[1] {
        ContentBlock::ToolUse { name, input, .. } => {
            assert_eq!(name, "bash");
            assert_eq!(input.render(), r#"{"cmd":"ls"}"#);
        }
        _ => panic!("Expected tool use"),
    }
}

#[test]
fn tool_results_and_unknown_blocks() {
    let content = ClaudeCodeContent::Blocks(vec![
        ClaudeCodeContentBlock::Unknown,
        ClaudeCodeContentBlock::ToolResult {
            tool_use_id: "t".to_string(),
            content: "z".repeat(3_001),
            is_error: Some(false),
        },
        ClaudeCodeContentBlock::Text { text: String::new() },
    ]);
    let blocks = convert_content_blocks(&content);
    assert_eq!(blocks.len(), 2);
    match &blocks[0] {
        ContentBlock::ToolResult { tool_use_id, content, is_error } => {
            assert_eq!(tool_use_id, "t");
            assert_eq!(content, &format!("{} …[truncated]", "z".repeat(3_000)));
            assert_eq!(*is_error, Some(false));
        }
        _ => panic!("Expected tool result"),
    }
    assert_eq!(truncate_import_text("abc", 3), "abc");
    let texts = ClaudeCodeContent::Blocks(vec![
        ClaudeCodeContentBlock::Text { text: "a".to_string() },
        ClaudeCodeContentBlock::Unknown,
        ClaudeCodeContentBlock::Text { text: "b".to_string() },
    ]);
    assert_eq!(claude_content_plain_text(&texts), "a\nb");
    assert_eq!(claude_content_plain_text(&ClaudeCodeContent::Empty), "");
}

fn txt_msg(role: Role, text: &str) -> StoredMessage {
    StoredMessage {
        id: None,
        role,
        content: vec![ContentBlock::Text { text: text.to_string() }],
        timestamp: None,
    }
}

#[test]
fn import_recap_prefers_compaction_summary() {
    let r = build_import_recap(Some("THE SUMMARY"), &vec!["p1".into()], 5, "Test Agent").unwrap();
    assert!(r.contains("THE SUMMARY"));
    assert!(r.contains("omitted")); // dropped note present
}

#[test]
fn import_recap_falls_back_to_prompts_only_when_dropped() {
    // No summary, nothing dropped -> no recap (full convo fits).
    assert!(build_import_recap(None, &vec!["p1".into()], 0, "Test Agent").is_none());
    // No summary but history dropped -> prompt-thread recap.
    let r = build_import_recap(None, &vec!["p1".into(), "p2".into()], 3, "Test Agent").unwrap();
    assert!(r.contains("p1") && r.contains("p2"));
}

#[test]
fn import_recap_in_full() {
    assert_eq!(
        build_import_recap(Some(" sum "), &vec![], 0, "Test Agent").as_deref(),
        Some(
            "[Imported from Test Agent — continuing offline with the local model.]\n\n\
             Recap of the work so far:\n\nsum\n\n\
             --- recent conversation context below ---"
        )
    );
    assert_eq!(
        build_import_recap(Some(""), &vec!["p".into()], 12, "Test Agent").as_deref(),
        Some(
            "[Imported from Test Agent — continuing offline with the local model.]\n\n\
             Recap of the work so far:\n\n\
             Earlier conversation (user requests, oldest→newest):\n- p\n\n\n\
             (12 older message(s) omitted to fit the context window; covered by the recap above.)\n\n\
             --- recent conversation context below ---"
        )
    );
    assert!(build_import_recap(None, &vec![], 4, "Test Agent").is_none());
}

#[test]
fn import_budget_keeps_recent_tail() {
    let mut msgs: Vec<StoredMessage> = (0..10)
        .map(|i| txt_msg(Role::User, &"x".repeat(100).replace('x', &i.to_string())))
        .collect();
    let dropped = truncate_messages_to_recent_budget(&mut msgs, 350);
    assert_eq!(dropped + msgs.len(), 10);
    assert!(!msgs.is_empty() && msgs.len() <= 4);
    assert_eq!(text_of(&msgs[0].content[0]), "7".repeat(100));
    assert_eq!(truncate_messages_to_recent_budget(&mut msgs, 350), 0);
}

#[test]
fn import_budget_trims_leading_orphan_tool_result() {
    let mut msgs = vec![
        StoredMessage {
            id: None,
            role: Role::User,
            content: vec![ContentBlock::ToolResult {
                tool_use_id: "orphan".into(),
                content: "r".into(),
                is_error: None,
            }],
            timestamp: None,
        },
        txt_msg(Role::Assistant, "clean turn"),
    ];
    // Budget large enough to keep both, but the leading orphan tool_result must be trimmed.
    let dropped = truncate_messages_to_recent_budget(&mut msgs, 1_000_000);
    assert_eq!(dropped, 1);
    assert!(matches!(msgs[0].content[0], ContentBlock::Text { .. }));
}

#[test]
fn import_budget_counts_tool_calls_by_their_json() {
    let call = |input: &str| StoredMessage {
        id: None,
        role: Role::Assistant,
        content: vec![ContentBlock::ToolUse {
            id: "ignored".into(),
            name: "ls".into(),
            input: json(input),
        }],
        timestamp: None,
    };
    // Two bytes of name, 13 of the JSON without spaces and four of text make 19.
    let mut msgs = vec![call(r#"{ "a": 1, "b": 2 }"#), txt_msg(Role::User, "1234")];
    assert_eq!(truncate_messages_to_recent_budget(&mut msgs, 19), 0);
    assert_eq!(truncate_messages_to_recent_budget(&mut msgs, 18), 1);
    let mut none: Vec<StoredMessage> = vec![];
    assert_eq!(truncate_messages_to_recent_budget(&mut none, 0), 0);
}

fn entry(kind: &str, uuid: &str, text: &str) -> ClaudeCodeEntry {
    ClaudeCodeEntry {
        entry_type: kind.to_string(),
        uuid: Some(uuid.to_string()),
        parent_uuid: None,
        session_id: Some("live-session-1".to_string()),
        cwd: Some("/tmp/demo-project".to_string()),
        timestamp: Some("2026-04-04T12:00:00Z".to_string()),
        message: Some(ClaudeCodeMessage {
            role: kind.to_string(),
            content: ClaudeCodeContent::Text(text.to_string()),
            text: Some(text.to_string()),
        }),
        is_compact_summary: false,
        is_meta: false,
        is_visible_in_transcript_only: false,
    }
}

#[test]
fn test_import_claude_session_uses_recovered_live_transcript() {
    let user = entry("user", "u1", "Investigate the login bug");
    let assistant = entry("assistant", "a1", "I can help with that.");
    let ordered = vec![&user, &assistant];
    let imported =
        import_session_from_file(&ordered, "live-session-1", "imported-live-session-1", &vec![], "Test Agent");
    assert_eq!(imported.id.as_deref(), Some("imported-live-session-1"));
    assert_eq!(imported.provider_key, None);
    assert_eq!(imported.working_dir.as_deref(), Some("/tmp/demo-project"));
    assert_eq!(imported.model, None);
    assert_eq!(imported.messages.len(), 2);
    assert_eq!(imported.title.as_deref(), Some("Investigate the login bug"));
    assert_eq!(imported.provider_session_id.as_deref(), Some("live-session-1"));
    // 2026-04-04T12:00:00Z
    assert_eq!(imported.created_at, at(1_775_304_000));
    assert_eq!(imported.status, Some(SessionStatus::Closed));
    assert_eq!(imported.messages[0].id.as_deref(), Some("u1"));
    assert_eq!(imported.messages[1].role, Role::Assistant);
}

fn info(id: &str, summary: Option<&str>, prompt: &str) -> ClaudeCodeSessionInfo {
    ClaudeCodeSessionInfo {
        session_id: id.to_string(),
        first_prompt: prompt.to_string(),
        summary: summary.map(|s| s.to_string()),
        message_count: 1,
        created: None,
        modified: None,
        project_path: None,
        full_path: format!("/{id}.jsonl"),
    }
}

#[test]
fn claude_titles_come_from_the_listing_if_need_be() {
    let mut first = entry("assistant", "a", "no title");
    first.timestamp = None;
    let ordered = vec![&first];
    let listed = vec![info("x", Some("sum"), "p"), info("y", None, "prompt")];
    let x = import_session_from_file(&ordered, "x", "jx", &listed, "Test Agent");
    assert_eq!(x.title.as_deref(), Some("sum"));
    // Without a time of its own the session is created now.
    assert!(x.created_at.unwrap().secs > 1_700_000_000);
    let y = import_session_from_file(&ordered, "y", "jy", &listed, "Test Agent");
    assert_eq!(y.title.as_deref(), Some("prompt"));
    let z = import_session_from_file(&ordered, "z", "jz", &listed, "Test Agent");
    assert_eq!(z.title, None);
    let blocks = ClaudeCodeEntry {
        message: Some(ClaudeCodeMessage {
            role: "user".to_string(),
            content: ClaudeCodeContent::Blocks(vec![
                ClaudeCodeContentBlock::Unknown,
                ClaudeCodeContentBlock::Text { text: "in a block\nmore".to_string() },
            ]),
            text: None,
        }),
        ..entry("user", "u", "")
    };
    assert_eq!(title_from_transcript(&vec![&blocks]).as_deref(), Some("in a block"));
    assert_eq!(title_from_transcript(&vec![]), None);
}

#[test]
fn claude_import_skips_bookkeeping_and_recaps() {
    let long = entry("assistant", "a1", &"l".repeat(330_000));
    let summary = ClaudeCodeEntry {
        is_compact_summary: true,
        is_visible_in_transcript_only: true,
        ..entry("user", "s", "what was done")
    };
    let meta = ClaudeCodeEntry { is_meta: true, ..entry("user", "m", "meta") };
    let other = ClaudeCodeEntry {
        message: Some(ClaudeCodeMessage {
            role: "system".to_string(),
            content: ClaudeCodeContent::Text("system".to_string()),
            text: None,
        }),
        ..entry("user", "o", "")
    };
    let reminder = entry("user", "r", "<system-reminder> hidden");
    let last = entry("user", "u2", "go on");
    let ordered = vec![&long, &summary, &meta, &other, &reminder, &last];
    let read = collect_conversation(&ordered);
    assert_eq!(read.compact_summary.as_deref(), Some("what was done"));
    assert_eq!(read.user_prompts, vec!["go on".to_string()]);
    assert_eq!(read.collected.len(), 3);
    let session = import_session_from_file(&ordered, "s", "js", &vec![], "Test Agent");
    let texts = all_texts(&session);
    assert_eq!(texts.len(), 3);
    assert!(texts[0].contains("what was done") && texts[0].contains("(1 older message(s)"));
    assert_eq!(&texts[1..], &["<system-reminder> hidden", "go on"]);
}

const PI: &str = "{\"type\":\"session\",\"id\":\"pi-session-1\",\"timestamp\":\"2026-04-05T19:00:00Z\",\"cwd\":\"/tmp/pi-demo\"}\n\
    {\"type\":\"model_change\",\"timestamp\":\"2026-04-05T19:00:01Z\",\"provider\":\"pi\",\"modelId\":\"pi-model\"}\n\
    {\"type\":\"message\",\"timestamp\":\"2026-04-05T19:00:02Z\",\"message\":{\"role\":\"user\",\"content\":[{\"type\":\"text\",\"text\":\"hello pi\"}]}}\n\
    {\"type\":\"message\",\"timestamp\":\"2026-04-05T19:00:03Z\",\"message\":{\"role\":\"assistant\",\"content\":[{\"type\":\"text\",\"text\":\"hi back\"}]}}\n";

#[test]
fn test_import_pi_session_creates_jcode_snapshot() {
    let transcript = read_pi_transcript(&lines(PI)).unwrap();
    let texts = pi_texts(&transcript);
    let imported = import_pi_session(&transcript, &texts, Some("session"), "imported-pi");
    assert_eq!(imported.id.as_deref(), Some("imported-pi"));
    assert_eq!(imported.provider_key.as_deref(), Some("pi"));
    assert_eq!(imported.model.as_deref(), Some("pi-model"));
    assert_eq!(imported.working_dir.as_deref(), Some("/tmp/pi-demo"));
    assert_eq!(imported.messages.len(), 2);
    assert_eq!(imported.title.as_deref(), Some("hello pi"));
    assert_eq!(imported.provider_session_id.as_deref(), Some("pi-session-1"));
    // 2026-04-05T19:00:00Z and three seconds later
    assert_eq!(imported.created_at, at(1_775_415_600));
    assert_eq!(imported.updated_at, at(1_775_415_603));
    assert_eq!(imported.last_active_at, at(1_775_415_603));
    assert_eq!(imported.status, Some(SessionStatus::Closed));
    assert_eq!(imported.messages[0].timestamp, at(1_775_415_602));
    assert_eq!(all_texts(&imported), vec!["hello pi", "hi back"]);
}

#[test]
fn pi_fallbacks() {
    let raw = "{\"type\":\"session\",\"id\":\"\",\"timestamp\":\"2026-04-05T19:00:00Z\"}\n\
    {\"type\":\"message\",\"message\":{\"role\":\"user\",\"content\":\"  \",\"model\":\"m1\"}}\n\
    {\"type\":\"message\",\"message\":{\"role\":\"tool\",\"content\":\"x\"}}\n\
    {\"type\":\"message\"}\n\
    \n\
    nonsense\n\
    {\"type\":\"model_change\",\"provider\":\"anthropic\"}\n\
    {\"type\":\"other\",\"timestamp\":\"2026-04-05T19:00:09Z\"}\n\
    {\"type\":\"message\",\"message\":{\"role\":\"assistant\",\"content\":\" said \",\"model\":\"m2\"}}\n";
    let transcript = read_pi_transcript(&lines(raw)).unwrap();
    assert_eq!(transcript.lines.len(), 6);
    let texts = pi_texts(&transcript);
    let session = import_pi_session(&transcript, &texts, Some("stem"), "j");
    assert_eq!(session.title.as_deref(), Some("Pi session stem"));
    assert_eq!(session.provider_session_id, None);
    assert_eq!(session.provider_key.as_deref(), Some("anthropic"));
    assert_eq!(session.model.as_deref(), Some("m1"));
    assert_eq!(session.working_dir, None);
    assert_eq!(session.updated_at, at(1_775_415_609));
    assert_eq!(all_texts(&session), vec!["said"]);
    assert_eq!(session.messages[0].timestamp, None);
    assert_eq!(import_pi_session(&transcript, &texts, None, "j").title, None);
}

#[test]
fn pi_errors() {
    assert!(matches!(read_pi_transcript(&vec![]), Err(ImportError::EmptyFile(Agent::Pi))));
    assert!(matches!(read_pi_transcript(&lines("oops")), Err(ImportError::Json(_))));
    assert!(matches!(
        read_pi_transcript(&lines("{\"type\":\"x\"}")),
        Err(ImportError::InvalidPiHeader)
    ));
    assert!(matches!(read_pi_transcript(&lines("[]")), Err(ImportError::InvalidPiHeader)));
}

const CODEX: &str = "{\"timestamp\":\"2026-04-05T19:00:00Z\",\"type\":\"session_meta\",\"payload\":{\"id\":\"codex-resolve-test\",\"timestamp\":\"2026-04-05T18:59:00Z\",\"cwd\":\"/tmp/codex-resolve\"}}\n\
    {\"timestamp\":\"2026-04-05T19:00:01Z\",\"type\":\"response_item\",\"payload\":{\"type\":\"message\",\"role\":\"user\",\"content\":[{\"type\":\"input_text\",\"text\":\"Fix codex resume\"}]}}\n\
    {\"timestamp\":\"2026-04-05T19:00:02Z\",\"type\":\"response_item\",\"payload\":{\"type\":\"message\",\"role\":\"assistant\",\"content\":[{\"type\":\"output_text\",\"text\":\"Done\"}]}}\n";

#[test]
fn test_resolve_resume_target_to_jcode_imports_codex_session() {
    let target = ResumeTarget::CodexSession {
        session_id: "codex-resolve-test".to_string(),
        session_path: "rollout.jsonl".to_string(),
    };
    assert_eq!(
        import_source(&target),
        Some((Agent::Codex, "codex-resolve-test".to_string()))
    );
    let transcript = read_codex_transcript(&lines(CODEX), Some("codex-resolve-test")).unwrap();
    let texts = codex_texts(&transcript);
    let loaded = import_codex_session_from_path(&transcript, &texts, "imported-codex");
    let resolved = resolve_resume_target_to_jcode(&target, "imported-codex");
    assert_eq!(
        resolved,
        ResumeTarget::JcodeSession {
            session_id: "imported-codex".to_string(),
        }
    );
    assert_eq!(resolve_resume_target_to_jcode(&resolved, "other"), resolved);
    assert_eq!(
        imported_session_id_for_target(&target, "imported-codex").as_deref(),
        Some("imported-codex")
    );
    assert_eq!(
        imported_session_id_for_target(&resolved, "other").as_deref(),
        Some("imported-codex")
    );
    assert_eq!(loaded.messages.len(), 2);
    assert_eq!(loaded.id.as_deref(), Some("imported-codex"));
    assert_eq!(loaded.title.as_deref(), Some("Fix codex resume"));
    assert_eq!(loaded.provider_key.as_deref(), Some("openai-codex"));
    assert_eq!(loaded.provider_session_id.as_deref(), Some("codex-resolve-test"));
    assert_eq!(loaded.working_dir.as_deref(), Some("/tmp/codex-resolve"));
    assert_eq!(loaded.model, None);
    // The time of the payload comes first.
    assert_eq!(loaded.created_at, at(1_775_415_540));
    assert_eq!(loaded.updated_at, at(1_775_415_602));
    assert_eq!(all_texts(&loaded), vec!["Fix codex resume", "Done"]);
}

#[test]
fn codex_lines_of_the_older_form() {
    let raw = "{\"id\":\"\",\"timestamp\":\"2026-04-05T19:00:00Z\"}\n\
    {\"type\":\"message\",\"role\":\"user\",\"content\":[{\"text\":\"<environment_context>\\n  <cwd>/home/x</cwd>\\n</environment_context>\"}]}\n\
    {\"type\":\"message\",\"role\":\"system\",\"content\":\"no\"}\n\
    {\"type\":\"message\",\"content\":\"no\"}\n\
    {\"type\":\"response_item\"}\n\
    {\"type\":\"response_item\",\"payload\":{\"type\":\"reasoning\",\"role\":\"user\"}}\n\
    {\"type\":\"event\"}\n\
    broken\n\
    {\"type\":\"message\",\"role\":\"assistant\",\"content\":\"a\",\"model\":\"gpt\",\"timestamp\":\"2026-04-05T20:00:00+01:00\"}\n\
    {\"type\":\"response_item\",\"payload\":{\"type\":\"message\",\"role\":\"user\",\"content\":\" b \",\"model\":\"later\",\"timestamp\":\"2026-04-05T19:00:07Z\"}}\n\
    {\"type\":\"message\",\"role\":\"user\"}\n";
    let transcript = read_codex_transcript(&lines(raw), Some("hint")).unwrap();
    assert_eq!(transcript.session_id, "hint");
    assert_eq!(transcript.messages.len(), 4);
    let texts = codex_texts(&transcript);
    let session = import_codex_session_from_path(&transcript, &texts, "j");
    assert_eq!(session.working_dir.as_deref(), Some("/home/x"));
    assert_eq!(session.model.as_deref(), Some("gpt"));
    assert_eq!(session.title.as_deref(), Some(" b "));
    assert_eq!(session.created_at, at(1_775_415_600));
    assert_eq!(session.updated_at, at(1_775_415_607));
    assert_eq!(session.messages.len(), 3);
    assert_eq!(text_of(&session.messages[2].content[0]), "b");
    assert_eq!(session.messages[1].timestamp, at(1_775_415_600));
}

#[test]
fn codex_titles_without_candidates() {
    let transcript = read_codex_transcript(&lines("{\"id\":\"abc\"}"), None).unwrap();
    let session = import_codex_session_from_path(&transcript, &vec![], "j");
    assert_eq!(session.title.as_deref(), Some("Codex session abc"));
    assert!(session.created_at.unwrap().secs > 1_700_000_000);
    assert_eq!(session.updated_at, session.created_at);
    assert!(session.messages.is_empty());
}

#[test]
fn codex_errors() {
    assert!(matches!(
        read_codex_transcript(&vec![], Some("x")),
        Err(ImportError::EmptyFile(Agent::Codex))
    ));
    assert!(matches!(
        read_codex_transcript(&lines("{"), Some("x")),
        Err(ImportError::Json(_))
    ));
    assert!(matches!(
        read_codex_transcript(&lines("{\"id\":\"\"}"), None),
        Err(ImportError::MissingId(Agent::Codex))
    ));
}

fn file(path: &str, head: Option<&str>) -> SessionFile {
    SessionFile { path: path.to_string(), head: head.map(|h| h.to_string()) }
}

#[test]
fn codex_files_are_found_by_their_first_line() {
    let files = vec![
        file("none", None),
        file("bad", Some("not json")),
        file("outer", Some("{\"id\":\"a\",\"type\":\"session_meta\",\"payload\":{\"id\":\"b\"}}")),
        file("plain", Some("{\"id\":\"a\"}")),
        file("again", Some("{\"id\":\"a\"}")),
        file("bare", Some("{\"id\":\"c\",\"type\":\"session_meta\"}")),
    ];
    assert_eq!(find_codex_session_file(&files, "a").unwrap(), "plain");
    assert_eq!(find_codex_session_file(&files, "b").unwrap(), "outer");
    assert_eq!(
        import_codex_session(&files, "c").unwrap(),
        ResumeTarget::CodexSession { session_id: "c".to_string(), session_path: "bare".to_string() }
    );
    let error = find_codex_session_file(&files, "d").unwrap_err();
    assert!(matches!(error, ImportError::NotFound(Agent::Codex)));
    assert_eq!(error.message("d", "").as_deref(), Some("Codex session d not found"));
    assert!(import_codex_session(&files, "d").is_err());
}

#[test]
fn test_import_opencode_session_creates_jcode_snapshot() {
    let header = read_opencode_header(
        "{\
    \"id\":\"ses_test_opencode\",\
    \"directory\":\"/tmp/opencode-demo\",\
    \"title\":\"OpenCode imported\",\
    \"time\":{\"created\":1775415600000,\"updated\":1775415605000}\
    }",
        Some("ses_test_opencode"),
    )
    .unwrap();
    let assistant = read_opencode_message("{\
    \"id\":\"msg-assistant\",\
    \"role\":\"assistant\",\
    \"time\":{\"created\":1775415602000},\
    \"providerID\":\"opencode\",\
    \"modelID\":\"big-pickle\"\
    }")
    .unwrap();
    let user = read_opencode_message("{\
    \"id\":\"msg-user\",\
    \"role\":\"user\",\
    \"time\":{\"created\":1775415601000},\
    \"model\":{\"providerID\":\"opencode\",\"modelID\":\"big-pickle\"}\
    }")
    .unwrap();
    assert_eq!(user.id.as_deref(), Some("msg-user"));
    let parts = |text: &str| OpenCodeTexts {
        parts: Some(text.to_string()),
        content: None,
        summary: None,
    };
    // The assistant's file comes first in the directory.
    let imported = import_opencode_session_from_path(
        &header,
        &vec![assistant, user],
        &vec![
            parts("Found the bad provider switch"),
            parts("Investigate provider routing"),
        ],
        "imported-opencode",
    );
    assert_eq!(imported.id.as_deref(), Some("imported-opencode"));
    assert_eq!(imported.provider_key.as_deref(), Some("opencode"));
    assert_eq!(imported.model.as_deref(), Some("big-pickle"));
    assert_eq!(imported.working_dir.as_deref(), Some("/tmp/opencode-demo"));
    assert_eq!(imported.messages.len(), 2);
    assert_eq!(imported.title.as_deref(), Some("OpenCode imported"));
    assert_eq!(imported.created_at, at(1_775_415_600));
    // The last file in the directory decides, not the latest time.
    assert_eq!(imported.updated_at, at(1_775_415_601));
    assert_eq!(
        all_texts(&imported),
        vec!["Investigate provider routing", "Found the bad provider switch"]
    );
}

fn bare(role: &str, extra: &str) -> OpenCodeMessage {
    read_opencode_message(&format!("{{\"role\":\"{role}\"{extra}}}")).unwrap()
}

fn summary(text: &str) -> OpenCodeTexts {
    OpenCodeTexts { parts: None, content: None, summary: Some(text.to_string()) }
}

#[test]
fn opencode_messages_are_ordered_by_time() {
    let header = read_opencode_header("{}", Some("s")).unwrap();
    let messages = vec![
        bare("user", ",\"time\":{\"created\":5000}"),
        bare("assistant", ""),
        bare("user", ",\"time\":{\"created\":1000},\"providerID\":\"x\",\"modelID\":7"),
        bare("assistant", ",\"time\":{\"created\":5000},\"providerID\":\"y\",\"model\":{\"modelID\":\"m\"}"),
        bare("user", ",\"time\":{\"created\":\"1\"}"),
    ];
    let texts = vec![
        summary("first at five"),
        summary("no time"),
        summary("one"),
        summary("second at five"),
        summary("  "),
    ];
    let session = import_opencode_session_from_path(&header, &messages, &texts, "j");
    assert_eq!(
        all_texts(&session),
        vec!["no time", "one", "first at five", "second at five"]
    );
    assert_eq!(session.title.as_deref(), Some("OpenCode session s"));
    assert_eq!(session.provider_key.as_deref(), Some("x"));
    assert_eq!(session.model.as_deref(), Some("m"));
    assert_eq!(session.updated_at, at(5));
    assert_eq!(session.working_dir, None);
    assert!(session.created_at.unwrap().secs > 1_700_000_000);
}

#[test]
fn opencode_texts_by_preference() {
    let some = |s: &str| Some(s.to_string());
    let text = |parts, content, summary| choose_text(&OpenCodeTexts { parts, content, summary });
    assert_eq!(text(some("p"), some("c"), some("s")), "p");
    assert_eq!(text(some(" "), some("c"), some("s")), "c");
    assert_eq!(text(None, some("\n"), some("s")), "s");
    assert_eq!(text(None, None, some(" ")), " ");
    assert_eq!(text(None, None, None), "");
}

#[test]
fn opencode_times_at_the_edges() {
    let created = |millis: &str| {
        read_opencode_header(&format!("{{\"time\":{{\"created\":{millis}}}}}"), Some("s"))
            .unwrap()
            .created_at
    };
    assert_eq!(created("0"), Some(Timestamp { secs: 0, nanos: 0 }));
    assert_eq!(created("1234"), Some(Timestamp { secs: 1, nanos: 234_000_000 }));
    assert_eq!(created("-1"), Some(Timestamp { secs: -1, nanos: 999_000_000 }));
    assert_eq!(
        created("8210266876799999"),
        Some(Timestamp { secs: 8_210_266_876_799, nanos: 999_000_000 })
    );
    assert_eq!(created("8210266876800000"), None);
    assert_eq!(
        created("-8334601228800000"),
        Some(Timestamp { secs: -8_334_601_228_800, nanos: 0 })
    );
    assert_eq!(created("-8334601228800001"), None);
    assert_eq!(created("9223372036854775807"), None);
    assert_eq!(created("9223372036854775808"), None);
    assert_eq!(created("1.5"), None);
}

#[test]
fn opencode_errors() {
    assert!(matches!(read_opencode_header("", Some("x")), Err(ImportError::Json(_))));
    assert!(matches!(
        read_opencode_header("{\"id\":\"\"}", None),
        Err(ImportError::MissingId(Agent::OpenCode))
    ));
    assert!(read_opencode_message("{").is_none());
    assert!(read_opencode_message("{}").is_none());
    assert!(read_opencode_message("{\"role\":\"system\"}").is_none());
    let files = vec![
        file("unreadable", None),
        file("other", Some("{\"id\":\"x\"}")),
        file("wanted", Some("{\"id\":\"y\"}")),
        file("late", Some("{\"id\":\"y\"}")),
    ];
    assert_eq!(find_opencode_session_file(&files, "y").unwrap(), "wanted");
    assert_eq!(
        import_opencode_session(&files, "x").unwrap(),
        ResumeTarget::OpenCodeSession { session_id: "x".to_string(), session_path: "other".to_string() }
    );
    assert!(matches!(
        find_opencode_session_file(&files, "z"),
        Err(ImportError::NotFound(Agent::OpenCode))
    ));
}

#[test]
fn claude_sessions_to_import() {
    let sessions = vec![info("a", None, "p"), info("a", None, "q"), info("b", None, "r")];
    let mut sessions = sessions;
    sessions[1].full_path = "/second.jsonl".to_string();
    assert_eq!(
        import_session(&sessions, &vec![false, true, true], "a").unwrap(),
        ResumeTarget::ClaudeCodeSession {
            session_id: "a".to_string(),
            session_path: "/second.jsonl".to_string(),
        }
    );
    let error = import_session(&sessions, &vec![true, true, false], "b").unwrap_err();
    assert_eq!(error.message("b", "").as_deref(), Some("Session b not found"));
}

#[test]
fn resume_ids_are_looked_for_in_order() {
    let next = |found: Vec<Option<&str>>| {
        import_external_resume_id(
            "id",
            &found.into_iter().map(|f| f.map(|p| p.to_string())).collect(),
        )
    };
    assert!(matches!(next(vec![]), ResumeStep::Find(Agent::Codex)));
    assert!(matches!(next(vec![None]), ResumeStep::Find(Agent::ClaudeCode)));
    assert!(matches!(next(vec![None, None]), ResumeStep::Find(Agent::OpenCode)));
    assert!(matches!(next(vec![None, None, None]), ResumeStep::Find(Agent::Pi)));
    assert!(matches!(next(vec![None, None, None, None]), ResumeStep::Nothing));
    let ResumeStep::Import(codex) = next(vec![Some("c"), Some("other")]) else {
        panic!("expected an import");
    };
    assert_eq!(
        codex,
        ResumeTarget::CodexSession { session_id: "id".to_string(), session_path: "c".to_string() }
    );
    let ResumeStep::Import(pi) = next(vec![None, None, None, Some("id")]) else {
        panic!("expected an import");
    };
    assert_eq!(pi, ResumeTarget::PiSession { session_path: "id".to_string() });
    assert_eq!(import_source(&pi), Some((Agent::Pi, "id".to_string())));
    let jcode = ResumeTarget::JcodeSession { session_id: "j".to_string() };
    assert_eq!(import_source(&jcode), None);
    assert_eq!(imported_session_id_for_target(&jcode, "x").as_deref(), Some("j"));
}

#[test]
fn continued_sessions_are_kept() {
    let transcript = read_codex_transcript(&lines(CODEX), None).unwrap();
    let session =
        import_codex_session_from_path(&transcript, &codex_texts(&transcript), "j");
    assert_eq!(session.messages.len(), 2);
    assert!(keeps_stored_session(&session, Some(3)));
    assert!(!keeps_stored_session(&session, Some(2)));
    assert!(!keeps_stored_session(&session, None));
}

#[test]
fn messages_of_errors() {
    let message = |error: ImportError| error.message("f", "Test Agent");
    assert_eq!(
        message(ImportError::EmptyFile(Agent::Codex)).as_deref(),
        Some("Codex session file is empty: f")
    );
    assert_eq!(
        message(ImportError::EmptyFile(Agent::Pi)).as_deref(),
        Some("Pi session file is empty: f")
    );
    assert_eq!(
        message(ImportError::InvalidPiHeader).as_deref(),
        Some("Invalid Pi session header in f")
    );
    assert_eq!(
        message(ImportError::MissingId(Agent::OpenCode)).as_deref(),
        Some("OpenCode session id missing in f")
    );
    assert_eq!(
        message(ImportError::NotFound(Agent::ClaudeCode)).as_deref(),
        Some("Session f not found")
    );
    let Err(json_error) = parse_json("{") else {
        panic!("expected an error");
    };
    assert_eq!(message(ImportError::Json(json_error)), None);
}

#[test]
fn blank_lines_are_no_entries() {
    assert_eq!(transcript_lines(" a \n\n  \t\r\nb"), vec![" a ", "b"]);
    assert!(transcript_lines("").is_empty());
}

#[test]
fn malformed_and_blank_lines_make_no_difference() {
    let parse = |raw: &str| {
        entries_read(
            transcript_lines(raw)
                .iter()
                .map(|line| {
                    let (kind, text) = line.split_once(": ")?;
                    Some(entry(kind, "id", text))
                })
                .collect(),
        )
    };
    let import = |entries: &[ClaudeCodeEntry]| {
        let ordered = entries.iter().collect();
        import_session_from_file(&ordered, "s", "j", &vec![], "Test Agent")
    };
    let plain = parse("user: question\nassistant: answer");
    let noisy = parse("\nbroken\nuser: question\n  \n{\nassistant: answer\nend\n\n");
    assert_eq!(noisy.len(), 2);
    let (plain, noisy) = (import(&plain), import(&noisy));
    assert_eq!(noisy.title, plain.title);
    assert_eq!(noisy.working_dir, plain.working_dir);
    assert_eq!(all_texts(&noisy), all_texts(&plain));
    assert_eq!(all_texts(&noisy), vec!["question", "answer"]);
    assert!(entries_read(vec![None, None]).is_empty());
}
