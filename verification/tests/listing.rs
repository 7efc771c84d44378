use session_import::import::claude::{ClaudeCodeContent, ClaudeCodeEntry, ClaudeCodeMessage};
use session_import::import::listing::{
    claude_code_session_info_from_file, find_session_file, list_claude_code_sessions,
    list_claude_code_sessions_lazy, list_sessions_for_project, listed_title, sort_by_recency,
    ClaudeCodeSessionInfo, Located, SessionIndexEntry, SessionListing,
};
use session_import::time::Timestamp;

fn at(secs: i64) -> Option<Timestamp> {
    Some(Timestamp { secs, nanos: 0 })
}

fn info(id: &str, modified: Option<Timestamp>) -> ClaudeCodeSessionInfo {
    ClaudeCodeSessionInfo {
        session_id: id.to_string(),
        first_prompt: "p".to_string(),
        summary: None,
        message_count: 1,
        created: None,
        modified,
        project_path: None,
        full_path: format!("/{id}.jsonl"),
    }
}

fn ids(sessions: &[ClaudeCodeSessionInfo]) -> Vec<&str> {
    sessions.iter().map(|s| s.session_id.as_str()).collect()
}

fn entry(kind: &str, id: &str, text: &str, timestamp: &str) -> ClaudeCodeEntry {
    ClaudeCodeEntry {
        entry_type: kind.to_string(),
        uuid: None,
        parent_uuid: None,
        session_id: Some(id.to_string()),
        cwd: Some("/tmp/demo-project".to_string()),
        timestamp: Some(timestamp.to_string()),
        message: Some(ClaudeCodeMessage {
            role: kind.to_string(),
            content: ClaudeCodeContent::Text(text.to_string()),
            text: Some(text.to_string()),
        }),
        is_compact_summary: false,
        is_meta: false,
        is_visible_in_transcript_only: false,
    }
}

fn indexed(id: &str) -> SessionIndexEntry {
    SessionIndexEntry {
        session_id: id.to_string(),
        full_path: None,
        first_prompt: None,
        summary: None,
        message_count: None,
        created: None,
        modified: None,
        project_path: None,
        is_sidechain: None,
    }
}

#[test]
fn test_list_claude_code_sessions_uses_live_transcripts_when_index_is_stale() {
    let mut listing = SessionListing::new();
    // The index has a path where there is no transcript; the one in the project's directory counts.
    let stale = SessionIndexEntry {
        full_path: Some("/missing/live-session-1.jsonl".to_string()),
        first_prompt: Some("Investigate the login bug".to_string()),
        summary: Some("Investigate the login bug".to_string()),
        message_count: Some(2),
        created: Some("2026-04-04T12:00:00Z".to_string()),
        modified: Some("2026-04-04T12:05:00Z".to_string()),
        project_path: Some("/tmp/demo-project".to_string()),
        ..indexed("live-session-1")
    };
    assert!(listing.take_entry(&stale, Located::Unread));
    let live = vec![
        entry("user", "live-session-1", "Investigate the login bug", "2026-04-04T12:00:00Z"),
        entry("assistant", "live-session-1", "I can help with that.", "2026-04-04T12:05:00Z"),
    ];
    let live_ordered = live.iter().collect();
    assert!(listing.list_read(claude_code_session_info_from_file(
        &live,
        &live_ordered,
        "/p/live-session-1.jsonl",
        Some("live-session-1".to_string()),
        Some(&stale),
    )));
    assert!(listing.has_session("live-session-1"));
    assert!(!listing.has_session("orphan-session-2"));
    let entries = vec![
        entry("user", "orphan-session-2", "Summarize the deployment issue", "2026-04-05T09:00:00Z"),
        entry(
            "assistant",
            "orphan-session-2",
            "Here is the deployment summary.",
            "2026-04-05T09:01:00Z",
        ),
    ];
    let ordered = entries.iter().collect();
    let read = claude_code_session_info_from_file(
        &entries,
        &ordered,
        "/p/orphan-session-2.jsonl",
        Some("orphan-session-2".to_string()),
        None,
    );
    assert!(listing.list_read(read));
    let sessions = list_claude_code_sessions(listing);
    assert_eq!(ids(&sessions), vec!["orphan-session-2", "live-session-1"]);
    let indexed = &sessions[1];
    assert_eq!(indexed.full_path, "/p/live-session-1.jsonl");
    assert_eq!(indexed.summary.as_deref(), Some("Investigate the login bug"));
    assert_eq!(indexed.project_path.as_deref(), Some("/tmp/demo-project"));
    let orphan = &sessions[0];
    assert_eq!(orphan.full_path, "/p/orphan-session-2.jsonl");
    assert_eq!(orphan.first_prompt, "Summarize the deployment issue");
    assert_eq!(orphan.message_count, 2);
    assert_eq!(orphan.project_path.as_deref(), Some("/tmp/demo-project"));
    // 2026-04-05T09:00:00Z and a minute later
    assert_eq!(orphan.created, at(1_775_379_600));
    assert_eq!(orphan.modified, at(1_775_379_660));
}

#[test]
fn test_list_claude_code_sessions_skips_empty_index_entries_without_messages() {
    let entries = vec![ClaudeCodeEntry {
        message: None,
        ..entry("system", "empty-session", "", "")
    }];
    let index = SessionIndexEntry { message_count: Some(0), ..indexed("empty-session") };
    let mut listing = SessionListing::new();
    assert!(listing.take_entry(&index, Located::Unread));
    let read = claude_code_session_info_from_file(
        &entries,
        &vec![],
        "/p/empty-session.jsonl",
        Some("empty-session".to_string()),
        Some(&index),
    );
    assert_eq!(read.message_count, 0);
    assert_eq!(read.first_prompt, "No prompt");
    assert!(!listing.list_read(read));
    // The transcript is then met again among the files, as one that is not on the list.
    assert!(listing.wants_file(Some("empty-session")));
    let unindexed = claude_code_session_info_from_file(
        &entries,
        &vec![],
        "/p/empty-session.jsonl",
        Some("empty-session".to_string()),
        None,
    );
    assert_eq!(unindexed.session_id, "empty-session");
    assert_eq!((unindexed.message_count, unindexed.summary.as_deref()), (0, None));
    assert!(!listing.list_read(unindexed));
    assert!(list_claude_code_sessions(listing).is_empty());
}

#[test]
fn test_list_claude_code_sessions_uses_index_metadata_without_parsing_transcript() {
    let mut listing = SessionListing::new();
    let described = ClaudeCodeSessionInfo {
        first_prompt: "Investigate the login bug".to_string(),
        summary: Some("Investigate the login bug".to_string()),
        message_count: 2,
        ..info("indexed-session", at(1))
    };
    let needs_reading =
        listing.take_entry(&indexed("indexed-session"), Located::Described(described));
    assert!(!needs_reading);
    assert!(!listing.wants_file(Some("indexed-session")));
    let sessions = list_claude_code_sessions(listing);
    let session = &sessions[0];
    assert_eq!(session.message_count, 2);
    assert_eq!(session.summary.as_deref(), Some("Investigate the login bug"));
    assert_eq!(session.first_prompt, "Investigate the login bug");
}

#[test]
fn entries_of_an_index() {
    let sidechain = |is_sidechain| SessionIndexEntry { is_sidechain, ..indexed("x") };
    let mut listing = SessionListing::new();
    assert!(!listing.take_entry(&sidechain(Some(true)), Located::Described(info("a", None))));
    assert!(!listing.take_entry(&sidechain(Some(true)), Located::Unread));
    assert!(!listing.take_entry(&sidechain(None), Located::Nowhere));
    assert!(listing.take_entry(&sidechain(Some(false)), Located::Unread));
    assert!(!listing.take_entry(&sidechain(Some(false)), Located::Described(info("b", None))));
    assert!(listing.wants_file(Some("a")));
    assert!(!listing.wants_file(Some("b")));
    assert!(!listing.wants_file(None));
    assert_eq!(ids(&list_claude_code_sessions(listing)), vec!["b"]);
}

#[test]
fn index_comes_before_transcript() {
    let entries = vec![entry("user", "own", "typed", "2026-04-05T09:00:00Z")];
    let ordered = entries.iter().collect();
    let index = SessionIndexEntry {
        first_prompt: Some("indexed prompt".to_string()),
        summary: Some("sum".to_string()),
        message_count: Some(9),
        created: Some("1970-01-01T00:00:01Z".to_string()),
        modified: Some("not a time".to_string()),
        project_path: Some("/indexed".to_string()),
        ..indexed("from-index")
    };
    let read =
        claude_code_session_info_from_file(&entries, &ordered, "/f.jsonl", None, Some(&index));
    assert_eq!(read.session_id, "from-index");
    assert_eq!(read.first_prompt, "indexed prompt");
    assert_eq!(read.summary.as_deref(), Some("sum"));
    assert_eq!(read.message_count, 9);
    assert_eq!(read.created, at(1));
    assert_eq!(read.modified, at(1_775_379_600));
    assert_eq!(read.project_path.as_deref(), Some("/indexed"));

    let summary_only = SessionIndexEntry { summary: Some("sum".to_string()), ..indexed("i") };
    let nobody = claude_code_session_info_from_file(
        &vec![],
        &vec![],
        "/f.jsonl",
        None,
        Some(&summary_only),
    );
    assert_eq!(nobody.first_prompt, "sum");
    assert_eq!(nobody.message_count, 0);

    let by_stem = claude_code_session_info_from_file(
        &vec![],
        &vec![],
        "/f.jsonl",
        Some("f".to_string()),
        None,
    );
    assert_eq!(by_stem.session_id, "f");
    assert_eq!(by_stem.first_prompt, "No prompt");
    let by_path = claude_code_session_info_from_file(&vec![], &vec![], "/f.jsonl", None, None);
    assert_eq!(by_path.session_id, "/f.jsonl");
    let by_entry = claude_code_session_info_from_file(
        &entries,
        &ordered,
        "/f.jsonl",
        Some("f".to_string()),
        None,
    );
    assert_eq!(by_entry.session_id, "own");
    assert_eq!(by_entry.first_prompt, "typed");
}

#[test]
fn sessions_without_anything_to_show_are_left_out() {
    let mut listing = SessionListing::new();
    assert!(!listing.list_read(ClaudeCodeSessionInfo {
        first_prompt: "No prompt".to_string(),
        ..info("a", None)
    }));
    assert!(listing.list_read(ClaudeCodeSessionInfo {
        first_prompt: "No prompt".to_string(),
        summary: Some("s".to_string()),
        ..info("b", None)
    }));
    assert!(!listing.list_read(ClaudeCodeSessionInfo { message_count: 0, ..info("c", None) }));
    assert_eq!(ids(&list_claude_code_sessions(listing)), vec!["b"]);
}

#[test]
fn latest_session_comes_first() {
    let created = ClaudeCodeSessionInfo { created: at(5), ..info("created", None) };
    let sorted = sort_by_recency(vec![
        info("none-1", None),
        info("three-1", at(3)),
        created,
        info("none-2", None),
        info("three-2", at(3)),
        info("seven", at(7)),
    ]);
    assert_eq!(
        ids(&sorted),
        vec!["seven", "created", "three-1", "three-2", "none-1", "none-2"]
    );
}

#[test]
fn unread_sessions_are_listed_once_and_up_to_a_limit() {
    let mut listing = SessionListing::new();
    listing.list_indexed(info("indexed", at(10)));
    assert!(!listing.list_unread("indexed", at(99), None, "/x", "Test Agent"));
    assert!(listing.list_unread("0123456789", at(20), Some("-home-me-proj"), "/y", "Test Agent"));
    assert!(!listing.list_unread("0123456789", at(21), None, "/z", "Test Agent"));
    assert!(listing.list_unread("old", None, None, "/o", "Test Agent"));
    let sessions = list_claude_code_sessions_lazy(listing, 2);
    assert_eq!(ids(&sessions), vec!["0123456789", "indexed"]);
    let unread = &sessions[0];
    assert_eq!(unread.first_prompt, "Test Agent session 01234567");
    assert_eq!(unread.summary.as_deref(), Some("Test Agent session 01234567"));
    assert_eq!(unread.message_count, 0);
    assert_eq!(unread.created, at(20));
    assert_eq!(unread.project_path.as_deref(), Some("/home/me/proj"));
    assert_eq!(unread.full_path, "/y");
}

#[test]
fn limits_beyond_the_list() {
    let mut listing = SessionListing::new();
    listing.list_indexed(info("a", None));
    assert_eq!(list_claude_code_sessions_lazy(listing, 5).len(), 1);
    assert!(list_claude_code_sessions_lazy(SessionListing::new(), 0).is_empty());
}

#[test]
fn sessions_of_a_project() {
    let with = |id: &str, path: Option<&str>| ClaudeCodeSessionInfo {
        project_path: path.map(|p| p.to_string()),
        ..info(id, None)
    };
    let sessions = vec![
        with("a", Some("/home/demo/x")),
        with("b", None),
        with("c", Some("/other")),
        with("d", Some("demo")),
    ];
    assert_eq!(ids(&list_sessions_for_project(sessions, "demo")), vec!["a", "d"]);
}

#[test]
fn titles_and_files_of_listed_sessions() {
    let sessions = vec![
        info("a", None),
        ClaudeCodeSessionInfo { summary: Some("s".to_string()), ..info("b", None) },
    ];
    assert_eq!(listed_title(&sessions, "a").as_deref(), Some("p"));
    assert_eq!(listed_title(&sessions, "b").as_deref(), Some("s"));
    assert_eq!(listed_title(&sessions, "c"), None);
    assert_eq!(find_session_file(&sessions, &vec![true, true], "b").unwrap(), "/b.jsonl");
    assert!(find_session_file(&sessions, &vec![true, false], "b").is_err());
}
