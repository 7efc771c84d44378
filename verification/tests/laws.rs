use session_import::budget::{
    take_recent_within_budget, truncate_messages_to_recent_budget, ParsedMsg,
};
use session_import::import::truncate_title;
use session_import::message::{list_prompts, ContentBlock, Role, StoredMessage};
use session_import::network_retry::{classify_message, is_local_ollama_outage_message};
use session_import::text::{
    byte_length, lines, replace, shorten, to_ascii_lowercase, trim, truncate_str,
};

fn sized(sizes: &[usize]) -> Vec<ParsedMsg> {
    sizes
        .iter()
        .map(|chars| ParsedMsg { role: Role::User, content: vec![], chars: *chars })
        .collect()
}

fn text_message(text: &str) -> StoredMessage {
    StoredMessage {
        id: None,
        role: Role::User,
        content: vec![ContentBlock::Text { text: text.to_string() }],
        timestamp: None,
    }
}

fn tool_result(text: &str) -> StoredMessage {
    StoredMessage {
        id: None,
        role: Role::User,
        content: vec![ContentBlock::ToolResult {
            tool_use_id: "t".to_string(),
            content: text.to_string(),
            is_error: None,
        }],
        timestamp: None,
    }
}

#[test]
fn longest_fitting_end_is_kept() {
    let sizes = [5, 1, 4, 2, 3];
    for budget in 0..20 {
        let (kept, dropped) = take_recent_within_budget(sized(&sizes), budget);
        let total: usize = kept.iter().map(|m| m.chars).sum();
        assert!(kept.len() == 1 || total <= budget);
        assert_eq!(kept.len() + dropped, sizes.len());
        if dropped > 0 {
            assert!(total + sizes[dropped - 1] > budget);
        }
    }
}

#[test]
fn sizes_may_add_up_to_more_than_fits_in_a_word() {
    let (kept, dropped) = take_recent_within_budget(sized(&[7, usize::MAX, 1]), 100);
    assert_eq!((kept.len(), dropped), (1, 2));
}

#[test]
fn larger_budgets_keep_more() {
    let mut last = 0;
    for budget in 0..16 {
        let (kept, _) = take_recent_within_budget(sized(&[5, 1, 4, 2, 3]), budget);
        assert!(kept.len() >= last);
        last = kept.len();
    }
    assert_eq!(last, 5);
}

#[test]
fn kept_messages_do_not_begin_with_a_tool_result() {
    let mut messages = vec![
        text_message("a long message at the front"),
        tool_result("r1"),
        tool_result("r2"),
        text_message("end"),
    ];
    assert_eq!(truncate_messages_to_recent_budget(&mut messages, 7), 3);
    assert_eq!(messages.len(), 1);
    // A single tool result stays.
    let mut only = vec![text_message("x"), tool_result("r")];
    assert_eq!(truncate_messages_to_recent_budget(&mut only, 0), 1);
    assert_eq!(only.len(), 1);
    assert_eq!(truncate_messages_to_recent_budget(&mut only, 0), 0);
}

#[test]
fn shortened_texts_are_bounded() {
    assert_eq!(shorten(&"ä".repeat(50), 20).chars().count(), 20 + 13);
    assert_eq!(shorten(&"ä".repeat(20), 20), "ä".repeat(20));
}

#[test]
fn fitting_beginnings_are_longest() {
    let s = "aä€😀b";
    for max in 0..12 {
        let fits = truncate_str(s, max);
        assert!(s.starts_with(fits) && byte_length(fits) <= max);
        if let Some(next) = s[fits.len()..].chars().next() {
            assert!(fits.len() + next.len_utf8() > max);
        }
    }
}

#[test]
fn titles_are_short_lines() {
    let long = "€".repeat(40);
    for s in ["", "a", "a\nb", long.as_str(), "\r\n"] {
        let title = truncate_title(s);
        assert!(title.len() <= 80 && !title.contains('\n'));
    }
}

#[test]
fn operations_that_change_nothing_twice() {
    for s in [" \u{2003}a b\n", "", "A Ä z"] {
        assert_eq!(trim(trim(s)), trim(s));
        let lower = to_ascii_lowercase(s);
        assert_eq!(to_ascii_lowercase(&lower), lower);
        assert_eq!(replace(s, "#", "x"), s);
        assert!(lines(s).iter().all(|line| !line.contains('\n')));
    }
}

#[test]
fn local_outages_are_interruptions() {
    let message = "LOCALHOST:11434 CONNECTION REFUSED";
    assert!(is_local_ollama_outage_message(message));
    assert!(classify_message(message).is_some());
    assert_eq!(classify_message(message), classify_message(&message.to_lowercase()));
}

#[test]
fn latest_prompts_are_listed_in_order() {
    let prompts: Vec<String> = (0..42).map(|i| i.to_string()).collect();
    let mut out = "head\n".to_string();
    list_prompts(&mut out, &prompts);
    let listed: Vec<&str> = out.lines().collect();
    assert_eq!(listed.len(), 1 + 40);
    assert_eq!((listed[0], listed[1], listed[40]), ("head", "- 2", "- 41"));
}
