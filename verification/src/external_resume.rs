//! Turning a transcript of `Agent::ClaudeCode` into a fresh session for the local model.
//!
//! A transcript has one JSON value per line. Only values of the types `user` and `assistant` carry
//! conversation. `isSidechain` marks the threads of subagents, `isMeta` and
//! `isVisibleInTranscriptOnly` mark lines outside the context, and `isCompactSummary` marks a
//! summary that was written when the context was compacted. The session begins with a recap: the
//! latest such summary, or else the prompts of the user. The most recent messages follow, as many
//! as fit into a budget.

use crate::budget;
use crate::budget::{take_recent_within_budget, ParsedMsg, ParsedView};
use crate::error::ImportError;
use crate::json;
use crate::json::{parse_json_lines, Json, JsonView};
use crate::message;
use crate::message::{
    content_chars, list_prompts, user_prompt, BlockView, ContentBlock, MessageView, Role, Session,
    SessionView, StoredMessage, MAX_RECAP_PROMPTS, MAX_TOOL_RESULT_CHARS,
};
use crate::order;
use crate::text;
use vstd::prelude::*;
use vstd::string::*;

verus! {

/// The budget for the recent messages, in tokens.
pub const RECENT_TOKEN_BUDGET: usize = 80_000;

/// The estimated length of a token.
pub const CHARS_PER_TOKEN: usize = 4;

/// Whether `key` is set to true.
pub open spec fn is_flagged(value: JsonView, key: Seq<char>) -> bool {
    json::bool_field(value, key) == Some(true)
}

/// Whether `key` is set to true.
pub fn flag(value: &Json, key: &str) -> (r: bool)
    ensures
        r == is_flagged(value@, key@),
{
    match value.get_bool(key) {
        Some(b) => b,
        None => false,
    }
}

/// The text of `found`, or the empty text.
pub open spec fn or_empty(found: Option<Seq<char>>) -> Seq<char> {
    match found {
        Some(text) => text,
        None => Seq::empty(),
    }
}

/// The text under `key`, or the empty text.
fn text_or_empty(value: &Json, key: &str) -> (r: String)
    ensures
        r@ == or_empty(json::text_field(value@, key@)),
{
    match value.get_str(key) {
        Some(text) => text.clone(),
        None => String::new(),
    }
}

/// The texts under the key `text` in those of `items` that have one.
pub open spec fn item_texts(items: Seq<JsonView>) -> Seq<Seq<char>>
    decreases items.len(),
{
    if items.len() == 0 {
        Seq::empty()
    } else {
        match json::text_field(items.last(), "text"@) {
            Some(text) => item_texts(items.drop_last()).push(text),
            None => item_texts(items.drop_last()),
        }
    }
}

/// The texts under the key `text` in those of `items` that have one, on lines of their own.
fn joined_item_texts(items: &Vec<Json>) -> (r: String)
    ensures
        r@ == text::joined(item_texts(json::items_view(items@)), "\n"@),
{
    let mut out: Vec<String> = Vec::new();
    let ghost views = json::items_view(items@);
    proof {
        json::lemma_items_view(items@);
    }
    for i in 0..items.len()
        invariant
            views == json::items_view(items@),
            views.len() == items@.len(),
            forall|j: int| 0 <= j < items@.len() ==> #[trigger] views[j] == items@[j]@,
            out.deep_view() =~= item_texts(views.take(i as int)),
    {
        let ghost before = out.deep_view();
        assert(views.take(i + 1).drop_last() == views.take(i as int));
        assert(views.take(i + 1).last() == items@[i as int]@);
        if let Some(text) = items[i].get_str("text") {
            out.push(text.clone());
            assert(out.deep_view() =~= before.push(text@));
        }
    }
    assert(views.take(views.len() as int) == views);
    text::join(&out, "\n")
}

/// The text of a `tool_result` block: its content is a text or an array of items with texts.
pub open spec fn result_text(block: JsonView) -> Seq<char> {
    match json::field(block, "content"@) {
        Some(JsonView::Text(s)) => s,
        Some(JsonView::Array(items)) => text::joined(item_texts(items), "\n"@),
        _ => Seq::empty(),
    }
}

/// The text of a `tool_result` block.
pub fn tool_result_text(block: &Json) -> (r: String)
    ensures
        r@ == result_text(block@),
{
    match block.get("content") {
        Some(Json::Text(s)) => s.clone(),
        Some(Json::Array(items)) => joined_item_texts(items),
        _ => String::new(),
    }
}

/// The content of the message in a line of a transcript.
pub open spec fn message_content(value: JsonView) -> Option<JsonView> {
    match json::field(value, "message"@) {
        Some(message) => json::field(message, "content"@),
        None => None,
    }
}

/// The text of a whole message.
pub open spec fn plain_text(value: JsonView) -> Option<Seq<char>> {
    match message_content(value) {
        Some(JsonView::Text(s)) => Some(s),
        Some(JsonView::Array(items)) => Some(text::joined(item_texts(items), "\n"@)),
        _ => None,
    }
}

/// The text of a whole message.
pub fn message_plain_text(value: &Json) -> (r: Option<String>)
    ensures
        r.deep_view() == plain_text(value@),
{
    match value.get("message") {
        Some(message) => match message.get("content") {
            Some(Json::Text(s)) => Some(s.clone()),
            Some(Json::Array(items)) => Some(joined_item_texts(items)),
            _ => None,
        },
        None => None,
    }
}

/// The block that a block of a transcript becomes. Reasoning, images and blocks of unknown types
/// are dropped, as are blank texts.
pub open spec fn mapped_block(block: JsonView) -> Option<BlockView> {
    let kind = or_empty(json::text_field(block, "type"@));
    if kind == "text"@ {
        match json::text_field(block, "text"@) {
            Some(text) => if text::trimmed(text).len() > 0 {
                Some(BlockView::Text { text })
            } else {
                None
            },
            None => None,
        }
    } else if kind == "tool_use"@ {
        Some(
            BlockView::ToolUse {
                id: or_empty(json::text_field(block, "id"@)),
                name: or_empty(json::text_field(block, "name"@)),
                input: match json::field(block, "input"@) {
                    Some(input) => input,
                    None => JsonView::Null,
                },
            },
        )
    } else if kind == "tool_result"@ {
        Some(
            BlockView::ToolResult {
                tool_use_id: or_empty(json::text_field(block, "tool_use_id"@)),
                content: text::shortened(result_text(block), MAX_TOOL_RESULT_CHARS as nat),
                is_error: json::bool_field(block, "is_error"@),
            },
        )
    } else {
        None
    }
}

/// The blocks that the blocks of a transcript become.
pub open spec fn mapped_blocks(blocks: Seq<JsonView>) -> Seq<BlockView>
    decreases blocks.len(),
{
    if blocks.len() == 0 {
        Seq::empty()
    } else {
        match mapped_block(blocks.last()) {
            Some(block) => mapped_blocks(blocks.drop_last()).push(block),
            None => mapped_blocks(blocks.drop_last()),
        }
    }
}

/// The blocks of the message in a line of a transcript, whose content may be a plain text.
pub open spec fn mapped_content(value: JsonView) -> Seq<BlockView> {
    match message_content(value) {
        Some(JsonView::Text(s)) => if text::trimmed(s).len() > 0 {
            seq![BlockView::Text { text: text::trimmed(s) }]
        } else {
            Seq::empty()
        },
        Some(JsonView::Array(blocks)) => mapped_blocks(blocks),
        _ => Seq::empty(),
    }
}

/// The block that a block of a transcript becomes.
fn map_block(block: &Json) -> (r: Option<ContentBlock>)
    ensures
        r.deep_view() == mapped_block(block@),
{
    let kind = text_or_empty(block, "type");
    if text::same_text(kind.as_str(), "text") {
        match block.get_str("text") {
            Some(text) => {
                if text::trim(text.as_str()).is_empty() {
                    None
                } else {
                    Some(ContentBlock::Text { text: text.clone() })
                }
            },
            None => None,
        }
    } else if text::same_text(kind.as_str(), "tool_use") {
        let input = match block.get("input") {
            Some(input) => input.duplicate(),
            None => Json::Null,
        };
        Some(
            ContentBlock::ToolUse {
                id: text_or_empty(block, "id"),
                name: text_or_empty(block, "name"),
                input,
            },
        )
    } else if text::same_text(kind.as_str(), "tool_result") {
        let full = tool_result_text(block);
        Some(
            ContentBlock::ToolResult {
                tool_use_id: text_or_empty(block, "tool_use_id"),
                content: truncate(full.as_str(), MAX_TOOL_RESULT_CHARS),
                is_error: block.get_bool("is_error"),
            },
        )
    } else {
        None
    }
}

/// The blocks of the message in a line of a transcript.
pub fn map_content(value: &Json) -> (r: Vec<ContentBlock>)
    ensures
        r.deep_view() == mapped_content(value@),
{
    let mut out: Vec<ContentBlock> = Vec::new();
    let content = match value.get("message") {
        Some(message) => message.get("content"),
        None => None,
    };
    match content {
        Some(Json::Text(s)) => {
            let text = text::trim(s.as_str());
            if !text.is_empty() {
                out.push(ContentBlock::Text { text: text.to_owned() });
            }
            assert(out.deep_view() =~= mapped_content(value@));
        },
        Some(Json::Array(blocks)) => {
            let ghost views = json::items_view(blocks@);
            proof {
                json::lemma_items_view(blocks@);
            }
            for i in 0..blocks.len()
                invariant
                    views == json::items_view(blocks@),
                    views.len() == blocks@.len(),
                    forall|j: int| 0 <= j < blocks@.len() ==> #[trigger] views[j] == blocks@[j]@,
                    out.deep_view() =~= mapped_blocks(views.take(i as int)),
            {
                let ghost before = out.deep_view();
                assert(views.take(i + 1).drop_last() == views.take(i as int));
                assert(views.take(i + 1).last() == blocks@[i as int]@);
                if let Some(block) = map_block(&blocks[i]) {
                    out.push(block);
                    assert(out.deep_view() =~= before.push(block@));
                }
            }
            assert(views.take(views.len() as int) == views);
        },
        _ => {
            assert(out.deep_view() =~= mapped_content(value@));
        },
    }
    out
}

/// `s`, or its first `max` characters and a mark that something was cut off.
pub fn truncate(s: &str, max: usize) -> (r: String)
    ensures
        r@ == text::shortened(s@, max as nat),
{
    text::shorten(s, max)
}

/// The recap of a session: the summary, if it is not blank, or else a list of the last prompts.
pub open spec fn recap_of(summary: Option<Seq<char>>, prompts: Seq<Seq<char>>) -> Seq<char> {
    if summary is Some && text::trimmed(summary->0).len() > 0 {
        text::trimmed(summary->0)
    } else if prompts.len() == 0 {
        "(no recoverable summary; continue from the recent context below)"@
    } else {
        "Conversation thread (user requests, oldest→newest):\n"@ + message::prompt_list(
            message::last_of(prompts, MAX_RECAP_PROMPTS as nat),
        )
    }
}

/// The recap of a session: the summary, if it is not blank, or else a list of the last prompts.
pub fn build_recap(summary: Option<&str>, prompts: &Vec<String>) -> (r: String)
    ensures
        r@ == recap_of(
            match summary {
                Some(s) => Some(s@),
                None => None,
            },
            prompts.deep_view(),
        ),
{
    if let Some(s) = summary {
        let s = text::trim(s);
        if !s.is_empty() {
            return s.to_owned();
        }
    }
    if prompts.len() == 0 {
        return "(no recoverable summary; continue from the recent context below)".to_owned();
    }
    let mut out = "Conversation thread (user requests, oldest→newest):\n".to_owned();
    list_prompts(&mut out, prompts);
    out
}

/// The title that a line of a transcript gives to the session.
pub open spec fn title_in(value: JsonView) -> Option<Seq<char>> {
    match json::text_field(value, "aiTitle"@) {
        Some(title) => Some(title),
        None => json::text_field(value, "slug"@),
    }
}

/// Whether a line of a transcript is of a type that carries conversation.
pub open spec fn is_conversation(value: JsonView) -> bool {
    let kind = or_empty(json::text_field(value, "type"@));
    kind == "user"@ || kind == "assistant"@
}

/// The summary in a line of a transcript.
pub open spec fn summary_in(value: JsonView) -> Option<Seq<char>> {
    let text = plain_text(value);
    if is_conversation(value) && is_flagged(value, "isCompactSummary"@) && text is Some
        && text::trimmed(text->0).len() > 0 {
        text
    } else {
        None
    }
}

/// The message in a line of a transcript, if the line is part of the context and has content.
pub open spec fn message_in(value: JsonView) -> Option<ParsedView> {
    let content = mapped_content(value);
    if is_conversation(value) && !is_flagged(value, "isCompactSummary"@) && !is_flagged(
        value,
        "isSidechain"@,
    ) && !is_flagged(value, "isMeta"@) && !is_flagged(value, "isVisibleInTranscriptOnly"@)
        && content.len() > 0 {
        Some(
            ParsedView {
                role: if or_empty(json::text_field(value, "type"@)) == "assistant"@ {
                    Role::Assistant
                } else {
                    Role::User
                },
                content,
                chars: message::capped(message::content_size(content)),
            },
        )
    } else {
        None
    }
}

/// The first title in the lines of a transcript.
pub open spec fn first_title(values: Seq<JsonView>) -> Option<Seq<char>>
    decreases values.len(),
{
    if values.len() == 0 {
        None
    } else if first_title(values.drop_last()) is Some {
        first_title(values.drop_last())
    } else {
        title_in(values.last())
    }
}

/// The first working directory in the lines of a transcript.
pub open spec fn first_cwd(values: Seq<JsonView>) -> Option<Seq<char>>
    decreases values.len(),
{
    if values.len() == 0 {
        None
    } else if first_cwd(values.drop_last()) is Some {
        first_cwd(values.drop_last())
    } else {
        json::text_field(values.last(), "cwd"@)
    }
}

/// The last summary in the lines of a transcript.
pub open spec fn last_summary(values: Seq<JsonView>) -> Option<Seq<char>>
    decreases values.len(),
{
    if values.len() == 0 {
        None
    } else if summary_in(values.last()) is Some {
        summary_in(values.last())
    } else {
        last_summary(values.drop_last())
    }
}

/// The messages in the lines of a transcript.
pub open spec fn messages_in(values: Seq<JsonView>) -> Seq<ParsedView>
    decreases values.len(),
{
    if values.len() == 0 {
        Seq::empty()
    } else {
        match message_in(values.last()) {
            Some(message) => messages_in(values.drop_last()).push(message),
            None => messages_in(values.drop_last()),
        }
    }
}

/// The prompts of the user among the messages of a transcript.
pub open spec fn prompts_in(messages: Seq<ParsedView>) -> Seq<Seq<char>>
    decreases messages.len(),
{
    if messages.len() == 0 {
        Seq::empty()
    } else {
        match message::prompt_in(messages.last().role, messages.last().content) {
            Some(prompt) => prompts_in(messages.drop_last()).push(prompt),
            None => prompts_in(messages.drop_last()),
        }
    }
}

/// What a transcript holds.
pub struct Transcript {
    pub title: Option<String>,
    pub cwd: Option<String>,
    pub compact_summary: Option<String>,
    pub user_prompts: Vec<String>,
    pub parsed: Vec<ParsedMsg>,
}

/// The title that a line of a transcript gives to the session.
fn read_title(value: &Json) -> (r: Option<String>)
    ensures
        r.deep_view() == title_in(value@),
{
    match value.get_str("aiTitle") {
        Some(title) => Some(title.clone()),
        None => match value.get_str("slug") {
            Some(slug) => Some(slug.clone()),
            None => None,
        },
    }
}

/// The summary in a line of a transcript.
fn read_summary(value: &Json) -> (r: Option<String>)
    ensures
        r.deep_view() == summary_in(value@),
{
    let kind = text_or_empty(value, "type");
    let conversation = text::same_text(kind.as_str(), "user") || text::same_text(
        kind.as_str(),
        "assistant",
    );
    if !conversation || !flag(value, "isCompactSummary") {
        return None;
    }
    match message_plain_text(value) {
        Some(text) => {
            if text::trim(text.as_str()).is_empty() {
                None
            } else {
                Some(text)
            }
        },
        None => None,
    }
}

/// The message in a line of a transcript, if the line is part of the context and has content.
fn read_message(value: &Json) -> (r: Option<ParsedMsg>)
    ensures
        r.deep_view() == message_in(value@),
{
    let kind = text_or_empty(value, "type");
    let assistant = text::same_text(kind.as_str(), "assistant");
    if !assistant && !text::same_text(kind.as_str(), "user") {
        return None;
    }
    if flag(value, "isCompactSummary") || flag(value, "isSidechain") || flag(value, "isMeta")
        || flag(value, "isVisibleInTranscriptOnly") {
        return None;
    }
    let content = map_content(value);
    if content.len() == 0 {
        return None;
    }
    let role = if assistant {
        Role::Assistant
    } else {
        Role::User
    };
    let chars = content_chars(&content);
    Some(ParsedMsg { role, content, chars })
}

/// Reads the lines of a transcript.
pub fn read_transcript(values: &Vec<Json>) -> (r: Transcript)
    ensures
        r.title.deep_view() == first_title(json::items_view(values@)),
        r.cwd.deep_view() == first_cwd(json::items_view(values@)),
        r.compact_summary.deep_view() == last_summary(json::items_view(values@)),
        r.parsed.deep_view() == messages_in(json::items_view(values@)),
        r.user_prompts.deep_view() == prompts_in(messages_in(json::items_view(values@))),
{
    let mut title: Option<String> = None;
    let mut cwd: Option<String> = None;
    let mut compact_summary: Option<String> = None;
    let mut user_prompts: Vec<String> = Vec::new();
    let mut parsed: Vec<ParsedMsg> = Vec::new();
    let ghost views = json::items_view(values@);
    proof {
        json::lemma_items_view(values@);
    }
    for i in 0..values.len()
        invariant
            views == json::items_view(values@),
            views.len() == values@.len(),
            forall|j: int| 0 <= j < values@.len() ==> #[trigger] views[j] == values@[j]@,
            title.deep_view() == first_title(views.take(i as int)),
            cwd.deep_view() == first_cwd(views.take(i as int)),
            compact_summary.deep_view() == last_summary(views.take(i as int)),
            parsed.deep_view() =~= messages_in(views.take(i as int)),
            user_prompts.deep_view() =~= prompts_in(messages_in(views.take(i as int))),
    {
        let value = &values[i];
        assert(views.take(i + 1).drop_last() == views.take(i as int));
        assert(views.take(i + 1).last() == value@);
        if title.is_none() {
            title = read_title(value);
        }
        if cwd.is_none() {
            cwd = match value.get_str("cwd") {
                Some(dir) => Some(dir.clone()),
                None => None,
            };
        }
        if let Some(summary) = read_summary(value) {
            compact_summary = Some(summary);
        }
        if let Some(message) = read_message(value) {
            let ghost prompts_before = user_prompts.deep_view();
            let ghost parsed_before = parsed.deep_view();
            if let Some(prompt) = user_prompt(message.role, &message.content) {
                user_prompts.push(prompt);
                assert(user_prompts.deep_view() =~= prompts_before.push(prompt@));
            }
            parsed.push(message);
            assert(parsed.deep_view() =~= parsed_before.push(message@));
            assert(parsed.deep_view().drop_last() =~= parsed_before);
        }
    }
    assert(views.take(views.len() as int) == views);
    Transcript { title, cwd, compact_summary, user_prompts, parsed }
}

/// The note that tells how many messages were left out.
pub open spec fn omitted_note(dropped: nat) -> Seq<char> {
    if dropped > 0 {
        "\n\n("@ + text::decimal_of(dropped)
            + " older message(s) omitted to fit the context budget; they are covered by the recap above.)"@
    } else {
        Seq::empty()
    }
}

/// What stands before the recap in the first message of a resumed session.
pub open spec fn header_before_recap(title: Seq<char>, agent: Seq<char>) -> Seq<char> {
    "[Imported from "@ + agent + " · "@ + title
        + "]\n\nYou are continuing a conversation that was started in "@ + agent
        + ". Recap of the work so far:\n\n"@
}

/// The text of the first message of a resumed session.
pub open spec fn resume_header(
    title: Seq<char>,
    recap: Seq<char>,
    dropped: nat,
    agent: Seq<char>,
) -> Seq<char> {
    header_before_recap(title, agent)
        + recap + omitted_note(dropped) + "\n\n--- recent conversation context below ---"@
}

/// The title of a session, or the one for a transcript without any.
pub open spec fn title_or_default(title: Option<Seq<char>>, agent: Seq<char>) -> Seq<char> {
    match title {
        Some(t) => t,
        None => "Imported "@ + agent + " session"@,
    }
}

/// A message with a role and content, and nothing else known of it.
pub open spec fn bare_message(role: Role, content: Seq<BlockView>) -> MessageView {
    MessageView { id: None, role, content, timestamp: None }
}

/// The session that a transcript with the given lines is resumed as.
pub open spec fn resumed_session(values: Seq<JsonView>, agent: Seq<char>) -> SessionView {
    let parsed = messages_in(values);
    let dropped = budget::recent_start(
        budget::parsed_sizes(parsed),
        (RECENT_TOKEN_BUDGET * CHARS_PER_TOKEN) as nat,
    );
    let recent = parsed.skip(dropped as int);
    let title = title_or_default(first_title(values), agent);
    let recap = recap_of(last_summary(values), prompts_in(parsed));
    SessionView {
        id: None,
        title: Some("↩ "@ + title),
        provider_session_id: None,
        provider_key: Some("ollama-local"@),
        model: Some("gemma4:12b"@),
        working_dir: first_cwd(values),
        created_at: None,
        updated_at: None,
        last_active_at: None,
        status: None,
        messages: seq![
            bare_message(
                Role::User,
                seq![BlockView::Text { text: resume_header(title, recap, dropped, agent) }],
            ),
        ] + Seq::new(recent.len(), |i: int| bare_message(recent[i].role, recent[i].content)),
    }
}

/// The text of the first message of a resumed session.
fn build_header(title: &str, recap: &str, dropped: usize, agent: &str) -> (r: String)
    ensures
        r@ == resume_header(title@, recap@, dropped as nat, agent@),
{
    let mut header = "[Imported from ".to_owned();
    header.append(agent);
    header.append(" · ");
    header.append(title);
    header.append("]\n\nYou are continuing a conversation that was started in ");
    header.append(agent);
    header.append(". Recap of the work so far:\n\n");
    header.append(recap);
    let mut note = String::new();
    if dropped > 0 {
        note.append("\n\n(");
        let count = text::decimal(dropped);
        note.append(count.as_str());
        note.append(
            " older message(s) omitted to fit the context budget; they are covered by the recap above.)",
        );
    }
    assert(note@ =~= omitted_note(dropped as nat));
    header.append(note.as_str());
    header.append("\n\n--- recent conversation context below ---");
    header
}

/// Turns the lines of a transcript into a session for the local model. `agent` is the name of the
/// agent that it is from.
pub fn resume_session(values: &Vec<Json>, agent: &str) -> (r: Result<Session, ImportError>)
    ensures
        match r {
            Ok(session) => messages_in(json::items_view(values@)).len() > 0 && session@
                == resumed_session(json::items_view(values@), agent@),
            Err(error) => messages_in(json::items_view(values@)).len() == 0
                && error is NoConversation,
        },
{
    let transcript = read_transcript(values);
    let ghost views = json::items_view(values@);
    let ghost all = messages_in(views);
    if transcript.parsed.len() == 0 {
        return Err(ImportError::NoConversation);
    }
    let recap = match &transcript.compact_summary {
        Some(summary) => build_recap(Some(summary.as_str()), &transcript.user_prompts),
        None => build_recap(None, &transcript.user_prompts),
    };
    let (recent, dropped) = take_recent_within_budget(
        transcript.parsed,
        RECENT_TOKEN_BUDGET * CHARS_PER_TOKEN,
    );
    let title = match transcript.title {
        Some(title) => title,
        None => "Imported ".to_owned().concat(agent).concat(" session"),
    };
    let header = build_header(title.as_str(), recap.as_str(), dropped, agent);
    let mut messages: Vec<StoredMessage> = Vec::new();
    let mut first: Vec<ContentBlock> = Vec::new();
    first.push(ContentBlock::Text { text: header });
    messages.push(StoredMessage { id: None, role: Role::User, content: first, timestamp: None });
    let ghost kept = recent.deep_view();
    let ghost expected = resumed_session(views, agent@).messages;
    assert(messages.deep_view() =~= expected.take(1)) by {
        assert(first.deep_view() =~= seq![BlockView::Text { text: header@ }]);
    }
    for m in it: recent
        invariant
            it.seq().len() == kept.len(),
            forall|i: int| 0 <= i < kept.len() ==> (#[trigger] it.seq()[i])@ == kept[i],
            expected.len() == kept.len() + 1,
            forall|i: int|
                0 <= i < kept.len() ==> #[trigger] expected[i + 1] == bare_message(
                    kept[i].role,
                    kept[i].content,
                ),
            messages.deep_view() == expected.take(it.index() + 1),
    {
        let ghost k = it.index();
        let ghost before = messages.deep_view();
        assert(m@ == kept[k]);
        assert(expected[k + 1] == bare_message(m@.role, m@.content));
        messages.push(
            StoredMessage { id: None, role: m.role, content: m.content, timestamp: None },
        );
        assert(messages.deep_view() =~= before.push(expected[k + 1]));
        assert(expected.take(k + 2) =~= expected.take(k + 1).push(expected[k + 1]));
    }
    assert(expected.take(expected.len() as int) == expected);
    Ok(
        Session {
            id: None,
            title: Some("↩ ".to_owned().concat(title.as_str())),
            provider_session_id: None,
            provider_key: Some("ollama-local".to_owned()),
            model: Some("gemma4:12b".to_owned()),
            working_dir: transcript.cwd,
            created_at: None,
            updated_at: None,
            last_active_at: None,
            status: None,
            messages,
        },
    )
}

/// Reads the lines of `raw` as JSON. Lines that are blank or not JSON are skipped.
pub fn parse_lines(raw: &str) -> (r: Vec<Json>)
    ensures
        json::items_view(r@) == json::parsed_lines(text::lines_of(raw@)),
{
    let lines = text::lines(raw);
    assert(lines.deep_view().skip(0) == lines.deep_view());
    parse_json_lines(&lines, 0)
}

/// Turns a transcript into a session for the local model. `agent` is the name of the agent that it
/// is from.
pub fn import_claude_session(raw: &str, agent: &str) -> (r: Result<Session, ImportError>)
    ensures
        ({
            let values = json::parsed_lines(text::lines_of(raw@));
            match r {
                Ok(session) => messages_in(values).len() > 0 && session@ == resumed_session(
                    values,
                    agent@,
                ),
                Err(error) => messages_in(values).len() == 0 && error is NoConversation,
            }
        }),
{
    let values = parse_lines(raw);
    resume_session(&values, agent)
}

/// A block of any other type than `text`, `tool_use` and `tool_result`, such as one of reasoning,
/// makes no difference.
pub proof fn reasoning_is_dropped(before: Seq<JsonView>, block: JsonView, after: Seq<JsonView>)
    requires
        json::text_field(block, "type"@) != Some("text"@),
        json::text_field(block, "type"@) != Some("tool_use"@),
        json::text_field(block, "type"@) != Some("tool_result"@),
    ensures
        mapped_blocks(before + seq![block] + after) == mapped_blocks(before + after),
    decreases after.len(),
{
    let with = before + seq![block] + after;
    let without = before + after;
    reveal_strlit("text");
    reveal_strlit("tool_use");
    reveal_strlit("tool_result");
    assert("text"@.len() == 4 && "tool_use"@.len() == 8 && "tool_result"@.len() == 11);
    if after.len() == 0 {
        assert(with.drop_last() == without);
        assert(mapped_block(block) is None);
    } else {
        reasoning_is_dropped(before, block, after.drop_last());
        assert(with.drop_last() == before + seq![block] + after.drop_last());
        assert(without.drop_last() == before + after.drop_last());
        assert(with.last() == after.last() && without.last() == after.last());
    }
}

/// Every block is a text or a tool call, or a tool result of bounded length.
proof fn lemma_mapped_blocks(blocks: Seq<JsonView>)
    ensures
        message::all_imported(mapped_blocks(blocks)),
    decreases blocks.len(),
{
    if blocks.len() > 0 {
        lemma_mapped_blocks(blocks.drop_last());
        text::shortened_is_bounded(result_text(blocks.last()), MAX_TOOL_RESULT_CHARS as nat);
    }
}

/// Every block of a message is a text or a tool call, or a tool result of bounded length.
pub proof fn mapped_content_is_bounded(value: JsonView)
    ensures
        message::all_imported(mapped_content(value)),
{
    if let Some(JsonView::Array(blocks)) = message_content(value) {
        lemma_mapped_blocks(blocks);
    }
}

/// A line that is not conversation, that belongs to a subagent, that is outside the context or that
/// is a summary gives no message.
pub proof fn only_context_is_imported(value: JsonView)
    requires
        !is_conversation(value) || is_flagged(value, "isSidechain"@) || is_flagged(
            value,
            "isMeta"@,
        ) || is_flagged(value, "isVisibleInTranscriptOnly"@) || is_flagged(
            value,
            "isCompactSummary"@,
        ),
    ensures
        message_in(value) is None,
{
}

/// A summary counts although it is outside the context, and the latest one does.
pub proof fn latest_summary_counts(values: Seq<JsonView>, i: int)
    requires
        0 <= i < values.len(),
        summary_in(values[i]) is Some,
        forall|j: int| i < j < values.len() ==> summary_in(#[trigger] values[j]) is None,
    ensures
        last_summary(values) == summary_in(values[i]),
    decreases values.len(),
{
    if i < values.len() - 1 {
        assert(summary_in(values[values.len() - 1]) is None);
        assert(values.drop_last()[i] == values[i]);
        assert forall|j: int| i < j < values.drop_last().len() implies summary_in(
            #[trigger] values.drop_last()[j],
        ) is None by {
            assert(values.drop_last()[j] == values[j]);
        }
        latest_summary_counts(values.drop_last(), i);
    }
}

/// A summary that is not blank is the recap, whatever the prompts are.
pub proof fn summary_is_the_recap(summary: Seq<char>, prompts: Seq<Seq<char>>)
    requires
        text::trimmed(summary).len() > 0,
    ensures
        recap_of(Some(summary), prompts) == text::trimmed(summary),
{
}

/// Without a summary the recap shows each of the last `MAX_RECAP_PROMPTS` prompts.
pub proof fn recap_shows_prompts(prompts: Seq<Seq<char>>, i: int)
    requires
        0 <= i < prompts.len(),
        prompts.len() - i <= MAX_RECAP_PROMPTS,
    ensures
        text::has_text(recap_of(None, prompts), prompts[i]),
{
    let listed = message::last_of(prompts, MAX_RECAP_PROMPTS as nat);
    let k = i - (prompts.len() - listed.len());
    message::latest_prompts_are_listed(prompts, MAX_RECAP_PROMPTS as nat);
    assert(listed[k] == prompts[i]);
    message::listed_prompt_is_shown(listed, k);
    let head = "Conversation thread (user requests, oldest→newest):\n"@;
    text::lemma_has_text_around(head, message::prompt_list(listed), Seq::empty(), prompts[i]);
    assert(head + message::prompt_list(listed) + Seq::empty() == recap_of(None, prompts));
}

/// A resumed session begins with a message of the user that holds the recap, and goes on with the
/// most recent messages, the last of them included, as many as fit into the budget.
pub proof fn resumed_session_is_recap_and_recent(values: Seq<JsonView>, agent: Seq<char>)
    requires
        messages_in(values).len() > 0,
    ensures
        ({
            let session = resumed_session(values, agent);
            let parsed = messages_in(values);
            let kept = session.messages.len() - 1;
            let recap = recap_of(last_summary(values), prompts_in(parsed));
            &&& 1 <= kept <= parsed.len()
            &&& session.messages[0].role == Role::User
            &&& session.messages[0].content.len() == 1
            &&& session.messages[0].content[0] matches BlockView::Text { text: header }
            &&& text::has_text(header, recap)
            &&& forall|i: int|
                0 <= i < kept ==> #[trigger] session.messages[i + 1] == bare_message(
                    parsed[parsed.len() - kept + i].role,
                    parsed[parsed.len() - kept + i].content,
                )
            &&& kept == 1 || message::capped(
                budget::total(budget::parsed_sizes(parsed).skip(parsed.len() - kept)),
            ) <= RECENT_TOKEN_BUDGET * CHARS_PER_TOKEN
        }),
{
    let parsed = messages_in(values);
    let sizes = budget::parsed_sizes(parsed);
    let limit = (RECENT_TOKEN_BUDGET * CHARS_PER_TOKEN) as nat;
    let dropped = budget::recent_start(sizes, limit);
    budget::recent_is_longest_fitting(sizes, limit);
    let title = title_or_default(first_title(values), agent);
    let recap = recap_of(last_summary(values), prompts_in(parsed));
    let before = header_before_recap(title, agent);
    let after = omitted_note(dropped) + "\n\n--- recent conversation context below ---"@;
    text::lemma_has_itself(recap);
    text::lemma_has_text_around(before, recap, after, recap);
    assert(before + recap + after == resume_header(title, recap, dropped, agent));
}

/// Whether a line is part of the context: the user or the assistant says it, and nothing marks it
/// as a summary, as one of a subagent or as one outside the context.
pub open spec fn is_context_line(value: JsonView) -> bool {
    &&& json::text_field(value, "type"@) == Some("user"@) || json::text_field(value, "type"@)
        == Some("assistant"@)
    &&& json::bool_field(value, "isCompactSummary"@) != Some(true)
    &&& json::bool_field(value, "isSidechain"@) != Some(true)
    &&& json::bool_field(value, "isMeta"@) != Some(true)
    &&& json::bool_field(value, "isVisibleInTranscriptOnly"@) != Some(true)
}

/// Whether a block is one to keep: a text that is not blank, a tool call or a tool result.
pub open spec fn is_block_to_keep(block: JsonView) -> bool {
    ||| json::text_field(block, "type"@) == Some("text"@) && (json::text_field(block, "text"@)
        matches Some(text) && text::trimmed(text).len() > 0)
    ||| json::text_field(block, "type"@) == Some("tool_use"@)
    ||| json::text_field(block, "type"@) == Some("tool_result"@)
}

/// The literals that tell types apart are different and not empty.
proof fn lemma_kinds()
    ensures
        "user"@ != "assistant"@,
        "user"@.len() > 0 && "assistant"@.len() > 0,
        "text"@ != "tool_use"@ && "text"@ != "tool_result"@ && "tool_use"@ != "tool_result"@,
        "text"@.len() > 0 && "tool_use"@.len() > 0 && "tool_result"@.len() > 0,
{
    reveal_strlit("user");
    reveal_strlit("assistant");
    reveal_strlit("text");
    reveal_strlit("tool_use");
    reveal_strlit("tool_result");
    assert("user"@.len() == 4 && "assistant"@.len() == 9);
    assert("text"@.len() == 4 && "tool_use"@.len() == 8 && "tool_result"@.len() == 11);
}

/// Every line of the context that has content gives a message with all of that content and with the
/// role of its type, and no other line does.
pub proof fn context_line_gives_its_message(value: JsonView)
    ensures
        message_in(value) is Some <==> is_context_line(value) && mapped_content(value).len() > 0,
        message_in(value) matches Some(message) ==> message.content == mapped_content(value)
            && message.chars == message::capped(message::content_size(mapped_content(value))) && (
        json::text_field(value, "type"@) == Some("user"@) ==> message.role == Role::User) && (
        json::text_field(value, "type"@) == Some("assistant"@) ==> message.role
            == Role::Assistant),
{
    lemma_kinds();
}

/// The messages of a transcript are those of its lines of the context that have content, in the
/// order of the lines: the message at each place is that of the line at the index given for it.
pub proof fn messages_line_by_line(values: Seq<JsonView>) -> (at: Seq<int>)
    ensures
        order::indices_in_order(at, values.len()),
        at.len() == messages_in(values).len(),
        forall|k: int|
            0 <= k < at.len() ==> {
                let value = values[#[trigger] at[k]];
                let message = messages_in(values)[k];
                &&& is_context_line(value)
                &&& mapped_content(value).len() > 0
                &&& message.content == mapped_content(value)
                &&& message.role == if json::text_field(value, "type"@) == Some("assistant"@) {
                    Role::Assistant
                } else {
                    Role::User
                }
                &&& message.chars == message::capped(message::content_size(message.content))
            },
        forall|i: int|
            0 <= i < values.len() && is_context_line(#[trigger] values[i]) && mapped_content(
                values[i],
            ).len() > 0 ==> at.contains(i),
    decreases values.len(),
{
    if values.len() == 0 {
        Seq::empty()
    } else {
        let rest = values.drop_last();
        let before = messages_line_by_line(rest);
        let last = values.len() - 1;
        context_line_gives_its_message(values.last());
        lemma_kinds();
        order::lemma_one_more_index(before, rest.len());
        let at = if message_in(values.last()) is Some {
            before.push(last)
        } else {
            before
        };
        assert forall|k: int| 0 <= k < at.len() implies {
            let value = values[#[trigger] at[k]];
            let message = messages_in(values)[k];
            &&& is_context_line(value)
            &&& mapped_content(value).len() > 0
            &&& message.content == mapped_content(value)
            &&& message.role == if json::text_field(value, "type"@) == Some("assistant"@) {
                Role::Assistant
            } else {
                Role::User
            }
            &&& message.chars == message::capped(message::content_size(message.content))
        } by {
            if k < before.len() {
                assert(before[k] == at[k]);
                assert(rest[before[k]] == values[at[k]]);
            }
        }
        assert forall|i: int|
            0 <= i < values.len() && is_context_line(#[trigger] values[i]) && mapped_content(
                values[i],
            ).len() > 0 implies at.contains(i) by {
            if i < last {
                assert(rest[i] == values[i]);
            }
        }
        at
    }
}

/// Where the content of a message is a plain text, its only block is that text without the white
/// space at its ends, and a blank text gives none.
pub proof fn plain_content_is_one_text(value: JsonView, message: JsonView, content: Seq<char>)
    requires
        json::field(value, "message"@) == Some(message),
        json::field(message, "content"@) == Some(JsonView::Text(content)),
    ensures
        text::trimmed(content).len() > 0 ==> mapped_content(value) == seq![
            BlockView::Text { text: text::trimmed(content) },
        ],
        text::trimmed(content).len() == 0 ==> mapped_content(value).len() == 0,
        plain_text(value) == Some(content),
{
}

/// Where the content of a message is neither a text nor an array, or there is none, there are no
/// blocks.
pub proof fn other_content_has_no_blocks(value: JsonView)
    requires
        json::field(value, "message"@) matches Some(message) ==> (json::field(message, "content"@)
            matches Some(content) ==> content !is Text && content !is Array),
    ensures
        mapped_content(value).len() == 0,
        plain_text(value) is None,
{
}

/// The blocks of blocks, by the index of each.
proof fn lemma_blocks_by_index(blocks: Seq<JsonView>) -> (at: Seq<int>)
    ensures
        order::indices_in_order(at, blocks.len()),
        at.len() == mapped_blocks(blocks).len(),
        forall|k: int|
            0 <= k < at.len() ==> is_block_to_keep(blocks[#[trigger] at[k]]) && mapped_block(
                blocks[at[k]],
            ) == Some(mapped_blocks(blocks)[k]),
        forall|j: int|
            0 <= j < blocks.len() && is_block_to_keep(#[trigger] blocks[j]) ==> at.contains(j),
    decreases blocks.len(),
{
    if blocks.len() == 0 {
        Seq::empty()
    } else {
        let rest = blocks.drop_last();
        let before = lemma_blocks_by_index(rest);
        let last = blocks.len() - 1;
        lemma_kinds();
        order::lemma_one_more_index(before, rest.len());
        let at = if mapped_block(blocks.last()) is Some {
            before.push(last)
        } else {
            before
        };
        assert forall|k: int| 0 <= k < at.len() implies is_block_to_keep(
            blocks[#[trigger] at[k]],
        ) && mapped_block(blocks[at[k]]) == Some(mapped_blocks(blocks)[k]) by {
            if k < before.len() {
                assert(before[k] == at[k]);
                assert(rest[before[k]] == blocks[at[k]]);
            }
        }
        assert forall|j: int|
            0 <= j < blocks.len() && is_block_to_keep(#[trigger] blocks[j]) implies at.contains(
            j,
        ) by {
            if j < last {
                assert(rest[j] == blocks[j]);
            }
        }
        at
    }
}

/// Where the content of a message is an array, its blocks are those of the items to keep, in their
/// order: a text whole, a tool call with its id, name and input, and a tool result with the id of
/// its call, its text and whether it is an error.
pub proof fn content_block_by_block(
    value: JsonView,
    message: JsonView,
    blocks: Seq<JsonView>,
) -> (at: Seq<int>)
    requires
        json::field(value, "message"@) == Some(message),
        json::field(message, "content"@) == Some(JsonView::Array(blocks)),
    ensures
        order::indices_in_order(at, blocks.len()),
        at.len() == mapped_content(value).len(),
        forall|j: int|
            0 <= j < blocks.len() && is_block_to_keep(#[trigger] blocks[j]) ==> at.contains(j),
        forall|k: int|
            0 <= k < at.len() ==> {
                let item = blocks[#[trigger] at[k]];
                match mapped_content(value)[k] {
                    BlockView::Text { text } => json::text_field(item, "type"@) == Some("text"@)
                        && json::text_field(item, "text"@) == Some(text) && text::trimmed(
                        text,
                    ).len() > 0,
                    BlockView::ToolUse { id, name, input } => {
                        &&& json::text_field(item, "type"@) == Some("tool_use"@)
                        &&& match json::text_field(item, "id"@) {
                            Some(given) => id == given,
                            None => id.len() == 0,
                        }
                        &&& match json::text_field(item, "name"@) {
                            Some(given) => name == given,
                            None => name.len() == 0,
                        }
                        &&& match json::field(item, "input"@) {
                            Some(given) => input == given,
                            None => input == JsonView::Null,
                        }
                    },
                    BlockView::ToolResult { tool_use_id, content, is_error } => {
                        &&& json::text_field(item, "type"@) == Some("tool_result"@)
                        &&& match json::text_field(item, "tool_use_id"@) {
                            Some(given) => tool_use_id == given,
                            None => tool_use_id.len() == 0,
                        }
                        &&& is_error == json::bool_field(item, "is_error"@)
                        &&& result_text(item).len() <= 3_000 ==> content == result_text(item)
                        &&& result_text(item).len() > 3_000 ==> content == result_text(item).take(
                            3_000,
                        ) + " …[truncated]"@
                    },
                    BlockView::Other => false,
                }
            },
{
    lemma_kinds();
    lemma_blocks_by_index(blocks)
}

/// The text of a tool result is its content, or the texts in its content on lines of their own.
pub proof fn result_text_is_its_content(block: JsonView, s: Seq<char>, items: Seq<JsonView>)
    ensures
        json::field(block, "content"@) == Some(JsonView::Text(s)) ==> result_text(block) == s,
        json::field(block, "content"@) == Some(JsonView::Array(items)) ==> result_text(block)
            == text::joined(item_texts(items), "\n"@),
        (json::field(block, "content"@) matches Some(content) ==> content !is Text && content
            !is Array) ==> result_text(block).len() == 0,
{
}

/// The texts of items are those under the key `text`, in the order of the items that have one.
pub proof fn item_texts_item_by_item(
    before: Seq<JsonView>,
    item: JsonView,
    after: Seq<JsonView>,
)
    ensures
        item_texts(before + seq![item] + after) == item_texts(before) + (match json::text_field(
            item,
            "text"@,
        ) {
            Some(text) => seq![text],
            None => Seq::empty(),
        }) + item_texts(after),
    decreases after.len(),
{
    let all = before + seq![item] + after;
    let own = match json::text_field(item, "text"@) {
        Some(text) => seq![text],
        None => Seq::empty(),
    };
    if after.len() == 0 {
        assert(all.drop_last() == before);
        assert(all.last() == item);
        assert(item_texts(all) =~= item_texts(before) + own + item_texts(after));
    } else {
        item_texts_item_by_item(before, item, after.drop_last());
        assert(all.drop_last() == before + seq![item] + after.drop_last());
        assert(all.last() == after.last());
        assert(item_texts(all) =~= item_texts(before) + own + item_texts(after));
    }
}

/// A line of the context with a text that is not blank, a tool call or a tool result gives a
/// message, whatever else it holds. In particular one that holds nothing but a tool result does.
pub proof fn line_with_a_block_gives_a_message(
    value: JsonView,
    message: JsonView,
    blocks: Seq<JsonView>,
    j: int,
)
    requires
        is_context_line(value),
        json::field(value, "message"@) == Some(message),
        json::field(message, "content"@) == Some(JsonView::Array(blocks)),
        0 <= j < blocks.len(),
        is_block_to_keep(blocks[j]),
    ensures
        message_in(value) matches Some(parsed) && parsed.content.len() > 0 && parsed.content
            == mapped_content(value),
        json::text_field(blocks[j], "type"@) == Some("tool_result"@) ==> (message_in(value)
            matches Some(parsed) && exists|k: int|
            0 <= k < parsed.content.len() && #[trigger] parsed.content[k] is ToolResult),
{
    let at = content_block_by_block(value, message, blocks);
    assert(at.contains(j));
    let k = choose|k: int| 0 <= k < at.len() && at[k] == j;
    context_line_gives_its_message(value);
    lemma_kinds();
    let block = mapped_content(value)[k];
    assert(blocks[at[k]] == blocks[j]);
    if json::text_field(blocks[j], "type"@) == Some("tool_result"@) {
        assert(block is ToolResult);
        assert(message_in(value)->0.content[k] is ToolResult);
    }
}

/// A line gives a summary if and only if the user or the assistant says it, it is marked as a
/// summary and its text is not blank; the summary is that text, whole.
pub proof fn marked_line_gives_its_summary(
    value: JsonView,
    message: JsonView,
    items: Seq<JsonView>,
)
    ensures
        summary_in(value) is Some <==> (json::text_field(value, "type"@) == Some("user"@)
            || json::text_field(value, "type"@) == Some("assistant"@)) && json::bool_field(
            value,
            "isCompactSummary"@,
        ) == Some(true) && (plain_text(value) matches Some(text) && text::trimmed(text).len() > 0),
        summary_in(value) is Some ==> summary_in(value) == plain_text(value),
        json::field(value, "message"@) == Some(message) && json::field(message, "content"@) == Some(
            JsonView::Array(items),
        ) ==> plain_text(value) == Some(text::joined(item_texts(items), "\n"@)),
{
    lemma_kinds();
}

/// Without a summary in any line there is none.
pub proof fn no_summary_in_any_line(values: Seq<JsonView>)
    requires
        forall|i: int| 0 <= i < values.len() ==> summary_in(#[trigger] values[i]) is None,
    ensures
        last_summary(values) is None,
    decreases values.len(),
{
    if values.len() > 0 {
        assert forall|i: int| 0 <= i < values.drop_last().len() implies summary_in(
            #[trigger] values.drop_last()[i],
        ) is None by {
            assert(values.drop_last()[i] == values[i]);
        }
        no_summary_in_any_line(values.drop_last());
        assert(summary_in(values[values.len() - 1]) is None);
    }
}

/// The prompts of messages are those of each message that is one, in their order.
pub proof fn prompts_message_by_message(
    before: Seq<ParsedView>,
    message: ParsedView,
    after: Seq<ParsedView>,
)
    ensures
        prompts_in(before + seq![message] + after) == prompts_in(before) + (
        match message::prompt_in(message.role, message.content) {
            Some(prompt) => seq![prompt],
            None => Seq::empty(),
        }) + prompts_in(after),
    decreases after.len(),
{
    let all = before + seq![message] + after;
    let own = match message::prompt_in(message.role, message.content) {
        Some(prompt) => seq![prompt],
        None => Seq::empty(),
    };
    if after.len() == 0 {
        assert(all.drop_last() == before);
        assert(all.last() == message);
        assert(prompts_in(all) =~= prompts_in(before) + own + prompts_in(after));
    } else {
        prompts_message_by_message(before, message, after.drop_last());
        assert(all.drop_last() == before + seq![message] + after.drop_last());
        assert(all.last() == after.last());
        assert(prompts_in(all) =~= prompts_in(before) + own + prompts_in(after));
    }
}

/// The title in the first line that has one counts: its `aiTitle`, or else its `slug`.
pub proof fn first_title_counts(values: Seq<JsonView>, i: int)
    requires
        0 <= i < values.len(),
        forall|j: int|
            0 <= j < i ==> json::text_field(#[trigger] values[j], "aiTitle"@) is None
                && json::text_field(values[j], "slug"@) is None,
    ensures
        json::text_field(values[i], "aiTitle"@) is Some ==> first_title(values)
            == json::text_field(values[i], "aiTitle"@),
        json::text_field(values[i], "aiTitle"@) is None && json::text_field(
            values[i],
            "slug"@,
        ) is Some ==> first_title(values) == json::text_field(values[i], "slug"@),
        i == values.len() - 1 && json::text_field(values[i], "aiTitle"@) is None
            && json::text_field(values[i], "slug"@) is None ==> first_title(values) is None,
    decreases values.len(),
{
    let rest = values.drop_last();
    if i < values.len() - 1 {
        assert forall|j: int| 0 <= j < i implies json::text_field(
            #[trigger] rest[j],
            "aiTitle"@,
        ) is None && json::text_field(rest[j], "slug"@) is None by {
            assert(rest[j] == values[j]);
        }
        assert(rest[i] == values[i]);
        first_title_counts(rest, i);
    } else if i > 0 {
        assert forall|j: int| 0 <= j < i - 1 implies json::text_field(
            #[trigger] rest[j],
            "aiTitle"@,
        ) is None && json::text_field(rest[j], "slug"@) is None by {
            assert(rest[j] == values[j]);
        }
        assert(rest[i - 1] == values[i - 1]);
        first_title_counts(rest, i - 1);
    }
}

/// The directory in the first line that has one counts.
pub proof fn first_cwd_counts(values: Seq<JsonView>, i: int)
    requires
        0 <= i < values.len(),
        forall|j: int| 0 <= j < i ==> json::text_field(#[trigger] values[j], "cwd"@) is None,
    ensures
        json::text_field(values[i], "cwd"@) is Some ==> first_cwd(values) == json::text_field(
            values[i],
            "cwd"@,
        ),
        i == values.len() - 1 && json::text_field(values[i], "cwd"@) is None ==> first_cwd(
            values,
        ) is None,
    decreases values.len(),
{
    let rest = values.drop_last();
    if i < values.len() - 1 {
        assert forall|j: int| 0 <= j < i implies json::text_field(
            #[trigger] rest[j],
            "cwd"@,
        ) is None by {
            assert(rest[j] == values[j]);
        }
        assert(rest[i] == values[i]);
        first_cwd_counts(rest, i);
    } else if i > 0 {
        assert forall|j: int| 0 <= j < i - 1 implies json::text_field(
            #[trigger] rest[j],
            "cwd"@,
        ) is None by {
            assert(rest[j] == values[j]);
        }
        assert(rest[i - 1] == values[i - 1]);
        first_cwd_counts(rest, i - 1);
    }
}

/// Without a summary that is not blank the recap lists the last 40 prompts, or says that there is
/// nothing to recap.
pub proof fn recap_without_summary(summary: Option<Seq<char>>, prompts: Seq<Seq<char>>)
    requires
        summary matches Some(s) ==> text::trimmed(s).len() == 0,
    ensures
        prompts.len() == 0 ==> recap_of(summary, prompts)
            == "(no recoverable summary; continue from the recent context below)"@,
        0 < prompts.len() <= 40 ==> recap_of(summary, prompts)
            == "Conversation thread (user requests, oldest→newest):\n"@ + message::prompt_list(
            prompts,
        ),
        prompts.len() > 40 ==> recap_of(summary, prompts)
            == "Conversation thread (user requests, oldest→newest):\n"@ + message::prompt_list(
            prompts.skip(prompts.len() - 40),
        ),
{
}

/// A resumed session in full: it is for the local model, has the title and directory of the
/// transcript, and begins with a message that says where it is from and what it was about. As many
/// of the latest messages follow as fit into 320 000 bytes, and the first message tells how many
/// were left out.
pub proof fn resumed_session_in_full(values: Seq<JsonView>, agent: Seq<char>)
    requires
        messages_in(values).len() > 0,
    ensures
        ({
            let session = resumed_session(values, agent);
            let parsed = messages_in(values);
            let sizes = budget::parsed_sizes(parsed);
            let kept = session.messages.len() - 1;
            let dropped = (parsed.len() - kept) as nat;
            let title = match first_title(values) {
                Some(title) => title,
                None => "Imported "@ + agent + " session"@,
            };
            let recap = recap_of(last_summary(values), prompts_in(parsed));
            let note = if dropped > 0 {
                "\n\n("@ + text::decimal_of(dropped)
                    + " older message(s) omitted to fit the context budget; they are covered by the recap above.)"@
            } else {
                Seq::empty()
            };
            let header = "[Imported from "@ + agent + " · "@ + title
                + "]\n\nYou are continuing a conversation that was started in "@ + agent
                + ". Recap of the work so far:\n\n"@ + recap + note
                + "\n\n--- recent conversation context below ---"@;
            &&& session.id is None
            &&& session.title == Some("↩ "@ + title)
            &&& session.provider_session_id is None
            &&& session.provider_key == Some("ollama-local"@)
            &&& session.model == Some("gemma4:12b"@)
            &&& session.working_dir == first_cwd(values)
            &&& session.created_at is None && session.updated_at is None
                && session.last_active_at is None && session.status is None
            &&& session.messages[0] == (MessageView {
                id: None,
                role: Role::User,
                content: seq![BlockView::Text { text: header }],
                timestamp: None,
            })
            &&& 1 <= kept <= parsed.len()
            &&& forall|i: int|
                0 <= i < kept ==> #[trigger] session.messages[i + 1] == (MessageView {
                    id: None,
                    role: parsed[dropped + i].role,
                    content: parsed[dropped + i].content,
                    timestamp: None,
                })
            &&& kept == 1 || message::capped(budget::total(sizes.skip(dropped as int))) <= 320_000
            &&& forall|j: int|
                0 <= j < dropped ==> message::capped(budget::total(#[trigger] sizes.skip(j)))
                    > 320_000
        }),
{
    let parsed = messages_in(values);
    let sizes = budget::parsed_sizes(parsed);
    let start = budget::recent_start(sizes, 320_000);
    budget::recent_is_longest_fitting(sizes, 320_000);
    assert(RECENT_TOKEN_BUDGET * CHARS_PER_TOKEN == 320_000);
    let session = resumed_session(values, agent);
    assert(session.messages.len() == parsed.len() - start + 1);
}

} // verus!
