//! Importing a session of `Agent::ClaudeCode`.

use crate::budget;
use crate::budget::truncate_messages_to_recent_budget;
use crate::import;
use crate::import::listing;
use crate::import::listing::{listed_title, ClaudeCodeSessionInfo};
use crate::import::{truncate_import_text, truncate_title};
use crate::json::Json;
use crate::message;
use crate::message::{
    list_prompts, parse_role, user_prompt, BlockView, ContentBlock, MessageView, Role, Session,
    SessionStatus, SessionView, StoredMessage, MAX_RECAP_PROMPTS, MAX_TOOL_RESULT_CHARS,
};
use crate::order;
use crate::text;
use crate::time;
use crate::time::{or_now, parse_rfc3339_string, Timestamp};
use vstd::prelude::*;
use vstd::string::*;

verus! {

/// The budget for the recent messages: about 80 000 tokens of four characters.
pub const IMPORT_RECENT_CHAR_BUDGET: usize = 320_000;

/// A part of a message in a transcript.
pub enum ClaudeCodeContentBlock {
    Text { text: String },
    Thinking { thinking: String },
    ToolUse { id: String, name: String, input: Json },
    ToolResult { tool_use_id: String, content: String, is_error: Option<bool> },
    Unknown,
}

/// The content of a message in a transcript.
pub enum ClaudeCodeContent {
    Empty,
    Text(String),
    Blocks(Vec<ClaudeCodeContentBlock>),
}

/// A message in a transcript. `text` is what its content says as one text, if it says anything.
pub struct ClaudeCodeMessage {
    pub role: String,
    pub content: ClaudeCodeContent,
    pub text: Option<String>,
}

/// A line of a transcript. `parent_uuid` names the line that it follows in the conversation.
pub struct ClaudeCodeEntry {
    pub entry_type: String,
    pub uuid: Option<String>,
    pub parent_uuid: Option<String>,
    pub session_id: Option<String>,
    pub cwd: Option<String>,
    pub timestamp: Option<String>,
    pub message: Option<ClaudeCodeMessage>,
    pub is_compact_summary: bool,
    pub is_meta: bool,
    pub is_visible_in_transcript_only: bool,
}

/// Those of `lines` that are not blank.
pub open spec fn not_blank(lines: Seq<Seq<char>>) -> Seq<Seq<char>>
    decreases lines.len(),
{
    if lines.len() == 0 {
        Seq::empty()
    } else if text::trimmed(lines.last()).len() > 0 {
        not_blank(lines.drop_last()).push(lines.last())
    } else {
        not_blank(lines.drop_last())
    }
}

/// The lines of a transcript that are not blank.
pub fn transcript_lines(raw: &str) -> (r: Vec<String>)
    ensures
        r.deep_view() == not_blank(text::lines_of(raw@)),
{
    let lines = text::lines(raw);
    let ghost views = lines.deep_view();
    let mut out: Vec<String> = Vec::new();
    for i in 0..lines.len()
        invariant
            views == lines.deep_view(),
            out.deep_view() =~= not_blank(views.take(i as int)),
    {
        let ghost before = out.deep_view();
        assert(views.take(i + 1).drop_last() == views.take(i as int));
        assert(views.take(i + 1).last() == lines@[i as int]@);
        if !text::trim(lines[i].as_str()).is_empty() {
            out.push(lines[i].clone());
            assert(out.deep_view() =~= before.push(lines@[i as int]@));
        }
    }
    assert(views.take(views.len() as int) == views);
    out
}

/// The entries that could be read: of each line the entry that it holds, where it holds one.
pub open spec fn read_entries(parsed: Seq<Option<ClaudeCodeEntry>>) -> Seq<ClaudeCodeEntry>
    decreases parsed.len(),
{
    if parsed.len() == 0 {
        Seq::empty()
    } else {
        match parsed.last() {
            Some(entry) => read_entries(parsed.drop_last()).push(entry),
            None => read_entries(parsed.drop_last()),
        }
    }
}

/// The entries that could be read. `parsed` has for each line the entry that it holds, and nothing
/// for a malformed line.
pub fn entries_read(parsed: Vec<Option<ClaudeCodeEntry>>) -> (r: Vec<ClaudeCodeEntry>)
    ensures
        r@ == read_entries(parsed@),
{
    let ghost all = parsed@;
    let mut out: Vec<ClaudeCodeEntry> = Vec::new();
    for line in it: parsed
        invariant
            it.seq() == all,
            out@ == read_entries(all.take(it.index())),
    {
        let ghost k = it.index();
        assert(line == all[k]);
        assert(all.take(k + 1).drop_last() == all.take(k));
        if let Some(entry) = line {
            out.push(entry);
        }
    }
    assert(all.take(all.len() as int) == all);
    out
}

/// The entries in the lines of a transcript, where `parse` gives the entry that a line holds, or
/// nothing for a malformed line.
pub open spec fn entries_in(
    lines: Seq<Seq<char>>,
    parse: spec_fn(Seq<char>) -> Option<ClaudeCodeEntry>,
) -> Seq<ClaudeCodeEntry> {
    read_entries(not_blank(lines).map_values(parse))
}

/// The block that a block of a transcript becomes. Hidden reasoning is dropped.
pub open spec fn converted_block(block: ClaudeCodeContentBlock) -> Option<BlockView> {
    match block {
        ClaudeCodeContentBlock::Text { text } => Some(BlockView::Text { text: text@ }),
        ClaudeCodeContentBlock::Thinking { thinking } => None,
        ClaudeCodeContentBlock::ToolUse { id, name, input } => Some(
            BlockView::ToolUse { id: id@, name: name@, input: input@ },
        ),
        ClaudeCodeContentBlock::ToolResult { tool_use_id, content, is_error } => Some(
            BlockView::ToolResult {
                tool_use_id: tool_use_id@,
                content: text::shortened(content@, MAX_TOOL_RESULT_CHARS as nat),
                is_error,
            },
        ),
        ClaudeCodeContentBlock::Unknown => None,
    }
}

/// The blocks that the blocks of a transcript become.
pub open spec fn converted_blocks(blocks: Seq<ClaudeCodeContentBlock>) -> Seq<BlockView>
    decreases blocks.len(),
{
    if blocks.len() == 0 {
        Seq::empty()
    } else {
        match converted_block(blocks.last()) {
            Some(block) => converted_blocks(blocks.drop_last()).push(block),
            None => converted_blocks(blocks.drop_last()),
        }
    }
}

/// The blocks that the content of a message becomes.
pub open spec fn converted_content(content: ClaudeCodeContent) -> Seq<BlockView> {
    match content {
        ClaudeCodeContent::Empty => Seq::empty(),
        ClaudeCodeContent::Text(text) => if text@.len() == 0 {
            Seq::empty()
        } else {
            seq![BlockView::Text { text: text@ }]
        },
        ClaudeCodeContent::Blocks(blocks) => converted_blocks(blocks@),
    }
}

/// The block that a block of a transcript becomes.
fn convert_block(block: &ClaudeCodeContentBlock) -> (r: Option<ContentBlock>)
    ensures
        r.deep_view() == converted_block(*block),
{
    match block {
        ClaudeCodeContentBlock::Text { text } => Some(ContentBlock::Text { text: text.clone() }),
        ClaudeCodeContentBlock::Thinking { .. } => None,
        ClaudeCodeContentBlock::ToolUse { id, name, input } => Some(
            ContentBlock::ToolUse { id: id.clone(), name: name.clone(), input: input.duplicate() },
        ),
        ClaudeCodeContentBlock::ToolResult { tool_use_id, content, is_error } => Some(
            ContentBlock::ToolResult {
                tool_use_id: tool_use_id.clone(),
                content: truncate_import_text(content.as_str(), MAX_TOOL_RESULT_CHARS),
                is_error: *is_error,
            },
        ),
        ClaudeCodeContentBlock::Unknown => None,
    }
}

/// The blocks that the content of a message becomes.
pub fn convert_content_blocks(content: &ClaudeCodeContent) -> (r: Vec<ContentBlock>)
    ensures
        r.deep_view() == converted_content(*content),
{
    let mut out: Vec<ContentBlock> = Vec::new();
    match content {
        ClaudeCodeContent::Empty => {},
        ClaudeCodeContent::Text(text) => {
            if !text.as_str().is_empty() {
                out.push(ContentBlock::Text { text: text.clone() });
            }
        },
        ClaudeCodeContent::Blocks(blocks) => {
            for i in 0..blocks.len()
                invariant
                    out.deep_view() =~= converted_blocks(blocks@.take(i as int)),
            {
                let ghost before = out.deep_view();
                assert(blocks@.take(i + 1).drop_last() == blocks@.take(i as int));
                if let Some(block) = convert_block(&blocks[i]) {
                    out.push(block);
                    assert(out.deep_view() =~= before.push(block@));
                }
            }
            assert(blocks@.take(blocks@.len() as int) == blocks@);
        },
    }
    assert(out.deep_view() =~= converted_content(*content));
    out
}

/// The texts of the text blocks among `blocks`.
pub open spec fn claude_texts(blocks: Seq<ClaudeCodeContentBlock>) -> Seq<Seq<char>>
    decreases blocks.len(),
{
    if blocks.len() == 0 {
        Seq::empty()
    } else {
        match blocks.last() {
            ClaudeCodeContentBlock::Text { text } => claude_texts(blocks.drop_last()).push(text@),
            _ => claude_texts(blocks.drop_last()),
        }
    }
}

/// The text of a whole message.
pub open spec fn claude_plain_text(content: ClaudeCodeContent) -> Seq<char> {
    match content {
        ClaudeCodeContent::Empty => Seq::empty(),
        ClaudeCodeContent::Text(text) => text@,
        ClaudeCodeContent::Blocks(blocks) => text::joined(claude_texts(blocks@), "\n"@),
    }
}

/// The text of a whole message.
pub fn claude_content_plain_text(content: &ClaudeCodeContent) -> (r: String)
    ensures
        r@ == claude_plain_text(*content),
{
    match content {
        ClaudeCodeContent::Empty => String::new(),
        ClaudeCodeContent::Text(text) => text.clone(),
        ClaudeCodeContent::Blocks(blocks) => {
            let mut texts: Vec<String> = Vec::new();
            for i in 0..blocks.len()
                invariant
                    texts.deep_view() =~= claude_texts(blocks@.take(i as int)),
            {
                let ghost before = texts.deep_view();
                assert(blocks@.take(i + 1).drop_last() == blocks@.take(i as int));
                if let ClaudeCodeContentBlock::Text { text } = &blocks[i] {
                    texts.push(text.clone());
                    assert(texts.deep_view() =~= before.push(text@));
                }
            }
            assert(blocks@.take(blocks@.len() as int) == blocks@);
            text::join(&texts, "\n")
        },
    }
}

/// The body of a recap: the summary, if it is not blank, or else a list of the last prompts if
/// messages were dropped.
pub open spec fn import_recap_body(
    summary: Option<Seq<char>>,
    prompts: Seq<Seq<char>>,
    dropped: nat,
) -> Option<Seq<char>> {
    if summary is Some && text::trimmed(summary->0).len() > 0 {
        Some(text::trimmed(summary->0))
    } else if dropped > 0 && prompts.len() > 0 {
        Some(
            "Earlier conversation (user requests, oldest→newest):\n"@ + message::prompt_list(
                message::last_of(prompts, MAX_RECAP_PROMPTS as nat),
            ),
        )
    } else {
        None
    }
}

/// The note that tells how many messages were left out.
pub open spec fn import_omitted_note(dropped: nat) -> Seq<char> {
    if dropped > 0 {
        "\n\n("@ + text::decimal_of(dropped)
            + " older message(s) omitted to fit the context window; covered by the recap above.)"@
    } else {
        Seq::empty()
    }
}

/// How a recap begins, where `agent` is the name of the agent that the session is from.
pub open spec fn import_recap_head(agent: Seq<char>) -> Seq<char> {
    "[Imported from "@ + agent
        + " — continuing offline with the local model.]\n\nRecap of the work so far:\n\n"@
}

/// The recap that an imported session begins with, if it needs one.
pub open spec fn import_recap(
    summary: Option<Seq<char>>,
    prompts: Seq<Seq<char>>,
    dropped: nat,
    agent: Seq<char>,
) -> Option<Seq<char>> {
    match import_recap_body(summary, prompts, dropped) {
        Some(body) => Some(
            import_recap_head(agent) + body + import_omitted_note(dropped)
                + "\n\n--- recent conversation context below ---"@,
        ),
        None => None,
    }
}

/// The recap that an imported session begins with, if it needs one: there is a summary, or
/// messages were dropped. `agent` is the name of the agent that the session is from.
pub fn build_import_recap(
    summary: Option<&str>,
    prompts: &Vec<String>,
    dropped: usize,
    agent: &str,
) -> (r: Option<String>)
    ensures
        r.deep_view() == import_recap(
            match summary {
                Some(s) => Some(s@),
                None => None,
            },
            prompts.deep_view(),
            dropped as nat,
            agent@,
        ),
{
    let trimmed = match summary {
        Some(s) => text::trim(s),
        None => "",
    };
    proof {
        reveal_strlit("");
    }
    let body = if !trimmed.is_empty() {
        trimmed.to_owned()
    } else if dropped > 0 && prompts.len() > 0 {
        let mut out = "Earlier conversation (user requests, oldest→newest):\n".to_owned();
        list_prompts(&mut out, prompts);
        out
    } else {
        return None;
    };
    let mut note = String::new();
    if dropped > 0 {
        note.append("\n\n(");
        let count = text::decimal(dropped);
        note.append(count.as_str());
        note.append(
            " older message(s) omitted to fit the context window; covered by the recap above.)",
        );
    }
    assert(note@ =~= import_omitted_note(dropped as nat));
    let mut recap = "[Imported from ".to_owned().concat(agent).concat(
        " — continuing offline with the local model.]\n\nRecap of the work so far:\n\n",
    );
    recap.append(body.as_str());
    recap.append(note.as_str());
    recap.append("\n\n--- recent conversation context below ---");
    Some(recap)
}

/// The summary in a line of a transcript.
pub open spec fn entry_summary(entry: ClaudeCodeEntry) -> Option<Seq<char>> {
    match entry.message {
        Some(message) => if entry.is_compact_summary && text::trimmed(
            claude_plain_text(message.content),
        ).len() > 0 {
            Some(claude_plain_text(message.content))
        } else {
            None
        },
        None => None,
    }
}

/// The message in a line of a transcript, if the line is part of the context and has content.
pub open spec fn entry_message(entry: ClaudeCodeEntry) -> Option<MessageView> {
    match entry.message {
        Some(message) => if !entry.is_compact_summary && !entry.is_meta
            && !entry.is_visible_in_transcript_only && message::role_named(message.role@) is Some
            && converted_content(message.content).len() > 0 {
            Some(
                MessageView {
                    id: entry.uuid.deep_view(),
                    role: message::role_named(message.role@)->0,
                    content: converted_content(message.content),
                    timestamp: None,
                },
            )
        } else {
            None
        },
        None => None,
    }
}

/// The last summary in the lines of a transcript.
pub open spec fn latest_summary(entries: Seq<&ClaudeCodeEntry>) -> Option<Seq<char>>
    decreases entries.len(),
{
    if entries.len() == 0 {
        None
    } else if entry_summary(*entries.last()) is Some {
        entry_summary(*entries.last())
    } else {
        latest_summary(entries.drop_last())
    }
}

/// The messages in the lines of a transcript.
pub open spec fn entry_messages(entries: Seq<&ClaudeCodeEntry>) -> Seq<MessageView>
    decreases entries.len(),
{
    if entries.len() == 0 {
        Seq::empty()
    } else {
        match entry_message(*entries.last()) {
            Some(message) => entry_messages(entries.drop_last()).push(message),
            None => entry_messages(entries.drop_last()),
        }
    }
}

/// The prompts of the user among messages.
pub open spec fn message_prompts(messages: Seq<MessageView>) -> Seq<Seq<char>>
    decreases messages.len(),
{
    if messages.len() == 0 {
        Seq::empty()
    } else {
        match message::prompt_in(messages.last().role, messages.last().content) {
            Some(prompt) => message_prompts(messages.drop_last()).push(prompt),
            None => message_prompts(messages.drop_last()),
        }
    }
}

/// The summary in a line of a transcript.
fn read_entry_summary(entry: &ClaudeCodeEntry) -> (r: Option<String>)
    ensures
        r.deep_view() == entry_summary(*entry),
{
    if !entry.is_compact_summary {
        return None;
    }
    match &entry.message {
        Some(message) => {
            let text = claude_content_plain_text(&message.content);
            if text::trim(text.as_str()).is_empty() {
                None
            } else {
                Some(text)
            }
        },
        None => None,
    }
}

/// The message in a line of a transcript, if the line is part of the context and has content.
fn read_entry_message(entry: &ClaudeCodeEntry) -> (r: Option<StoredMessage>)
    ensures
        r.deep_view() == entry_message(*entry),
{
    if entry.is_compact_summary || entry.is_meta || entry.is_visible_in_transcript_only {
        return None;
    }
    match &entry.message {
        Some(message) => match parse_role(message.role.as_str()) {
            Some(role) => {
                let content = convert_content_blocks(&message.content);
                if content.len() == 0 {
                    return None;
                }
                Some(StoredMessage { id: entry.uuid.clone(), role, content, timestamp: None })
            },
            None => None,
        },
        None => None,
    }
}

/// What the lines of a transcript hold.
pub struct ClaudeConversation {
    pub compact_summary: Option<String>,
    pub user_prompts: Vec<String>,
    pub collected: Vec<StoredMessage>,
}

/// Collects the messages, the prompts of the user and the last summary of a transcript.
pub fn collect_conversation(ordered: &Vec<&ClaudeCodeEntry>) -> (r: ClaudeConversation)
    ensures
        r.compact_summary.deep_view() == latest_summary(ordered@),
        r.collected.deep_view() == entry_messages(ordered@),
        r.user_prompts.deep_view() == message_prompts(entry_messages(ordered@)),
{
    let mut compact_summary: Option<String> = None;
    let mut user_prompts: Vec<String> = Vec::new();
    let mut collected: Vec<StoredMessage> = Vec::new();
    for i in 0..ordered.len()
        invariant
            compact_summary.deep_view() == latest_summary(ordered@.take(i as int)),
            collected.deep_view() =~= entry_messages(ordered@.take(i as int)),
            user_prompts.deep_view() =~= message_prompts(entry_messages(ordered@.take(i as int))),
    {
        let entry = ordered[i];
        assert(ordered@.take(i + 1).drop_last() == ordered@.take(i as int));
        if let Some(summary) = read_entry_summary(entry) {
            compact_summary = Some(summary);
        }
        if let Some(message) = read_entry_message(entry) {
            let ghost prompts_before = user_prompts.deep_view();
            let ghost collected_before = collected.deep_view();
            if let Some(prompt) = user_prompt(message.role, &message.content) {
                user_prompts.push(prompt);
                assert(user_prompts.deep_view() =~= prompts_before.push(prompt@));
            }
            collected.push(message);
            assert(collected.deep_view() =~= collected_before.push(message@));
            assert(collected.deep_view().drop_last() =~= collected_before);
        }
    }
    assert(ordered@.take(ordered@.len() as int) == ordered@);
    ClaudeConversation { compact_summary, user_prompts, collected }
}

/// The text of the first text block.
pub open spec fn first_block_text(blocks: Seq<ClaudeCodeContentBlock>) -> Option<Seq<char>> {
    if claude_texts(blocks).len() > 0 {
        Some(claude_texts(blocks).first())
    } else {
        None
    }
}

/// The title that the first line of a transcript gives: it is a user's message with a text.
pub open spec fn entry_title(entry: ClaudeCodeEntry) -> Option<Seq<char>> {
    if entry.entry_type@ != "user"@ {
        None
    } else {
        match entry.message {
            Some(message) => match message.content {
                ClaudeCodeContent::Text(text) => Some(import::title_of(text@)),
                ClaudeCodeContent::Blocks(blocks) => match first_block_text(blocks@) {
                    Some(text) => Some(import::title_of(text)),
                    None => None,
                },
                ClaudeCodeContent::Empty => None,
            },
            None => None,
        }
    }
}

/// The title that a transcript gives.
pub open spec fn transcript_title(ordered: Seq<&ClaudeCodeEntry>) -> Option<Seq<char>> {
    if ordered.len() > 0 {
        entry_title(*ordered.first())
    } else {
        None
    }
}

/// The texts of the beginning of a sequence of blocks are the beginning of their texts.
proof fn lemma_first_text(blocks: Seq<ClaudeCodeContentBlock>, k: int)
    requires
        0 <= k <= blocks.len(),
        claude_texts(blocks.take(k)).len() > 0,
    ensures
        claude_texts(blocks).len() > 0,
        claude_texts(blocks).first() == claude_texts(blocks.take(k)).first(),
    decreases blocks.len(),
{
    if k == blocks.len() {
        assert(blocks.take(k) == blocks);
    } else {
        assert(blocks.drop_last().take(k) == blocks.take(k));
        lemma_first_text(blocks.drop_last(), k);
    }
}

/// The title that a transcript gives.
pub fn title_from_transcript(ordered: &Vec<&ClaudeCodeEntry>) -> (r: Option<String>)
    ensures
        r.deep_view() == transcript_title(ordered@),
{
    if ordered.len() == 0 {
        return None;
    }
    let entry = ordered[0];
    if !text::same_text(entry.entry_type.as_str(), "user") {
        return None;
    }
    match &entry.message {
        Some(message) => match &message.content {
            ClaudeCodeContent::Text(text) => Some(truncate_title(text.as_str())),
            ClaudeCodeContent::Blocks(blocks) => {
                for i in 0..blocks.len()
                    invariant
                        claude_texts(blocks@.take(i as int)).len() == 0,
                        ordered@.len() > 0,
                        transcript_title(ordered@) == match first_block_text(blocks@) {
                            Some(text) => Some(import::title_of(text)),
                            None => None,
                        },
                {
                    assert(blocks@.take(i + 1).drop_last() == blocks@.take(i as int));
                    if let ClaudeCodeContentBlock::Text { text } = &blocks[i] {
                        proof {
                            lemma_first_text(blocks@, i + 1);
                        }
                        return Some(truncate_title(text.as_str()));
                    }
                }
                assert(blocks@.take(blocks@.len() as int) == blocks@);
                None
            },
            ClaudeCodeContent::Empty => None,
        },
        None => None,
    }
}

/// The messages of an imported session: the recap, if there is one, and the recent messages.
pub open spec fn claude_session_messages(
    ordered: Seq<&ClaudeCodeEntry>,
    agent: Seq<char>,
) -> Seq<MessageView> {
    let all = entry_messages(ordered);
    let dropped = budget::dropped_count(all, IMPORT_RECENT_CHAR_BUDGET as nat);
    let recent = all.skip(dropped as int);
    match import_recap(latest_summary(ordered), message_prompts(all), dropped, agent) {
        Some(recap) => seq![
            MessageView {
                id: None,
                role: Role::User,
                content: seq![BlockView::Text { text: recap }],
                timestamp: None,
            },
        ] + recent,
        None => recent,
    }
}

/// The session that a transcript is imported as. Its provider and model stay open, so
/// that it is resumed with those in use.
pub open spec fn claude_session(
    ordered: Seq<&ClaudeCodeEntry>,
    session_id: Seq<char>,
    jcode_session_id: Seq<char>,
    title: Option<Seq<char>>,
    created_at: Timestamp,
    agent: Seq<char>,
) -> SessionView {
    SessionView {
        id: Some(jcode_session_id),
        title,
        provider_session_id: Some(session_id),
        provider_key: None,
        model: None,
        working_dir: if ordered.len() > 0 {
            ordered.first().cwd.deep_view()
        } else {
            None
        },
        created_at: Some(created_at),
        updated_at: None,
        last_active_at: None,
        status: Some(SessionStatus::Closed),
        messages: claude_session_messages(ordered, agent),
    }
}

/// The messages of an imported session: the recap, if there is one, and the recent messages.
fn build_claude_messages(ordered: &Vec<&ClaudeCodeEntry>, agent: &str) -> (r: Vec<StoredMessage>)
    ensures
        r.deep_view() == claude_session_messages(ordered@, agent@),
{
    let conversation = collect_conversation(ordered);
    let mut collected = conversation.collected;
    let dropped = truncate_messages_to_recent_budget(&mut collected, IMPORT_RECENT_CHAR_BUDGET);
    let recap = match &conversation.compact_summary {
        Some(summary) => build_import_recap(
            Some(summary.as_str()),
            &conversation.user_prompts,
            dropped,
            agent,
        ),
        None => build_import_recap(None, &conversation.user_prompts, dropped, agent),
    };
    let mut messages: Vec<StoredMessage> = Vec::new();
    if let Some(recap) = recap {
        let mut content: Vec<ContentBlock> = Vec::new();
        content.push(ContentBlock::Text { text: recap });
        assert(content.deep_view() =~= seq![BlockView::Text { text: recap@ }]);
        messages.push(StoredMessage { id: None, role: Role::User, content, timestamp: None });
    }
    let ghost first = messages.deep_view();
    let ghost recent = collected.deep_view();
    messages.append(&mut collected);
    assert(messages.deep_view() =~= first + recent);
    assert(messages.deep_view() =~= claude_session_messages(ordered@, agent@));
    messages
}

/// The session that a transcript is imported as, created at the given time. `agent` is the name of
/// the agent that it is from.
pub fn build_claude_session(
    ordered: &Vec<&ClaudeCodeEntry>,
    session_id: &str,
    jcode_session_id: &str,
    title: Option<String>,
    created_at: Timestamp,
    agent: &str,
) -> (r: Session)
    ensures
        r@ == claude_session(
            ordered@,
            session_id@,
            jcode_session_id@,
            title.deep_view(),
            created_at,
            agent@,
        ),
{
    let working_dir = if ordered.len() > 0 {
        ordered[0].cwd.clone()
    } else {
        None
    };
    let messages = build_claude_messages(ordered, agent);
    Session {
        id: Some(jcode_session_id.to_owned()),
        title,
        provider_session_id: Some(session_id.to_owned()),
        provider_key: None,
        model: None,
        working_dir,
        created_at: Some(created_at),
        updated_at: None,
        last_active_at: None,
        status: Some(SessionStatus::Closed),
        messages,
    }
}

/// The time of the first line of a transcript.
pub open spec fn first_time(ordered: Seq<&ClaudeCodeEntry>) -> Option<Timestamp> {
    if ordered.len() > 0 {
        time::instant_of_text(ordered.first().timestamp.deep_view())
    } else {
        None
    }
}

/// The session that a transcript is imported as. Its title is the one that the transcript gives, or
/// else the one under which it is `listed`. It was created at the time of the first line, or else
/// now. `agent` is the name of the agent that it is from.
pub fn import_session_from_file(
    ordered: &Vec<&ClaudeCodeEntry>,
    session_id: &str,
    jcode_session_id: &str,
    listed: &Vec<ClaudeCodeSessionInfo>,
    agent: &str,
) -> (r: Session)
    ensures
        r@.created_at matches Some(created_at) && r@ == claude_session(
            ordered@,
            session_id@,
            jcode_session_id@,
            import::first_known(
                transcript_title(ordered@),
                listing::title_listed(listed.deep_view(), session_id@),
            ),
            created_at,
            agent@,
        ),
        first_time(ordered@) is Some ==> r@.created_at == first_time(ordered@),
{
    let title = match title_from_transcript(ordered) {
        Some(title) => Some(title),
        None => listed_title(listed, session_id),
    };
    let known = if ordered.len() > 0 {
        parse_rfc3339_string(&ordered[0].timestamp)
    } else {
        None
    };
    let created_at = or_now(known);
    build_claude_session(ordered, session_id, jcode_session_id, title, created_at, agent)
}

/// Hidden reasoning and blocks of unknown types make no difference.
pub proof fn reasoning_is_dropped(
    before: Seq<ClaudeCodeContentBlock>,
    block: ClaudeCodeContentBlock,
    after: Seq<ClaudeCodeContentBlock>,
)
    requires
        block is Thinking || block is Unknown,
    ensures
        converted_blocks(before + seq![block] + after) == converted_blocks(before + after),
    decreases after.len(),
{
    let with = before + seq![block] + after;
    let without = before + after;
    if after.len() == 0 {
        assert(with.drop_last() == without);
    } else {
        reasoning_is_dropped(before, block, after.drop_last());
        assert(with.drop_last() == before + seq![block] + after.drop_last());
        assert(without.drop_last() == before + after.drop_last());
        assert(with.last() == after.last() && without.last() == after.last());
    }
}

/// Every block is a text or a tool call, or a tool result of bounded length.
proof fn lemma_converted_blocks(blocks: Seq<ClaudeCodeContentBlock>)
    ensures
        message::all_imported(converted_blocks(blocks)),
    decreases blocks.len(),
{
    if blocks.len() > 0 {
        lemma_converted_blocks(blocks.drop_last());
        if let ClaudeCodeContentBlock::ToolResult { tool_use_id, content, is_error }
            = blocks.last() {
            text::shortened_is_bounded(content@, MAX_TOOL_RESULT_CHARS as nat);
        }
    }
}

/// Every block of a message is a text or a tool call, or a tool result of bounded length.
pub proof fn converted_content_is_bounded(content: ClaudeCodeContent)
    ensures
        message::all_imported(converted_content(content)),
{
    if let ClaudeCodeContent::Blocks(blocks) = content {
        lemma_converted_blocks(blocks@);
    }
}

/// There is a recap if and only if there is a summary that is not blank, or messages were dropped
/// and there are prompts.
pub proof fn recap_is_made_when_needed(
    summary: Option<Seq<char>>,
    prompts: Seq<Seq<char>>,
    dropped: nat,
    agent: Seq<char>,
)
    ensures
        import_recap(summary, prompts, dropped, agent) is Some <==> (summary is Some
            && text::trimmed(summary->0).len() > 0) || (dropped > 0 && prompts.len() > 0),
{
}

/// A recap holds its body, and the note on what was left out if anything was.
pub proof fn recap_holds_body_and_note(
    summary: Option<Seq<char>>,
    prompts: Seq<Seq<char>>,
    dropped: nat,
    agent: Seq<char>,
)
    requires
        import_recap(summary, prompts, dropped, agent) is Some,
    ensures
        text::has_text(
            import_recap(summary, prompts, dropped, agent)->0,
            import_recap_body(summary, prompts, dropped)->0,
        ),
        text::has_text(
            import_recap(summary, prompts, dropped, agent)->0,
            import_omitted_note(dropped),
        ),
{
    let recap = import_recap(summary, prompts, dropped, agent)->0;
    let body = import_recap_body(summary, prompts, dropped)->0;
    let head = import_recap_head(agent);
    let note = import_omitted_note(dropped);
    let end = "\n\n--- recent conversation context below ---"@;
    text::lemma_has_itself(body);
    text::lemma_has_text_around(head, body, note + end, body);
    assert(head + body + (note + end) == recap);
    text::lemma_has_itself(note);
    text::lemma_has_text_around(head + body, note, end, note);
}

/// A recap without a summary shows each of the last `MAX_RECAP_PROMPTS` prompts.
pub proof fn import_recap_shows_prompts(
    prompts: Seq<Seq<char>>,
    dropped: nat,
    agent: Seq<char>,
    i: int,
)
    requires
        dropped > 0,
        0 <= i < prompts.len(),
        prompts.len() - i <= MAX_RECAP_PROMPTS,
    ensures
        import_recap(None, prompts, dropped, agent) matches Some(recap) && text::has_text(
            recap,
            prompts[i],
        ),
{
    let listed = message::last_of(prompts, MAX_RECAP_PROMPTS as nat);
    let k = i - (prompts.len() - listed.len());
    message::latest_prompts_are_listed(prompts, MAX_RECAP_PROMPTS as nat);
    assert(listed[k] == prompts[i]);
    message::listed_prompt_is_shown(listed, k);
    let list = message::prompt_list(listed);
    let title = "Earlier conversation (user requests, oldest→newest):\n"@;
    let head = import_recap_head(agent);
    let after = import_omitted_note(dropped) + "\n\n--- recent conversation context below ---"@;
    text::lemma_has_text_around(head + title, list, after, prompts[i]);
    assert(head + title + list + after == import_recap(None, prompts, dropped, agent)->0);
}

/// A line that is a summary, that is outside the context or that nobody says gives no message.
pub proof fn only_context_is_imported(entry: ClaudeCodeEntry)
    requires
        entry.is_compact_summary || entry.is_meta || entry.is_visible_in_transcript_only
            || entry.message is None || message::role_named(entry.message->0.role@) is None,
    ensures
        entry_message(entry) is None,
{
}

/// An imported session leaves the provider and the model open, keeps the id of the session in
/// the transcript and is closed.
pub proof fn model_is_left_open(
    ordered: Seq<&ClaudeCodeEntry>,
    session_id: Seq<char>,
    jcode_session_id: Seq<char>,
    title: Option<Seq<char>>,
    created_at: Timestamp,
    agent: Seq<char>,
)
    ensures
        ({
            let session = claude_session(
                ordered,
                session_id,
                jcode_session_id,
                title,
                created_at,
                agent,
            );
            &&& session.provider_key is None
            &&& session.model is None
            &&& session.provider_session_id == Some(session_id)
            &&& session.status == Some(SessionStatus::Closed)
        }),
{
}

/// An imported session ends with the most recent messages: the last of them is there, and they fit
/// into the budget and do not begin with a tool result, unless there is only one.
pub proof fn recent_messages_are_imported(ordered: Seq<&ClaudeCodeEntry>, agent: Seq<char>)
    ensures
        ({
            let all = entry_messages(ordered);
            let dropped = budget::dropped_count(all, IMPORT_RECENT_CHAR_BUDGET as nat);
            let kept = all.skip(dropped as int);
            let messages = claude_session_messages(ordered, agent);
            &&& dropped <= all.len()
            &&& all.len() > 0 ==> kept.len() > 0 && kept.last() == all.last()
            &&& messages.len() == kept.len() || messages.len() == kept.len() + 1
            &&& messages.skip(messages.len() - kept.len()) == kept
            &&& kept.len() <= 1 || (message::capped(budget::total(budget::message_sizes(kept)))
                <= IMPORT_RECENT_CHAR_BUDGET && !message::has_tool_result(kept.first().content))
        }),
{
    let all = entry_messages(ordered);
    budget::kept_messages_fit(all, IMPORT_RECENT_CHAR_BUDGET as nat);
    let dropped = budget::dropped_count(all, IMPORT_RECENT_CHAR_BUDGET as nat);
    let kept = all.skip(dropped as int);
    let messages = claude_session_messages(ordered, agent);
    assert(messages.skip(messages.len() - kept.len()) =~= kept);
}

/// A malformed line makes no difference to the entries that are read.
pub proof fn malformed_line_is_skipped(
    before: Seq<Option<ClaudeCodeEntry>>,
    after: Seq<Option<ClaudeCodeEntry>>,
)
    ensures
        read_entries(before + seq![None] + after) == read_entries(before + after),
    decreases after.len(),
{
    let with = before + seq![None] + after;
    let without = before + after;
    if after.len() == 0 {
        assert(with.drop_last() == without);
        assert(with.last() is None);
    } else {
        malformed_line_is_skipped(before, after.drop_last());
        assert(with.drop_last() == before + seq![None] + after.drop_last());
        assert(without.drop_last() == before + after.drop_last());
        assert(with.last() == after.last() && without.last() == after.last());
    }
}

/// A blank line makes no difference to the lines of a transcript.
pub proof fn blank_line_is_skipped(
    before: Seq<Seq<char>>,
    line: Seq<char>,
    after: Seq<Seq<char>>,
)
    requires
        text::trimmed(line).len() == 0,
    ensures
        not_blank(before + seq![line] + after) == not_blank(before + after),
    decreases after.len(),
{
    let with = before + seq![line] + after;
    let without = before + after;
    if after.len() == 0 {
        assert(with.drop_last() == without);
        assert(with.last() == line);
    } else {
        blank_line_is_skipped(before, line, after.drop_last());
        assert(with.drop_last() == before + seq![line] + after.drop_last());
        assert(without.drop_last() == before + after.drop_last());
        assert(with.last() == after.last() && without.last() == after.last());
    }
}

/// Whether `noisy` is `lines` with any number of blank or malformed lines anywhere between them.
pub open spec fn adds_only_noise(
    lines: Seq<Seq<char>>,
    noisy: Seq<Seq<char>>,
    parse: spec_fn(Seq<char>) -> Option<ClaudeCodeEntry>,
) -> bool
    decreases noisy.len(),
{
    if noisy.len() == 0 {
        lines.len() == 0
    } else {
        ||| lines.len() > 0 && lines.last() == noisy.last() && adds_only_noise(
            lines.drop_last(),
            noisy.drop_last(),
            parse,
        )
        ||| (text::trimmed(noisy.last()).len() == 0 || parse(noisy.last()) is None)
            && adds_only_noise(lines, noisy.drop_last(), parse)
    }
}

/// What the last line adds to the entries in the lines before it.
proof fn lemma_entries_in_last(
    lines: Seq<Seq<char>>,
    parse: spec_fn(Seq<char>) -> Option<ClaudeCodeEntry>,
)
    requires
        lines.len() > 0,
    ensures
        entries_in(lines, parse) == if text::trimmed(lines.last()).len() == 0 || parse(
            lines.last(),
        ) is None {
            entries_in(lines.drop_last(), parse)
        } else {
            entries_in(lines.drop_last(), parse).push(parse(lines.last())->0)
        },
{
    let rest = not_blank(lines.drop_last());
    if text::trimmed(lines.last()).len() > 0 {
        let parsed = rest.push(lines.last()).map_values(parse);
        assert(parsed.drop_last() =~= rest.map_values(parse));
        assert(parsed.last() == parse(lines.last()));
    }
}

/// Blank and malformed lines make no difference to the entries in a transcript.
proof fn lemma_noise_adds_no_entries(
    lines: Seq<Seq<char>>,
    noisy: Seq<Seq<char>>,
    parse: spec_fn(Seq<char>) -> Option<ClaudeCodeEntry>,
)
    requires
        adds_only_noise(lines, noisy, parse),
    ensures
        entries_in(noisy, parse) == entries_in(lines, parse),
    decreases noisy.len(),
{
    if noisy.len() > 0 {
        lemma_entries_in_last(noisy, parse);
        if lines.len() > 0 && lines.last() == noisy.last() && adds_only_noise(
            lines.drop_last(),
            noisy.drop_last(),
            parse,
        ) {
            lemma_entries_in_last(lines, parse);
            lemma_noise_adds_no_entries(lines.drop_last(), noisy.drop_last(), parse);
        } else {
            lemma_noise_adds_no_entries(lines, noisy.drop_last(), parse);
        }
    } else {
        assert(lines =~= noisy);
    }
}

/// Blank and malformed lines make no difference to an import: whatever a line is parsed to, and
/// however the entries are ordered, the entries, the title and the session are the same.
pub proof fn noise_makes_no_difference(
    content: Seq<char>,
    noisy: Seq<char>,
    parse: spec_fn(Seq<char>) -> Option<ClaudeCodeEntry>,
    ordering: spec_fn(Seq<ClaudeCodeEntry>) -> Seq<&ClaudeCodeEntry>,
    session_id: Seq<char>,
    jcode_session_id: Seq<char>,
    title: Option<Seq<char>>,
    created_at: Timestamp,
    agent: Seq<char>,
)
    requires
        adds_only_noise(text::lines_of(content), text::lines_of(noisy), parse),
    ensures
        ({
            let plain = entries_in(text::lines_of(content), parse);
            let read = entries_in(text::lines_of(noisy), parse);
            &&& read == plain
            &&& transcript_title(ordering(read)) == transcript_title(ordering(plain))
            &&& first_time(ordering(read)) == first_time(ordering(plain))
            &&& claude_session(
                ordering(read),
                session_id,
                jcode_session_id,
                title,
                created_at,
                agent,
            ) == claude_session(
                ordering(plain),
                session_id,
                jcode_session_id,
                title,
                created_at,
                agent,
            )
        }),
{
    lemma_noise_adds_no_entries(text::lines_of(content), text::lines_of(noisy), parse);
}

/// Whether a line is part of the context: the user or the assistant says it, and nothing marks it
/// as a summary or as one outside the context.
pub open spec fn is_context_entry(entry: ClaudeCodeEntry) -> bool {
    &&& !entry.is_compact_summary && !entry.is_meta && !entry.is_visible_in_transcript_only
    &&& entry.message matches Some(message) && (message.role@ == "user"@ || message.role@
        == "assistant"@)
}

/// Every line of the context that has content gives a message with all of that content, the id of
/// the line and the role that it names, and no other line does.
pub proof fn context_entry_gives_its_message(entry: ClaudeCodeEntry)
    ensures
        entry_message(entry) is Some <==> is_context_entry(entry) && converted_content(
            entry.message->0.content,
        ).len() > 0,
        entry_message(entry) matches Some(message) ==> message.id == entry.uuid.deep_view()
            && message.content == converted_content(entry.message->0.content)
            && message.timestamp is None && (entry.message->0.role@ == "user"@ ==> message.role
            == Role::User) && (entry.message->0.role@ == "assistant"@ ==> message.role
            == Role::Assistant),
{
    message::roles_by_name(entry.message->0.role@);
}

/// The messages of a transcript are those of its lines of the context that have content, in the
/// order of the lines: the message at each place is that of the line at the index given for it.
pub proof fn messages_entry_by_entry(entries: Seq<&ClaudeCodeEntry>) -> (at: Seq<int>)
    ensures
        order::indices_in_order(at, entries.len()),
        at.len() == entry_messages(entries).len(),
        forall|k: int|
            0 <= k < at.len() ==> {
                let entry = *entries[#[trigger] at[k]];
                let message = entry_messages(entries)[k];
                &&& is_context_entry(entry)
                &&& message.id == entry.uuid.deep_view()
                &&& message.role == if entry.message->0.role@ == "assistant"@ {
                    Role::Assistant
                } else {
                    Role::User
                }
                &&& message.content == converted_content(entry.message->0.content)
                &&& message.content.len() > 0
                &&& message.timestamp is None
            },
        forall|i: int|
            0 <= i < entries.len() && is_context_entry(*#[trigger] entries[i])
                && converted_content(entries[i].message->0.content).len() > 0 ==> at.contains(i),
    decreases entries.len(),
{
    if entries.len() == 0 {
        Seq::empty()
    } else {
        let rest = entries.drop_last();
        let before = messages_entry_by_entry(rest);
        let last = entries.len() - 1;
        context_entry_gives_its_message(*entries.last());
        message::roles_by_name("user"@);
        order::lemma_one_more_index(before, rest.len());
        let at = if entry_message(*entries.last()) is Some {
            before.push(last)
        } else {
            before
        };
        assert forall|k: int| 0 <= k < at.len() implies {
            let entry = *entries[#[trigger] at[k]];
            let message = entry_messages(entries)[k];
            &&& is_context_entry(entry)
            &&& message.id == entry.uuid.deep_view()
            &&& message.role == if entry.message->0.role@ == "assistant"@ {
                Role::Assistant
            } else {
                Role::User
            }
            &&& message.content == converted_content(entry.message->0.content)
            &&& message.content.len() > 0
            &&& message.timestamp is None
        } by {
            if k < before.len() {
                assert(before[k] == at[k]);
                assert(rest[before[k]] == entries[at[k]]);
            }
        }
        assert forall|i: int|
            0 <= i < entries.len() && is_context_entry(*#[trigger] entries[i])
                && converted_content(entries[i].message->0.content).len() > 0 implies at.contains(
            i,
        ) by {
            if i < last {
                assert(rest[i] == entries[i]);
            }
        }
        at
    }
}

/// The blocks of blocks, by the index of each.
proof fn lemma_converted_by_index(blocks: Seq<ClaudeCodeContentBlock>) -> (at: Seq<int>)
    ensures
        order::indices_in_order(at, blocks.len()),
        at.len() == converted_blocks(blocks).len(),
        forall|k: int|
            0 <= k < at.len() ==> converted_block(blocks[#[trigger] at[k]]) == Some(
                converted_blocks(blocks)[k],
            ),
        forall|j: int|
            0 <= j < blocks.len() && converted_block(#[trigger] blocks[j]) is Some ==> at.contains(
                j,
            ),
    decreases blocks.len(),
{
    if blocks.len() == 0 {
        Seq::empty()
    } else {
        let rest = blocks.drop_last();
        let before = lemma_converted_by_index(rest);
        let last = blocks.len() - 1;
        order::lemma_one_more_index(before, rest.len());
        let at = if converted_block(blocks.last()) is Some {
            before.push(last)
        } else {
            before
        };
        assert forall|k: int| 0 <= k < at.len() implies converted_block(blocks[#[trigger] at[k]])
            == Some(converted_blocks(blocks)[k]) by {
            if k < before.len() {
                assert(before[k] == at[k]);
                assert(rest[before[k]] == blocks[at[k]]);
            }
        }
        assert forall|j: int|
            0 <= j < blocks.len() && converted_block(#[trigger] blocks[j])
                is Some implies at.contains(j) by {
            if j < last {
                assert(rest[j] == blocks[j]);
            }
        }
        at
    }
}

/// The blocks of a message are its texts, tool calls and tool results, in their order: a text
/// whole, a tool call with its id, name and input, and a tool result with the id of its call, its
/// text and whether it is an error. Hidden reasoning and unknown blocks are left out.
pub proof fn content_block_by_block(blocks: Vec<ClaudeCodeContentBlock>) -> (at: Seq<int>)
    ensures
        order::indices_in_order(at, blocks@.len()),
        at.len() == converted_content(ClaudeCodeContent::Blocks(blocks)).len(),
        forall|j: int|
            0 <= j < blocks@.len() && !(#[trigger] blocks@[j] is Thinking) && !(blocks@[j]
                is Unknown) ==> at.contains(j),
        forall|k: int|
            0 <= k < at.len() ==> {
                match (
                    blocks@[#[trigger] at[k]],
                    converted_content(ClaudeCodeContent::Blocks(blocks))[k],
                ) {
                    (ClaudeCodeContentBlock::Text { text }, BlockView::Text { text: kept }) => kept
                        == text@,
                    (
                        ClaudeCodeContentBlock::ToolUse { id, name, input },
                        BlockView::ToolUse { id: kept_id, name: kept_name, input: kept_input },
                    ) => kept_id == id@ && kept_name == name@ && kept_input == input@,
                    (
                        ClaudeCodeContentBlock::ToolResult { tool_use_id, content, is_error },
                        BlockView::ToolResult {
                            tool_use_id: kept_id,
                            content: kept,
                            is_error: kept_error,
                        },
                    ) => {
                        &&& kept_id == tool_use_id@
                        &&& kept_error == is_error
                        &&& content@.len() <= 3_000 ==> kept == content@
                        &&& content@.len() > 3_000 ==> kept == content@.take(3_000)
                            + " …[truncated]"@
                    },
                    _ => false,
                }
            },
{
    lemma_converted_by_index(blocks@)
}

/// A plain text is the only block of its message, whole, and an empty one or no content gives none.
pub proof fn plain_content_is_one_text(text: String)
    ensures
        text@.len() > 0 ==> converted_content(ClaudeCodeContent::Text(text)) == seq![
            BlockView::Text { text: text@ },
        ],
        text@.len() == 0 ==> converted_content(ClaudeCodeContent::Text(text)).len() == 0,
        converted_content(ClaudeCodeContent::Empty).len() == 0,
{
}

/// The text of a message is its plain text, or the texts of its text blocks on lines of their own.
pub proof fn plain_text_is_all_texts(
    text: String,
    blocks: Vec<ClaudeCodeContentBlock>,
    before: Seq<ClaudeCodeContentBlock>,
    block: ClaudeCodeContentBlock,
    after: Seq<ClaudeCodeContentBlock>,
)
    ensures
        claude_plain_text(ClaudeCodeContent::Empty).len() == 0,
        claude_plain_text(ClaudeCodeContent::Text(text)) == text@,
        claude_plain_text(ClaudeCodeContent::Blocks(blocks)) == text::joined(
            claude_texts(blocks@),
            "\n"@,
        ),
        claude_texts(before + seq![block] + after) == claude_texts(before) + (match block {
            ClaudeCodeContentBlock::Text { text: own } => seq![own@],
            _ => Seq::empty(),
        }) + claude_texts(after),
    decreases after.len(),
{
    let all = before + seq![block] + after;
    let own = match block {
        ClaudeCodeContentBlock::Text { text: own } => seq![own@],
        _ => Seq::empty(),
    };
    if after.len() == 0 {
        assert(all.drop_last() == before);
        assert(all.last() == block);
        assert(claude_texts(all) =~= claude_texts(before) + own + claude_texts(after));
    } else {
        plain_text_is_all_texts(text, blocks, before, block, after.drop_last());
        assert(all.drop_last() == before + seq![block] + after.drop_last());
        assert(all.last() == after.last());
        assert(claude_texts(all) =~= claude_texts(before) + own + claude_texts(after));
    }
}

/// Whether a line is a summary that is not blank.
pub open spec fn is_summary_entry(entry: ClaudeCodeEntry) -> bool {
    entry.is_compact_summary && (entry.message matches Some(message) && text::trimmed(
        claude_plain_text(message.content),
    ).len() > 0)
}

/// The summary of a transcript is the text of its latest line that is a summary, whole, and there
/// is none where no line is one.
pub proof fn latest_summary_counts(entries: Seq<&ClaudeCodeEntry>, i: int)
    requires
        -1 <= i < entries.len(),
        forall|j: int| i < j < entries.len() ==> !#[trigger] is_summary_entry(*entries[j]),
    ensures
        0 <= i && is_summary_entry(*entries[i]) ==> latest_summary(entries) == Some(
            claude_plain_text(entries[i].message->0.content),
        ),
        i == -1 ==> latest_summary(entries) is None,
    decreases entries.len(),
{
    let last = entries.len() - 1;
    if entries.len() > 0 {
        let rest = entries.drop_last();
        if i < last {
            assert(!is_summary_entry(*entries[last]));
            assert forall|j: int| i < j < rest.len() implies !#[trigger] is_summary_entry(
                *rest[j],
            ) by {
                assert(rest[j] == entries[j]);
                assert(!is_summary_entry(*entries[j]));
            }
            latest_summary_counts(rest, i);
            if 0 <= i {
                assert(rest[i] == entries[i]);
            }
        }
    }
}

/// The prompts of messages are those of each message that is one, in their order.
pub proof fn prompts_message_by_message(
    before: Seq<MessageView>,
    message: MessageView,
    after: Seq<MessageView>,
)
    ensures
        message_prompts(before + seq![message] + after) == message_prompts(before) + (
        match message::prompt_in(message.role, message.content) {
            Some(prompt) => seq![prompt],
            None => Seq::empty(),
        }) + message_prompts(after),
    decreases after.len(),
{
    let all = before + seq![message] + after;
    let own = match message::prompt_in(message.role, message.content) {
        Some(prompt) => seq![prompt],
        None => Seq::empty(),
    };
    if after.len() == 0 {
        assert(all.drop_last() == before);
        assert(all.last() == message);
        assert(message_prompts(all) =~= message_prompts(before) + own + message_prompts(after));
    } else {
        prompts_message_by_message(before, message, after.drop_last());
        assert(all.drop_last() == before + seq![message] + after.drop_last());
        assert(all.last() == after.last());
        assert(message_prompts(all) =~= message_prompts(before) + own + message_prompts(after));
    }
}

/// A recap in full: where the session is from, then the summary or else the last 40 prompts, how
/// many messages were left out, and where the recent ones begin.
pub proof fn recap_in_full(
    summary: Option<Seq<char>>,
    prompts: Seq<Seq<char>>,
    dropped: nat,
    agent: Seq<char>,
)
    requires
        import_recap(summary, prompts, dropped, agent) is Some,
    ensures
        ({
            let listed = if prompts.len() <= 40 {
                prompts
            } else {
                prompts.skip(prompts.len() - 40)
            };
            let body = if summary is Some && text::trimmed(summary->0).len() > 0 {
                text::trimmed(summary->0)
            } else {
                "Earlier conversation (user requests, oldest→newest):\n"@ + message::prompt_list(
                    listed,
                )
            };
            let note = if dropped > 0 {
                "\n\n("@ + text::decimal_of(dropped)
                    + " older message(s) omitted to fit the context window; covered by the recap above.)"@
            } else {
                Seq::empty()
            };
            import_recap(summary, prompts, dropped, agent) == Some(
                "[Imported from "@ + agent
                    + " — continuing offline with the local model.]\n\nRecap of the work so far:\n\n"@
                    + body + note + "\n\n--- recent conversation context below ---"@,
            )
        }),
{
}

/// An imported session in full: it keeps the id of the session in the transcript and the directory
/// of the first line, leaves the provider and the model open, and is closed. Its messages are the
/// recap, where there is one, and the recent messages: as many as fit into 320 000 bytes, without
/// tool results in front.
pub proof fn claude_session_in_full(
    ordered: Seq<&ClaudeCodeEntry>,
    session_id: Seq<char>,
    jcode_session_id: Seq<char>,
    title: Option<Seq<char>>,
    created_at: Timestamp,
    agent: Seq<char>,
) -> (dropped: nat)
    ensures
        ({
            let session = claude_session(
                ordered,
                session_id,
                jcode_session_id,
                title,
                created_at,
                agent,
            );
            let all = entry_messages(ordered);
            let recap = import_recap(latest_summary(ordered), message_prompts(all), dropped, agent);
            let first = match recap {
                Some(text) => seq![
                    MessageView {
                        id: None,
                        role: Role::User,
                        content: seq![BlockView::Text { text }],
                        timestamp: None,
                    },
                ],
                None => Seq::empty(),
            };
            let kept = all.skip(dropped as int);
            &&& session.id == Some(jcode_session_id)
            &&& session.title == title
            &&& session.provider_session_id == Some(session_id)
            &&& session.provider_key is None && session.model is None
            &&& session.working_dir == if ordered.len() > 0 {
                ordered[0].cwd.deep_view()
            } else {
                None
            }
            &&& session.created_at == Some(created_at)
            &&& session.updated_at is None && session.last_active_at is None
            &&& session.status == Some(SessionStatus::Closed)
            &&& dropped <= all.len()
            &&& all.len() > 0 ==> kept.len() > 0
            &&& session.messages == first + kept
            &&& kept.len() <= 1 || (message::capped(budget::total(budget::message_sizes(kept)))
                <= 320_000 && !message::has_tool_result(kept[0].content))
            &&& forall|j: int|
                0 <= j < dropped ==> message::capped(
                    budget::total(budget::message_sizes(#[trigger] all.skip(j))),
                ) > 320_000 || message::has_tool_result(all[j].content)
        }),
{
    let all = entry_messages(ordered);
    let dropped = budget::dropped_count(all, 320_000);
    budget::kept_messages_fit(all, 320_000);
    assert forall|j: int| 0 <= j < dropped implies message::capped(
        budget::total(budget::message_sizes(#[trigger] all.skip(j))),
    ) > 320_000 || message::has_tool_result(all[j].content) by {
        budget::dropped_messages_had_to_go(all, 320_000, j);
    }
    dropped
}

/// The recap of an imported session has the latest summary in the transcript as its body, without
/// the white space at its ends.
pub proof fn latest_summary_is_the_recap(
    ordered: Seq<&ClaudeCodeEntry>,
    agent: Seq<char>,
    i: int,
)
    requires
        0 <= i < ordered.len(),
        is_summary_entry(*ordered[i]),
        forall|j: int| i < j < ordered.len() ==> !#[trigger] is_summary_entry(*ordered[j]),
    ensures
        ({
            let messages = claude_session_messages(ordered, agent);
            let body = text::trimmed(claude_plain_text(ordered[i].message->0.content));
            &&& messages.len() > 0
            &&& messages[0].role == Role::User
            &&& messages[0].content.len() == 1
            &&& messages[0].content[0] matches BlockView::Text { text: recap }
            &&& exists|rest: Seq<char>|
                recap == "[Imported from "@ + agent
                    + " — continuing offline with the local model.]\n\nRecap of the work so far:\n\n"@
                    + body + #[trigger] (rest + "\n\n--- recent conversation context below ---"@)
        }),
{
    latest_summary_counts(ordered, i);
    let all = entry_messages(ordered);
    let dropped = budget::dropped_count(all, IMPORT_RECENT_CHAR_BUDGET as nat);
    let messages = claude_session_messages(ordered, agent);
    let body = text::trimmed(claude_plain_text(ordered[i].message->0.content));
    let note = import_omitted_note(dropped);
    let end = "\n\n--- recent conversation context below ---"@;
    let head = "[Imported from "@ + agent
        + " — continuing offline with the local model.]\n\nRecap of the work so far:\n\n"@;
    assert(messages[0].content[0] == BlockView::Text { text: head + body + note + end });
    assert(head + body + note + end == head + body + (note + end));
}

/// The title of a transcript is that of its first line if the user says it: of its plain text, or
/// of its first text block. Else the transcript gives none.
pub proof fn title_is_that_of_the_first_text(
    ordered: Seq<&ClaudeCodeEntry>,
    message: ClaudeCodeMessage,
    text: String,
    blocks: Vec<ClaudeCodeContentBlock>,
    j: int,
)
    ensures
        ordered.len() == 0 || ordered[0].entry_type@ != "user"@ || ordered[0].message is None
            ==> transcript_title(ordered) is None,
        ordered.len() > 0 && ordered[0].entry_type@ == "user"@ && ordered[0].message == Some(message)
            ==> {
            &&& message.content is Empty ==> transcript_title(ordered) is None
            &&& message.content == ClaudeCodeContent::Text(text) ==> transcript_title(ordered)
                == Some(import::title_of(text@))
            &&& message.content == ClaudeCodeContent::Blocks(blocks) && 0 <= j < blocks@.len()
                && blocks@[j] == (ClaudeCodeContentBlock::Text { text }) && (forall|k: int|
                0 <= k < j ==> !(#[trigger] blocks@[k] is Text)) ==> transcript_title(ordered)
                == Some(import::title_of(text@))
            &&& message.content == ClaudeCodeContent::Blocks(blocks) && (forall|k: int|
                0 <= k < blocks@.len() ==> !(#[trigger] blocks@[k] is Text)) ==> transcript_title(
                ordered,
            ) is None
        },
{
    if 0 <= j < blocks@.len() && blocks@[j] == (ClaudeCodeContentBlock::Text { text }) && (
    forall|k: int| 0 <= k < j ==> !(#[trigger] blocks@[k] is Text)) {
        lemma_no_texts(blocks@.take(j));
        assert(blocks@.take(j + 1).drop_last() == blocks@.take(j));
        lemma_first_text(blocks@, j + 1);
    }
    if forall|k: int| 0 <= k < blocks@.len() ==> !(#[trigger] blocks@[k] is Text) {
        lemma_no_texts(blocks@);
    }
}

/// Blocks that are no texts have none.
proof fn lemma_no_texts(blocks: Seq<ClaudeCodeContentBlock>)
    requires
        forall|k: int| 0 <= k < blocks.len() ==> !(#[trigger] blocks[k] is Text),
    ensures
        claude_texts(blocks).len() == 0,
    decreases blocks.len(),
{
    if blocks.len() > 0 {
        let rest = blocks.drop_last();
        assert forall|k: int| 0 <= k < rest.len() implies !(#[trigger] rest[k] is Text) by {
            assert(rest[k] == blocks[k]);
        }
        lemma_no_texts(rest);
        assert(!(blocks[blocks.len() - 1] is Text));
    }
}

/// An entry that was read stands among the entries, between those of the lines before it and those
/// of the lines after it.
pub proof fn read_entry_is_kept(
    before: Seq<Option<ClaudeCodeEntry>>,
    entry: ClaudeCodeEntry,
    after: Seq<Option<ClaudeCodeEntry>>,
)
    ensures
        read_entries(before + seq![Some(entry)] + after) == read_entries(before) + seq![entry]
            + read_entries(after),
    decreases after.len(),
{
    let all = before + seq![Some(entry)] + after;
    if after.len() == 0 {
        assert(all.drop_last() == before);
        assert(all.last() == Some(entry));
        assert(read_entries(all) =~= read_entries(before) + seq![entry] + read_entries(after));
    } else {
        read_entry_is_kept(before, entry, after.drop_last());
        assert(all.drop_last() == before + seq![Some(entry)] + after.drop_last());
        assert(all.last() == after.last());
        assert(read_entries(all) =~= read_entries(before) + seq![entry] + read_entries(after));
    }
}

/// A line that is not blank is kept as it is, between those before it and those after it.
pub proof fn line_with_text_is_kept(
    before: Seq<Seq<char>>,
    line: Seq<char>,
    after: Seq<Seq<char>>,
)
    requires
        text::trimmed(line).len() > 0,
    ensures
        not_blank(before + seq![line] + after) == not_blank(before) + seq![line] + not_blank(after),
    decreases after.len(),
{
    let all = before + seq![line] + after;
    if after.len() == 0 {
        assert(all.drop_last() == before);
        assert(all.last() == line);
        assert(not_blank(all) =~= not_blank(before) + seq![line] + not_blank(after));
    } else {
        line_with_text_is_kept(before, line, after.drop_last());
        assert(all.drop_last() == before + seq![line] + after.drop_last());
        assert(all.last() == after.last());
        assert(not_blank(all) =~= not_blank(before) + seq![line] + not_blank(after));
    }
}

/// The time of a transcript is that of its first line, read as an RFC 3339 text.
pub proof fn first_line_has_the_time(ordered: Seq<&ClaudeCodeEntry>)
    ensures
        ordered.len() == 0 ==> first_time(ordered) is None,
        ordered.len() > 0 ==> first_time(ordered) == match ordered[0].timestamp {
            Some(text) => time::rfc3339_instant(text@),
            None => None,
        },
{
}

} // verus!
