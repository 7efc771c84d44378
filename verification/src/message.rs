//! Messages and sessions.

use crate::json;
use crate::json::{Json, JsonView};
use crate::text;
use crate::time::Timestamp;
use vstd::prelude::*;
use vstd::string::*;

verus! {

/// Who a message is from.
#[derive(Clone, Copy, Debug, PartialEq, Eq, Structural)]
pub enum Role {
    User,
    Assistant,
}

/// The role that a transcript names.
pub open spec fn role_named(name: Seq<char>) -> Option<Role> {
    if name == "user"@ {
        Some(Role::User)
    } else if name == "assistant"@ {
        Some(Role::Assistant)
    } else {
        None
    }
}

/// The role that a transcript names.
pub fn parse_role(name: &str) -> (r: Option<Role>)
    ensures
        r == role_named(name@),
{
    if text::same_text(name, "user") {
        Some(Role::User)
    } else if text::same_text(name, "assistant") {
        Some(Role::Assistant)
    } else {
        None
    }
}

/// A part of a message.
pub enum ContentBlock {
    Text { text: String },
    ToolUse { id: String, name: String, input: Json },
    ToolResult { tool_use_id: String, content: String, is_error: Option<bool> },
    /// A block of any other kind. An import makes none.
    Other,
}

/// What a block is.
pub enum BlockView {
    Text { text: Seq<char> },
    ToolUse { id: Seq<char>, name: Seq<char>, input: JsonView },
    ToolResult { tool_use_id: Seq<char>, content: Seq<char>, is_error: Option<bool> },
    Other,
}

impl View for ContentBlock {
    type V = BlockView;

    open spec fn view(&self) -> BlockView {
        match self {
            ContentBlock::Text { text } => BlockView::Text { text: text@ },
            ContentBlock::ToolUse { id, name, input } => BlockView::ToolUse {
                id: id@,
                name: name@,
                input: input@,
            },
            ContentBlock::ToolResult { tool_use_id, content, is_error } => BlockView::ToolResult {
                tool_use_id: tool_use_id@,
                content: content@,
                is_error: *is_error,
            },
            ContentBlock::Other => BlockView::Other,
        }
    }
}

impl DeepView for ContentBlock {
    type V = BlockView;

    open spec fn deep_view(&self) -> BlockView {
        self@
    }
}

/// A message of a session. One without an `id` gets a new one when it is stored.
pub struct StoredMessage {
    pub id: Option<String>,
    pub role: Role,
    pub content: Vec<ContentBlock>,
    pub timestamp: Option<Timestamp>,
}

/// What a message is.
pub struct MessageView {
    pub id: Option<Seq<char>>,
    pub role: Role,
    pub content: Seq<BlockView>,
    pub timestamp: Option<Timestamp>,
}

impl View for StoredMessage {
    type V = MessageView;

    open spec fn view(&self) -> MessageView {
        MessageView {
            id: self.id.deep_view(),
            role: self.role,
            content: self.content.deep_view(),
            timestamp: self.timestamp,
        }
    }
}

impl DeepView for StoredMessage {
    type V = MessageView;

    open spec fn deep_view(&self) -> MessageView {
        self@
    }
}

/// Whether a session is in use.
#[derive(Clone, Copy, Debug, PartialEq, Eq, Structural)]
pub enum SessionStatus {
    Active,
    Closed,
}

/// A session as an import builds it. What is `None` here stays as it is in a new session.
pub struct Session {
    pub id: Option<String>,
    pub title: Option<String>,
    pub provider_session_id: Option<String>,
    pub provider_key: Option<String>,
    pub model: Option<String>,
    pub working_dir: Option<String>,
    pub created_at: Option<Timestamp>,
    pub updated_at: Option<Timestamp>,
    pub last_active_at: Option<Timestamp>,
    pub status: Option<SessionStatus>,
    pub messages: Vec<StoredMessage>,
}

/// What a session is.
pub struct SessionView {
    pub id: Option<Seq<char>>,
    pub title: Option<Seq<char>>,
    pub provider_session_id: Option<Seq<char>>,
    pub provider_key: Option<Seq<char>>,
    pub model: Option<Seq<char>>,
    pub working_dir: Option<Seq<char>>,
    pub created_at: Option<Timestamp>,
    pub updated_at: Option<Timestamp>,
    pub last_active_at: Option<Timestamp>,
    pub status: Option<SessionStatus>,
    pub messages: Seq<MessageView>,
}

impl View for Session {
    type V = SessionView;

    open spec fn view(&self) -> SessionView {
        SessionView {
            id: self.id.deep_view(),
            title: self.title.deep_view(),
            provider_session_id: self.provider_session_id.deep_view(),
            provider_key: self.provider_key.deep_view(),
            model: self.model.deep_view(),
            working_dir: self.working_dir.deep_view(),
            created_at: self.created_at,
            updated_at: self.updated_at,
            last_active_at: self.last_active_at,
            status: self.status,
            messages: self.messages.deep_view(),
        }
    }
}

/// The longest user prompt, in characters, that a recap lists whole.
pub const MAX_RECAP_PROMPT_CHARS: usize = 200;

/// The number of user prompts that a recap lists at most.
pub const MAX_RECAP_PROMPTS: usize = 40;

/// The longest tool result, in characters, that an import keeps whole.
pub const MAX_TOOL_RESULT_CHARS: usize = 3_000;

/// `n`, or the largest `usize` if it is larger.
pub open spec fn capped(n: nat) -> nat {
    if n <= usize::MAX {
        n
    } else {
        usize::MAX as nat
    }
}

/// The size of a block, in bytes of its text.
pub open spec fn block_size(block: BlockView) -> nat {
    match block {
        BlockView::Text { text } => text::byte_len(text),
        BlockView::ToolUse { id, name, input } => text::byte_len(name) + text::byte_len(
            json::json_text(input),
        ),
        BlockView::ToolResult { tool_use_id, content, is_error } => text::byte_len(content),
        BlockView::Other => 0,
    }
}

/// The size of all of `blocks`.
pub open spec fn content_size(blocks: Seq<BlockView>) -> nat
    decreases blocks.len(),
{
    if blocks.len() == 0 {
        0
    } else {
        content_size(blocks.drop_last()) + block_size(blocks.last())
    }
}

/// The size of a block, in bytes of its text.
pub fn block_chars(block: &ContentBlock) -> (r: usize)
    ensures
        r == capped(block_size(block@)),
{
    match block {
        ContentBlock::Text { text } => text::byte_length(text.as_str()),
        ContentBlock::ToolUse { id, name, input } => {
            let rendered = input.render();
            text::byte_length(name.as_str()).saturating_add(text::byte_length(rendered.as_str()))
        },
        ContentBlock::ToolResult { tool_use_id, content, is_error } => text::byte_length(
            content.as_str(),
        ),
        ContentBlock::Other => 0,
    }
}

/// The size of all of `blocks`.
pub fn content_chars(blocks: &Vec<ContentBlock>) -> (r: usize)
    ensures
        r == capped(content_size(blocks.deep_view())),
{
    let mut total: usize = 0;
    let ghost views = blocks.deep_view();
    for i in 0..blocks.len()
        invariant
            views == blocks.deep_view(),
            total == capped(content_size(views.take(i as int))),
    {
        assert(views.take(i + 1).drop_last() == views.take(i as int));
        total = total.saturating_add(block_chars(&blocks[i]));
    }
    assert(views.take(views.len() as int) == views);
    total
}

/// Whether a tool result is among `blocks`.
pub open spec fn has_tool_result(blocks: Seq<BlockView>) -> bool {
    exists|i: int| 0 <= i < blocks.len() && #[trigger] blocks[i] is ToolResult
}

/// Whether a tool result is among `blocks`.
pub fn contains_tool_result(blocks: &Vec<ContentBlock>) -> (r: bool)
    ensures
        r == has_tool_result(blocks.deep_view()),
{
    for i in 0..blocks.len()
        invariant
            forall|j: int| 0 <= j < i ==> !(#[trigger] blocks.deep_view()[j] is ToolResult),
    {
        if let ContentBlock::ToolResult { .. } = &blocks[i] {
            assert(blocks.deep_view()[i as int] is ToolResult);
            return true;
        }
    }
    false
}

/// The texts of the text blocks among `blocks`.
pub open spec fn block_texts(blocks: Seq<BlockView>) -> Seq<Seq<char>>
    decreases blocks.len(),
{
    if blocks.len() == 0 {
        Seq::empty()
    } else {
        match blocks.last() {
            BlockView::Text { text } => block_texts(blocks.drop_last()).push(text),
            _ => block_texts(blocks.drop_last()),
        }
    }
}

/// The texts of the text blocks among `blocks`.
fn texts_of(blocks: &Vec<ContentBlock>) -> (r: Vec<String>)
    ensures
        r.deep_view() == block_texts(blocks.deep_view()),
{
    let mut out: Vec<String> = Vec::new();
    let ghost views = blocks.deep_view();
    for i in 0..blocks.len()
        invariant
            views == blocks.deep_view(),
            out.deep_view() =~= block_texts(views.take(i as int)),
    {
        let ghost before = out.deep_view();
        assert(views.take(i + 1).drop_last() == views.take(i as int));
        assert(views.take(i + 1).last() == blocks@[i as int]@);
        if let ContentBlock::Text { text } = &blocks[i] {
            out.push(text.clone());
            assert(out.deep_view() =~= before.push(text@));
        }
    }
    assert(views.take(views.len() as int) == views);
    out
}

/// The text that a message asks for something with, if it is a user's own message: one without a
/// tool result whose texts, joined, are neither blank nor a reminder of the system.
pub open spec fn prompt_in(role: Role, blocks: Seq<BlockView>) -> Option<Seq<char>> {
    let text = text::trimmed(text::joined(block_texts(blocks), " "@));
    if role == Role::User && !has_tool_result(blocks) && text.len() > 0 && !text::occurs_at(
        text,
        "<system-reminder>"@,
        0,
    ) {
        Some(text::shortened(text, MAX_RECAP_PROMPT_CHARS as nat))
    } else {
        None
    }
}

/// The text that a message asks for something with, if it is a user's own message.
pub fn user_prompt(role: Role, blocks: &Vec<ContentBlock>) -> (r: Option<String>)
    ensures
        r.deep_view() == prompt_in(role, blocks.deep_view()),
{
    if role != Role::User || contains_tool_result(blocks) {
        return None;
    }
    let texts = texts_of(blocks);
    let all = text::join(&texts, " ");
    let text = text::trim(all.as_str());
    if text.is_empty() || text::starts_with(text, "<system-reminder>") {
        return None;
    }
    Some(text::shorten(text, MAX_RECAP_PROMPT_CHARS))
}

/// `prompts`, each on a line of its own.
pub open spec fn prompt_list(prompts: Seq<Seq<char>>) -> Seq<char>
    decreases prompts.len(),
{
    if prompts.len() == 0 {
        Seq::empty()
    } else {
        prompt_list(prompts.drop_last()) + "- "@ + prompts.last() + "\n"@
    }
}

/// The last `max` of `items`.
pub open spec fn last_of<T>(items: Seq<T>, max: nat) -> Seq<T> {
    if items.len() <= max {
        items
    } else {
        items.skip(items.len() - max)
    }
}

/// Appends the last `MAX_RECAP_PROMPTS` of `prompts` to `out`, each on a line of its own.
pub fn list_prompts(out: &mut String, prompts: &Vec<String>)
    ensures
        final(out)@ == old(out)@ + prompt_list(
            last_of(prompts.deep_view(), MAX_RECAP_PROMPTS as nat),
        ),
{
    let start = prompts.len().saturating_sub(MAX_RECAP_PROMPTS);
    let ghost listed = last_of(prompts.deep_view(), MAX_RECAP_PROMPTS as nat);
    let ghost begun = out@;
    assert(listed == prompts.deep_view().skip(start as int));
    assert(begun + prompt_list(listed.take(0)) == begun);
    for i in start..prompts.len()
        invariant
            listed == prompts.deep_view().skip(start as int),
            start <= prompts@.len(),
            out@ == begun + prompt_list(listed.take(i - start)),
    {
        out.append("- ");
        out.append(prompts[i].as_str());
        out.append("\n");
        let ghost part = listed.take(i + 1 - start);
        assert(part.drop_last() == listed.take(i - start));
        assert(part.last() == prompts@[i as int]@);
        assert(out@ == begun + prompt_list(part));
    }
    assert(listed.take(listed.len() as int) == listed);
}

/// A recap lists at most `MAX_RECAP_PROMPTS` prompts, the latest ones.
pub proof fn latest_prompts_are_listed(prompts: Seq<Seq<char>>, max: nat)
    ensures
        last_of(prompts, max).len() <= max,
        last_of(prompts, max).len() == if prompts.len() <= max {
            prompts.len()
        } else {
            max
        },
        forall|i: int|
            0 <= i < last_of(prompts, max).len() ==> #[trigger] last_of(prompts, max)[i]
                == prompts[prompts.len() - last_of(prompts, max).len() + i],
{
}

/// A prompt in a recap is not empty, no longer than the limit and its mark, and never a tool result
/// or a reminder of the system.
pub proof fn prompts_are_genuine(role: Role, blocks: Seq<BlockView>)
    requires
        prompt_in(role, blocks) is Some,
    ensures
        role == Role::User,
        !has_tool_result(blocks),
        0 < prompt_in(role, blocks)->0.len() <= MAX_RECAP_PROMPT_CHARS + 13,
        !text::occurs_at(
            text::trimmed(text::joined(block_texts(blocks), " "@)),
            "<system-reminder>"@,
            0,
        ),
{
    text::shortened_is_bounded(
        text::trimmed(text::joined(block_texts(blocks), " "@)),
        MAX_RECAP_PROMPT_CHARS as nat,
    );
}

/// Each listed prompt stands in the list.
pub proof fn listed_prompt_is_shown(prompts: Seq<Seq<char>>, i: int)
    requires
        0 <= i < prompts.len(),
    ensures
        text::has_text(prompt_list(prompts), prompts[i]),
    decreases prompts.len(),
{
    let before = prompt_list(prompts.drop_last());
    let last = prompts.last();
    if i == prompts.len() - 1 {
        text::lemma_has_itself(last);
        text::lemma_has_text_around(before + "- "@, last, "\n"@, last);
    } else {
        listed_prompt_is_shown(prompts.drop_last(), i);
        assert(prompts.drop_last()[i] == prompts[i]);
        let rest = "- "@ + last + "\n"@;
        text::lemma_has_text_around(Seq::empty(), before, rest, prompts[i]);
        assert(Seq::empty() + before + rest == prompt_list(prompts));
    }
}

/// Whether a block is a text or a tool call, or a tool result of bounded length.
pub open spec fn is_imported_block(block: BlockView) -> bool {
    match block {
        BlockView::Text { .. } => true,
        BlockView::ToolUse { .. } => true,
        BlockView::ToolResult { tool_use_id, content, is_error } => content.len()
            <= MAX_TOOL_RESULT_CHARS + 13,
        BlockView::Other => false,
    }
}

/// Whether each of `blocks` is a text or a tool call, or a tool result of bounded length.
pub open spec fn all_imported(blocks: Seq<BlockView>) -> bool {
    forall|i: int| 0 <= i < blocks.len() ==> is_imported_block(#[trigger] blocks[i])
}

/// The names `user` and `assistant` stand for the two roles, and no other name does.
pub proof fn roles_by_name(name: Seq<char>)
    ensures
        role_named("user"@) == Some(Role::User),
        role_named("assistant"@) == Some(Role::Assistant),
        role_named(name) is Some <==> name == "user"@ || name == "assistant"@,
{
    reveal_strlit("user");
    reveal_strlit("assistant");
    assert("user"@.len() == 4 && "assistant"@.len() == 9);
}

/// The size of a block is that of its text, or that of the name and the JSON of a tool call.
pub proof fn block_sizes(
    text: Seq<char>,
    id: Seq<char>,
    name: Seq<char>,
    input: JsonView,
    is_error: Option<bool>,
)
    ensures
        block_size(BlockView::Text { text }) == text::byte_len(text),
        block_size(BlockView::ToolResult { tool_use_id: id, content: text, is_error })
            == text::byte_len(text),
        block_size(BlockView::ToolUse { id, name, input }) == text::byte_len(name)
            + text::byte_len(json::json_text(input)),
        block_size(BlockView::Other) == 0,
{
}

/// The size of blocks is the sum of their sizes.
pub proof fn content_size_adds_up(before: Seq<BlockView>, block: BlockView, after: Seq<BlockView>)
    ensures
        content_size(Seq::empty()) == 0,
        content_size(before + seq![block] + after) == content_size(before) + block_size(block)
            + content_size(after),
    decreases after.len(),
{
    let all = before + seq![block] + after;
    if after.len() == 0 {
        assert(all.drop_last() == before);
        assert(all.last() == block);
    } else {
        content_size_adds_up(before, block, after.drop_last());
        assert(all.drop_last() == before + seq![block] + after.drop_last());
        assert(all.last() == after.last());
    }
}

/// The texts of blocks are those of the text blocks, in their order.
pub proof fn block_texts_block_by_block(
    before: Seq<BlockView>,
    block: BlockView,
    after: Seq<BlockView>,
)
    ensures
        block_texts(before + seq![block] + after) == block_texts(before) + (match block {
            BlockView::Text { text } => seq![text],
            _ => Seq::empty(),
        }) + block_texts(after),
    decreases after.len(),
{
    let all = before + seq![block] + after;
    let own = match block {
        BlockView::Text { text } => seq![text],
        _ => Seq::empty(),
    };
    if after.len() == 0 {
        assert(all.drop_last() == before);
        assert(all.last() == block);
        assert(block_texts(all) =~= block_texts(before) + own + block_texts(after));
    } else {
        block_texts_block_by_block(before, block, after.drop_last());
        assert(all.drop_last() == before + seq![block] + after.drop_last());
        assert(all.last() == after.last());
        assert(block_texts(all) =~= block_texts(before) + own + block_texts(after));
    }
}

/// A message is a prompt if and only if the user says it, it holds no tool result, and its texts,
/// with a space between them, are neither blank nor a reminder of the system. The prompt is that
/// text without the white space at its ends, whole if it has at most 200 characters.
pub proof fn prompts_are_what_the_user_says(role: Role, blocks: Seq<BlockView>)
    ensures
        ({
            let said = text::trimmed(text::joined(block_texts(blocks), " "@));
            let has_result = exists|i: int|
                0 <= i < blocks.len() && #[trigger] blocks[i] is ToolResult;
            let is_reminder = said.len() >= 17 && said.take(17) == "<system-reminder>"@;
            if role == Role::User && !has_result && said.len() > 0 && !is_reminder {
                prompt_in(role, blocks) == Some(
                    if said.len() <= 200 {
                        said
                    } else {
                        said.take(200) + " …[truncated]"@
                    },
                )
            } else {
                prompt_in(role, blocks) is None
            }
        }),
{
    reveal_strlit("<system-reminder>");
    assert("<system-reminder>"@.len() == 17);
    let said = text::trimmed(text::joined(block_texts(blocks), " "@));
    if said.len() >= 17 {
        assert(said.subrange(0, 17) == said.take(17));
    }
}

/// Prompts are listed in their order, each after a dash and a space, on a line of its own.
pub proof fn prompts_listed_one_by_one(
    before: Seq<Seq<char>>,
    prompt: Seq<char>,
    after: Seq<Seq<char>>,
)
    ensures
        prompt_list(Seq::empty()) == Seq::<char>::empty(),
        prompt_list(before + seq![prompt] + after) == prompt_list(before) + "- "@ + prompt + "\n"@
            + prompt_list(after),
    decreases after.len(),
{
    let all = before + seq![prompt] + after;
    if after.len() == 0 {
        assert(all.drop_last() == before);
        assert(all.last() == prompt);
        assert(prompt_list(all) =~= prompt_list(before) + "- "@ + prompt + "\n"@ + prompt_list(
            after,
        ));
    } else {
        prompts_listed_one_by_one(before, prompt, after.drop_last());
        assert(all.drop_last() == before + seq![prompt] + after.drop_last());
        assert(all.last() == after.last());
        assert(prompt_list(all) =~= prompt_list(before) + "- "@ + prompt + "\n"@ + prompt_list(
            after,
        ));
    }
}

/// The limits of a recap and of a tool result.
pub proof fn limits_of_messages()
    ensures
        MAX_RECAP_PROMPT_CHARS == 200,
        MAX_RECAP_PROMPTS == 40,
        MAX_TOOL_RESULT_CHARS == 3_000,
{
}

} // verus!
