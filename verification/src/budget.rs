//! Which messages of a transcript fit into a context budget.

use crate::message;
use crate::message::{
    content_chars, contains_tool_result, BlockView, ContentBlock, MessageView, Role, StoredMessage,
};
use vstd::prelude::*;

verus! {

/// The sum of `sizes`.
pub open spec fn total(sizes: Seq<nat>) -> nat
    decreases sizes.len(),
{
    if sizes.len() == 0 {
        0
    } else {
        sizes.first() + total(sizes.drop_first())
    }
}

/// How many items have to go from the front of items of these sizes until the rest fits into
/// `budget` or is a single item.
pub open spec fn recent_start(sizes: Seq<nat>, budget: nat) -> nat
    decreases sizes.len(),
{
    if sizes.len() <= 1 || message::capped(total(sizes)) <= budget {
        0
    } else {
        1 + recent_start(sizes.drop_first(), budget)
    }
}

/// The sizes as numbers without bound.
pub open spec fn as_nats(sizes: Seq<usize>) -> Seq<nat> {
    Seq::new(sizes.len(), |i: int| sizes[i] as nat)
}

/// The end of a sequence is not larger than the sequence.
proof fn lemma_total_skip(sizes: Seq<nat>, from: int)
    requires
        0 <= from <= sizes.len(),
    ensures
        total(sizes.skip(from)) <= total(sizes),
    decreases from,
{
    if from == 0 {
        assert(sizes.skip(0) == sizes);
    } else {
        lemma_total_skip(sizes.drop_first(), from - 1);
        assert(sizes.drop_first().skip(from - 1) == sizes.skip(from));
    }
}

/// The end that begins at `from` is the one that stays if it fits and the next longer end does not.
proof fn lemma_recent_start(sizes: Seq<nat>, budget: nat, from: int)
    requires
        0 <= from <= sizes.len(),
        sizes.len() - from <= 1 || message::capped(total(sizes.skip(from))) <= budget,
        from > 0 ==> from < sizes.len() && message::capped(total(sizes.skip(from - 1))) > budget,
    ensures
        recent_start(sizes, budget) == from,
    decreases sizes.len(),
{
    if from == 0 {
        assert(sizes.skip(0) == sizes);
    } else {
        lemma_total_skip(sizes, from - 1);
        let rest = sizes.drop_first();
        assert(rest.skip(from - 1) == sizes.skip(from));
        if from > 1 {
            assert(rest.skip(from - 2) == sizes.skip(from - 1));
        }
        lemma_recent_start(rest, budget, from - 1);
    }
}

/// How many items have to go from the front of items of these sizes until the rest fits into
/// `budget` or is a single item.
fn recent_from(sizes: &Vec<usize>, budget: usize) -> (r: usize)
    ensures
        r == recent_start(as_nats(sizes@), budget as nat),
        r <= sizes@.len(),
        sizes@.len() > 0 ==> r < sizes@.len(),
{
    let ghost all = as_nats(sizes@);
    if sizes.len() == 0 {
        return 0;
    }
    let mut from: usize = sizes.len() - 1;
    let mut held: usize = sizes[from];
    proof {
        let tail = all.skip(from as int);
        assert(tail.drop_first() == Seq::<nat>::empty());
        assert(total(tail) == tail.first() + total(tail.drop_first()));
    }
    while from > 0
        invariant
            from < sizes@.len(),
            all == as_nats(sizes@),
            held == message::capped(total(all.skip(from as int))),
            all.len() - from <= 1 || held <= budget,
        decreases from,
    {
        let next = held.saturating_add(sizes[from - 1]);
        proof {
            let tail = all.skip(from - 1);
            assert(tail.drop_first() == all.skip(from as int));
            assert(total(tail) == tail.first() + total(tail.drop_first()));
        }
        if next > budget {
            proof {
                lemma_recent_start(all, budget as nat, from as int);
            }
            return from;
        }
        held = next;
        from = from - 1;
    }
    proof {
        lemma_recent_start(all, budget as nat, 0);
    }
    0
}

/// A message of a transcript and its size.
pub struct ParsedMsg {
    pub role: Role,
    pub content: Vec<ContentBlock>,
    pub chars: usize,
}

/// What a message of a transcript is.
pub struct ParsedView {
    pub role: Role,
    pub content: Seq<BlockView>,
    pub chars: nat,
}

impl View for ParsedMsg {
    type V = ParsedView;

    open spec fn view(&self) -> ParsedView {
        ParsedView { role: self.role, content: self.content.deep_view(), chars: self.chars as nat }
    }
}

impl DeepView for ParsedMsg {
    type V = ParsedView;

    open spec fn deep_view(&self) -> ParsedView {
        self@
    }
}

/// The sizes of transcript messages.
pub open spec fn parsed_sizes(parsed: Seq<ParsedView>) -> Seq<nat> {
    Seq::new(parsed.len(), |i: int| parsed[i].chars)
}

/// Keeps the most recent messages whose sizes add up to at most `char_budget`, and at least the
/// last one. Returns them in order, and how many were dropped before them.
pub fn take_recent_within_budget(parsed: Vec<ParsedMsg>, char_budget: usize) -> (r: (
    Vec<ParsedMsg>,
    usize,
))
    ensures
        r.1 == recent_start(parsed_sizes(parsed.deep_view()), char_budget as nat),
        r.1 <= parsed@.len(),
        r.0.deep_view() == parsed.deep_view().skip(r.1 as int),
{
    let mut sizes: Vec<usize> = Vec::new();
    for i in 0..parsed.len()
        invariant
            sizes@.len() == i,
            forall|j: int| 0 <= j < i ==> sizes@[j] == parsed@[j].chars,
    {
        sizes.push(parsed[i].chars);
    }
    assert(as_nats(sizes@) =~= parsed_sizes(parsed.deep_view()));
    let dropped = recent_from(&sizes, char_budget);
    let ghost all = parsed.deep_view();
    let mut parsed = parsed;
    let recent = parsed.split_off(dropped);
    assert(recent.deep_view() =~= all.skip(dropped as int));
    (recent, dropped)
}

/// The size of a message.
pub fn stored_message_chars(m: &StoredMessage) -> (r: usize)
    ensures
        r == message::capped(message::content_size(m@.content)),
{
    content_chars(&m.content)
}

/// The sizes of messages.
pub open spec fn message_sizes(messages: Seq<MessageView>) -> Seq<nat> {
    Seq::new(
        messages.len(),
        |i: int| message::capped(message::content_size(messages[i].content)),
    )
}

/// How many messages have to go from the front until the first one has no tool result or is the
/// only one.
pub open spec fn orphan_count(messages: Seq<MessageView>) -> nat
    decreases messages.len(),
{
    if messages.len() <= 1 || !message::has_tool_result(messages.first().content) {
        0
    } else {
        1 + orphan_count(messages.drop_first())
    }
}

/// How many messages an import drops from the front: those that do not fit into `budget`, then
/// tool results whose calls went with them.
pub open spec fn dropped_count(messages: Seq<MessageView>, budget: nat) -> nat {
    let start = recent_start(message_sizes(messages), budget);
    start + orphan_count(messages.skip(start as int))
}

/// Drops messages from the front until the rest fits into `char_budget` (but never the last one),
/// then any tool result at the front, whose call was dropped. Returns how many were dropped.
pub fn truncate_messages_to_recent_budget(
    messages: &mut Vec<StoredMessage>,
    char_budget: usize,
) -> (r: usize)
    ensures
        r == dropped_count(old(messages).deep_view(), char_budget as nat),
        r <= old(messages)@.len(),
        final(messages).deep_view() == old(messages).deep_view().skip(r as int),
{
    let ghost all = messages.deep_view();
    let mut sizes: Vec<usize> = Vec::new();
    for i in 0..messages.len()
        invariant
            all == messages.deep_view(),
            messages@ == old(messages)@,
            sizes@.len() == i,
            forall|j: int| 0 <= j < i ==> sizes@[j] == message_sizes(all)[j],
    {
        sizes.push(stored_message_chars(&messages[i]));
    }
    assert(as_nats(sizes@) =~= message_sizes(all));
    let start = recent_from(&sizes, char_budget);
    let mut dropped = start;
    while dropped + 1 < messages.len() && contains_tool_result(&messages[dropped].content)
        invariant
            all == messages.deep_view(),
            messages@ == old(messages)@,
            start <= dropped <= messages@.len() <= usize::MAX,
            messages@.len() > 0 ==> dropped < messages@.len(),
            orphan_count(all.skip(start as int)) == (dropped - start) + orphan_count(
                all.skip(dropped as int),
            ),
        decreases messages@.len() - dropped,
    {
        assert(all.skip(dropped as int).drop_first() == all.skip(dropped + 1));
        dropped = dropped + 1;
    }
    let recent = messages.split_off(dropped);
    assert(recent.deep_view() =~= all.skip(dropped as int));
    *messages = recent;
    dropped
}

/// What stays of items is their longest end that fits into the budget, or their last one: it is not
/// empty unless there was nothing, it fits or is a single item, and no longer end does.
pub proof fn recent_is_longest_fitting(sizes: Seq<nat>, budget: nat)
    ensures
        recent_start(sizes, budget) <= sizes.len(),
        sizes.len() > 0 ==> recent_start(sizes, budget) < sizes.len(),
        sizes.len() - recent_start(sizes, budget) <= 1 || message::capped(
            total(sizes.skip(recent_start(sizes, budget) as int)),
        ) <= budget,
        forall|j: int|
            0 <= j < recent_start(sizes, budget) ==> sizes.len() - j > 1 && message::capped(
                total(#[trigger] sizes.skip(j)),
            ) > budget,
    decreases sizes.len(),
{
    let start = recent_start(sizes, budget);
    assert(sizes.skip(0) == sizes);
    if start > 0 {
        let rest = sizes.drop_first();
        recent_is_longest_fitting(rest, budget);
        assert(rest.skip(start - 1) == sizes.skip(start as int));
        assert forall|j: int| 0 <= j < start implies sizes.len() - j > 1 && message::capped(
            total(#[trigger] sizes.skip(j)),
        ) > budget by {
            if j > 0 {
                assert(rest.skip(j - 1) == sizes.skip(j));
            }
        }
    }
}

/// A larger budget keeps at least as much.
pub proof fn larger_budget_keeps_more(sizes: Seq<nat>, smaller: nat, larger: nat)
    requires
        smaller <= larger,
    ensures
        recent_start(sizes, larger) <= recent_start(sizes, smaller),
    decreases sizes.len(),
{
    if sizes.len() > 0 {
        larger_budget_keeps_more(sizes.drop_first(), smaller, larger);
    }
}

/// Tool results at the front go until another message or the last one is left.
proof fn lemma_orphan_count(messages: Seq<MessageView>)
    ensures
        orphan_count(messages) <= messages.len(),
        messages.len() > 0 ==> orphan_count(messages) < messages.len(),
        messages.len() - orphan_count(messages) <= 1 || !message::has_tool_result(
            messages[orphan_count(messages) as int].content,
        ),
        forall|j: int|
            0 <= j < orphan_count(messages) ==> message::has_tool_result(
                (#[trigger] messages[j]).content,
            ),
    decreases messages.len(),
{
    if orphan_count(messages) > 0 {
        let rest = messages.drop_first();
        lemma_orphan_count(rest);
        let count = orphan_count(rest) as int;
        if count < rest.len() {
            assert(rest[count] == messages[count + 1]);
        }
        assert forall|j: int| 0 <= j < orphan_count(messages) implies message::has_tool_result(
            (#[trigger] messages[j]).content,
        ) by {
            if j > 0 {
                assert(rest[j - 1] == messages[j]);
            }
        }
    }
}

/// What an import keeps is not empty unless there was nothing, fits into the budget or is a single
/// message, and does not begin with a tool result unless it is a single message.
pub proof fn kept_messages_fit(messages: Seq<MessageView>, budget: nat)
    ensures
        dropped_count(messages, budget) <= messages.len(),
        messages.len() > 0 ==> dropped_count(messages, budget) < messages.len(),
        ({
            let kept = messages.skip(dropped_count(messages, budget) as int);
            kept.len() <= 1 || (message::capped(total(message_sizes(kept))) <= budget
                && !message::has_tool_result(kept.first().content))
        }),
{
    let sizes = message_sizes(messages);
    let start = recent_start(sizes, budget);
    recent_is_longest_fitting(sizes, budget);
    let recent = messages.skip(start as int);
    lemma_orphan_count(recent);
    let orphans = orphan_count(recent);
    let kept = messages.skip(dropped_count(messages, budget) as int);
    assert(kept == recent.skip(orphans as int));
    if kept.len() > 1 {
        assert(kept.first() == recent[orphans as int]);
        assert(message_sizes(kept) =~= sizes.skip(start as int).skip(orphans as int));
        lemma_total_skip(sizes.skip(start as int), orphans as int);
    }
}

/// Every message that an import drops had to go: it did not fit with those after it, or it was a
/// tool result at the front of what fits.
pub proof fn dropped_messages_had_to_go(messages: Seq<MessageView>, budget: nat, j: int)
    requires
        0 <= j < dropped_count(messages, budget),
    ensures
        message::capped(total(message_sizes(messages.skip(j)))) > budget
            || message::has_tool_result(messages[j].content),
{
    let sizes = message_sizes(messages);
    let start = recent_start(sizes, budget);
    recent_is_longest_fitting(sizes, budget);
    let recent = messages.skip(start as int);
    lemma_orphan_count(recent);
    if j < start {
        assert(message_sizes(messages.skip(j)) =~= sizes.skip(j));
        assert(message::capped(total(sizes.skip(j))) > budget);
    } else {
        assert(recent[j - start] == messages[j]);
    }
}

/// What was kept once is kept again.
pub proof fn keeping_again_drops_nothing(messages: Seq<MessageView>, budget: nat)
    ensures
        dropped_count(messages.skip(dropped_count(messages, budget) as int), budget) == 0,
{
    kept_messages_fit(messages, budget);
    let kept = messages.skip(dropped_count(messages, budget) as int);
    assert(message_sizes(kept).len() == kept.len());
    assert(recent_start(message_sizes(kept), budget) == 0);
    assert(kept.skip(0) == kept);
    assert(orphan_count(kept) == 0);
}

/// Sizes add up, and each message counts with the size of its content, as far as that can be
/// counted.
pub proof fn sizes_add_up(
    before: Seq<nat>,
    size: nat,
    after: Seq<nat>,
    messages: Seq<MessageView>,
    parsed: Seq<ParsedView>,
    i: int,
)
    ensures
        total(Seq::empty()) == 0,
        total(before + seq![size] + after) == total(before) + size + total(after),
        message_sizes(messages).len() == messages.len(),
        0 <= i < messages.len() ==> message_sizes(messages)[i] == if message::content_size(
            messages[i].content,
        ) <= usize::MAX {
            message::content_size(messages[i].content)
        } else {
            usize::MAX as nat
        },
        parsed_sizes(parsed).len() == parsed.len(),
        0 <= i < parsed.len() ==> parsed_sizes(parsed)[i] == parsed[i].chars,
    decreases before.len(),
{
    let all = before + seq![size] + after;
    if before.len() == 0 {
        assert(all.first() == size);
        assert(all.drop_first() == after);
    } else {
        sizes_add_up(before.drop_first(), size, after, messages, parsed, i);
        assert(all.first() == before.first());
        assert(all.drop_first() == before.drop_first() + seq![size] + after);
    }
}

} // verus!
