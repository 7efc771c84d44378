//! Importing the sessions of other coding agents.

pub mod claude;
pub mod codex;
pub mod listing;
pub mod opencode;
pub mod pi;
pub mod resume;

use crate::message::{
    BlockView, ContentBlock, MessageView, Role, Session, SessionStatus, SessionView, StoredMessage,
};
use crate::text;
use crate::time::Timestamp;
use vstd::prelude::*;
use vstd::string::*;

verus! {

/// The longest title, in bytes.
pub const MAX_TITLE_BYTES: usize = 80;

/// The first line of `s`, or `s` if it has no line.
pub open spec fn first_line(s: Seq<char>) -> Seq<char> {
    if text::lines_of(s).len() > 0 {
        text::lines_of(s).first()
    } else {
        s
    }
}

/// The title that a text gives: its first line, cut to at most `MAX_TITLE_BYTES` bytes.
pub open spec fn title_of(s: Seq<char>) -> Seq<char> {
    let line = first_line(s);
    if text::byte_len(line) > MAX_TITLE_BYTES {
        text::fitting(line, (MAX_TITLE_BYTES - 3) as nat) + "..."@
    } else {
        line
    }
}

/// The title that a text gives: its first line, cut to at most `MAX_TITLE_BYTES` bytes.
pub fn truncate_title(s: &str) -> (r: String)
    ensures
        r@ == title_of(s@),
{
    let lines = text::lines(s);
    let line = if lines.len() > 0 {
        lines[0].as_str()
    } else {
        s
    };
    assert(line@ == first_line(s@)) by {
        if lines@.len() > 0 {
            assert(lines.deep_view()[0] == lines@[0]@);
        }
    }
    if text::byte_length(line) > MAX_TITLE_BYTES {
        text::truncate_str(line, MAX_TITLE_BYTES - 3).to_owned().concat("...")
    } else {
        line.to_owned()
    }
}

/// `s`, or its first `max` characters and a mark that something was cut off.
pub fn truncate_import_text(s: &str, max: usize) -> (r: String)
    ensures
        r@ == text::shortened(s@, max as nat),
{
    text::shorten(s, max)
}

/// `first`, or `second` if there is no first.
pub open spec fn first_known<T>(first: Option<T>, second: Option<T>) -> Option<T> {
    match first {
        Some(_) => first,
        None => second,
    }
}

/// The value of `first`, or `second` if there is no first.
pub open spec fn known_or<T>(first: Option<T>, second: T) -> T {
    match first {
        Some(value) => value,
        None => second,
    }
}

/// Messages with one of a single text added to them, unless the text is blank.
pub open spec fn with_text(
    messages: Seq<MessageView>,
    role: Role,
    text: Seq<char>,
    timestamp: Option<Timestamp>,
) -> Seq<MessageView> {
    if text::trimmed(text).len() == 0 {
        messages
    } else {
        messages.push(
            MessageView {
                id: None,
                role,
                content: seq![BlockView::Text { text: text::trimmed(text) }],
                timestamp,
            },
        )
    }
}

/// A file that may hold a session, and what was read of it to find out.
pub struct SessionFile {
    pub path: String,
    pub head: Option<String>,
}

/// The id of a session: the one in its file, if it is not empty, or else the one that the caller
/// expects.
pub open spec fn named_session(id: Option<Seq<char>>, hint: Option<Seq<char>>) -> Option<
    Seq<char>,
> {
    if id is Some && id->0.len() > 0 {
        id
    } else {
        hint
    }
}

/// The id of a session: the one in its file, if it is not empty, or else the one that the caller
/// expects.
pub fn name_session(id: Option<&String>, hint: Option<&str>) -> (r: Option<String>)
    ensures
        r.deep_view() == named_session(
            match id {
                Some(s) => Some(s@),
                None => None,
            },
            match hint {
                Some(s) => Some(s@),
                None => None,
            },
        ),
{
    if let Some(id) = id {
        if !id.as_str().is_empty() {
            return Some(id.clone());
        }
    }
    match hint {
        Some(hint) => Some(hint.to_owned()),
        None => None,
    }
}

/// A session of which only the id is known.
pub open spec fn session_with_id(id: Seq<char>) -> SessionView {
    SessionView {
        id: Some(id),
        title: None,
        provider_session_id: None,
        provider_key: None,
        model: None,
        working_dir: None,
        created_at: None,
        updated_at: None,
        last_active_at: None,
        status: None,
        messages: Seq::empty(),
    }
}

/// A session of which only the id is known.
pub fn create_with_id(id: &str) -> (r: Session)
    ensures
        r@ == session_with_id(id@),
{
    let messages: Vec<StoredMessage> = Vec::new();
    assert(messages.deep_view() =~= Seq::<MessageView>::empty());
    Session {
        id: Some(id.to_owned()),
        title: None,
        provider_session_id: None,
        provider_key: None,
        model: None,
        working_dir: None,
        created_at: None,
        updated_at: None,
        last_active_at: None,
        status: None,
        messages,
    }
}

/// Adds a message of one text to a session, unless the text is blank.
pub fn append_text_message(
    session: &mut Session,
    role: Role,
    text: &str,
    timestamp: Option<Timestamp>,
)
    ensures
        final(session)@ == (SessionView {
            messages: with_text(old(session)@.messages, role, text@, timestamp),
            ..old(session)@
        }),
{
    let text = text::trim(text);
    if text.is_empty() {
        return ;
    }
    let mut content: Vec<ContentBlock> = Vec::new();
    content.push(ContentBlock::Text { text: text.to_owned() });
    assert(content.deep_view() =~= seq![BlockView::Text { text: text@ }]);
    let ghost before = session.messages.deep_view();
    let message = StoredMessage { id: None, role, content, timestamp };
    session.messages.push(message);
    assert(session.messages.deep_view() =~= before.push(message@));
}

/// An imported session with its times set and closed.
pub open spec fn finalized(
    session: SessionView,
    created_at: Timestamp,
    updated_at: Option<Timestamp>,
) -> SessionView {
    let last = match updated_at {
        Some(t) => t,
        None => created_at,
    };
    SessionView {
        created_at: Some(created_at),
        updated_at: Some(last),
        last_active_at: Some(last),
        status: Some(SessionStatus::Closed),
        ..session
    }
}

/// Sets the times of an imported session and closes it.
pub fn finalize_imported_session(
    session: Session,
    created_at: Timestamp,
    updated_at: Option<Timestamp>,
) -> (r: Session)
    ensures
        r@ == finalized(session@, created_at, updated_at),
{
    let last = match updated_at {
        Some(t) => t,
        None => created_at,
    };
    let mut session = session;
    session.created_at = Some(created_at);
    session.updated_at = Some(last);
    session.last_active_at = Some(last);
    session.status = Some(SessionStatus::Closed);
    session
}

/// Whether the session that is stored under the id of an imported one stays: it has more messages,
/// so it was continued after an earlier import.
pub open spec fn keeps_stored(imported: SessionView, stored_messages: Option<usize>) -> bool {
    match stored_messages {
        Some(count) => count > imported.messages.len(),
        None => false,
    }
}

/// Whether the session that is stored under the id of an imported one stays: it has more messages,
/// so it was continued after an earlier import.
pub fn keeps_stored_session(session: &Session, stored_messages: Option<usize>) -> (r: bool)
    ensures
        r == keeps_stored(session@, stored_messages),
{
    match stored_messages {
        Some(count) => count > session.messages.len(),
        None => false,
    }
}

/// A title takes at most `MAX_TITLE_BYTES` bytes and stands on one line.
pub proof fn title_is_short(s: Seq<char>)
    ensures
        text::byte_len(title_of(s)) <= MAX_TITLE_BYTES,
        !title_of(s).contains('\n'),
{
    let line = first_line(s);
    text::lines_hold_no_feed(s);
    assert(!line.contains('\n')) by {
        if text::lines_of(s).len() == 0 {
            lemma_no_lines(s);
        }
    }
    if text::byte_len(line) > MAX_TITLE_BYTES {
        let head = text::fitting(line, (MAX_TITLE_BYTES - 3) as nat);
        text::fitting_is_longest(line, (MAX_TITLE_BYTES - 3) as nat);
        text::lemma_encode_concat(head, "..."@);
        reveal_strlit("...");
        lemma_dots();
        assert(!head.contains('\n'));
    }
}

/// Three dots take three bytes.
proof fn lemma_dots()
    ensures
        text::byte_len("..."@) == 3,
{
    reveal_strlit("...");
    reveal_with_fuel(vstd::utf8::encode_utf8, 4);
    let dots = "..."@;
    assert(dots.drop_first().drop_first().drop_first() == Seq::<char>::empty());
}

/// Only the empty text has no line.
proof fn lemma_no_lines(s: Seq<char>)
    requires
        text::lines_of(s).len() == 0,
    ensures
        s.len() == 0,
{
    if s.len() > 0 {
        lemma_some_line(Seq::empty(), s);
    }
}

/// What is begun or follows makes a line.
proof fn lemma_some_line(begun: Seq<char>, rest: Seq<char>)
    requires
        begun.len() + rest.len() > 0,
    ensures
        text::lines_after(begun, rest).len() > 0,
    decreases rest.len(),
{
    if rest.len() > 0 && rest.first() != '\n' {
        lemma_some_line(begun.push(rest.first()), rest.drop_first());
    }
}

/// An imported session is closed, and was last active when it was last updated: at the last time
/// that is known of it.
pub proof fn imported_session_is_closed(
    session: SessionView,
    created_at: Timestamp,
    updated_at: Option<Timestamp>,
)
    ensures
        ({
            let imported = finalized(session, created_at, updated_at);
            &&& imported.status == Some(SessionStatus::Closed)
            &&& imported.created_at == Some(created_at)
            &&& imported.updated_at == imported.last_active_at
            &&& imported.updated_at == Some(known_or(updated_at, created_at))
            &&& imported.messages == session.messages
        }),
{
}

/// Whether a message consists of one text that is not blank and has no white space at its ends.
pub open spec fn says_something(message: MessageView) -> bool {
    &&& message.content.len() == 1
    &&& message.content[0] matches BlockView::Text { text }
    &&& text.len() > 0
    &&& text::trimmed(text) == text
}

/// Whether each message consists of one text that is not blank and has no white space at its ends.
pub open spec fn all_say_something(messages: Seq<MessageView>) -> bool {
    forall|i: int| 0 <= i < messages.len() ==> says_something(#[trigger] messages[i])
}

/// A message is only added if it says something.
pub proof fn added_message_says_something(
    messages: Seq<MessageView>,
    role: Role,
    text: Seq<char>,
    timestamp: Option<Timestamp>,
)
    requires
        all_say_something(messages),
    ensures
        all_say_something(with_text(messages, role, text, timestamp)),
{
    text::trimmed_is_stable(text);
}

/// A session that is stored under the id of an imported one is only replaced by one with at least
/// as many messages.
pub proof fn import_never_shrinks(imported: SessionView, stored_messages: usize)
    requires
        !keeps_stored(imported, Some(stored_messages)),
    ensures
        imported.messages.len() >= stored_messages,
{
}

/// A title is the first line of a text, whole if it takes at most 80 bytes, and else as much of it
/// as fits with three dots after it.
pub proof fn title_is_the_first_line(line: Seq<char>, rest: Seq<char>)
    requires
        !line.contains('\n'),
        line.len() > 0 ==> line.last() != '\r',
    ensures
        text::byte_len(line) <= 80 ==> title_of(line) == line && title_of(
            line + seq!['\n'] + rest,
        ) == line,
        text::byte_len(line) > 80 ==> title_of(line) == text::fitting(line, 77) + "..."@
            && title_of(line + seq!['\n'] + rest) == title_of(line),
{
    text::lines_feed_by_feed(line, rest);
    let all = line + seq!['\n'] + rest;
    assert(text::lines_of(all)[0] == line);
    if line.len() > 0 {
        assert(text::lines_of(line)[0] == line);
    }
}

/// A message is added with its role, its time and all of its text but the white space at the ends,
/// and a blank text adds nothing.
pub proof fn whole_text_is_added(
    messages: Seq<MessageView>,
    role: Role,
    text: Seq<char>,
    timestamp: Option<Timestamp>,
)
    ensures
        text::trimmed(text).len() == 0 ==> with_text(messages, role, text, timestamp) == messages,
        text::trimmed(text).len() > 0 ==> ({
            let more = with_text(messages, role, text, timestamp);
            &&& more.len() == messages.len() + 1
            &&& more.drop_last() == messages
            &&& more.last().id is None
            &&& more.last().role == role
            &&& more.last().timestamp == timestamp
            &&& more.last().content == seq![BlockView::Text { text: text::trimmed(text) }]
        }),
{
    if text::trimmed(text).len() > 0 {
        assert(with_text(messages, role, text, timestamp).drop_last() =~= messages);
    }
}

/// A session is named by the id in its file, or by the one that the caller expects where the file
/// has none or an empty one.
pub proof fn file_names_the_session(id: Seq<char>, hint: Option<Seq<char>>)
    ensures
        id.len() > 0 ==> named_session(Some(id), hint) == Some(id),
        id.len() == 0 ==> named_session(Some(id), hint) == hint,
        named_session(None, hint) == hint,
{
}

/// A stored session stays if and only if there is one and it has more messages than the imported
/// one.
pub proof fn longer_session_stays(imported: SessionView, count: usize)
    ensures
        keeps_stored(imported, Some(count)) <==> count > imported.messages.len(),
        !keeps_stored(imported, None),
{
}

} // verus!
