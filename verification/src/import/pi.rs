//! Importing a Pi session.

use crate::error::{Agent, ImportError};
use crate::import;
use crate::import::{append_text_message, create_with_id, finalize_imported_session, truncate_title};
use crate::json;
use crate::json::{parse_json, parse_json_lines, Json, JsonView};
use crate::message;
use crate::message::{
    parse_role, BlockView, MessageView, Role, Session, SessionStatus, SessionView,
};
use crate::order;
use crate::text;
use crate::time;
use crate::time::{or_now, parse_rfc3339_json, Timestamp};
use vstd::prelude::*;
use vstd::string::*;

verus! {

/// What a line of a transcript tells.
pub enum PiEvent {
    /// Another model is used from here on.
    ModelChange { provider: Option<String>, model: Option<String> },
    /// A message is said.
    Message { role: Role, content: Json, model: Option<String> },
    /// Nothing that an import keeps.
    Other,
}

/// A line of a transcript.
pub struct PiLine {
    pub timestamp: Option<Timestamp>,
    pub event: PiEvent,
}

/// What a line of a transcript tells.
pub enum PiEventView {
    ModelChange { provider: Option<Seq<char>>, model: Option<Seq<char>> },
    Message { role: Role, content: JsonView, model: Option<Seq<char>> },
    Other,
}

/// What a line of a transcript is.
pub struct PiLineView {
    pub timestamp: Option<Timestamp>,
    pub event: PiEventView,
}

impl View for PiLine {
    type V = PiLineView;

    open spec fn view(&self) -> PiLineView {
        PiLineView {
            timestamp: self.timestamp,
            event: match self.event {
                PiEvent::ModelChange { provider, model } => PiEventView::ModelChange {
                    provider: provider.deep_view(),
                    model: model.deep_view(),
                },
                PiEvent::Message { role, content, model } => PiEventView::Message {
                    role,
                    content: content@,
                    model: model.deep_view(),
                },
                PiEvent::Other => PiEventView::Other,
            },
        }
    }
}

impl DeepView for PiLine {
    type V = PiLineView;

    open spec fn deep_view(&self) -> PiLineView {
        self@
    }
}

/// The message of a line, if it is there and a user or the assistant says it.
pub open spec fn pi_message(message: Option<JsonView>) -> PiEventView {
    match message {
        Some(message) => match json::text_field(message, "role"@) {
            Some(name) => match message::role_named(name) {
                Some(role) => PiEventView::Message {
                    role,
                    content: import::known_or(json::field(message, "content"@), JsonView::Null),
                    model: json::text_field(message, "model"@),
                },
                None => PiEventView::Other,
            },
            None => PiEventView::Other,
        },
        None => PiEventView::Other,
    }
}

/// The line of a transcript with the given value.
pub open spec fn pi_line(value: JsonView) -> PiLineView {
    let kind = json::text_field(value, "type"@);
    PiLineView {
        timestamp: time::instant_of_json(json::field(value, "timestamp"@)),
        event: if kind == Some("model_change"@) {
            PiEventView::ModelChange {
                provider: json::text_field(value, "provider"@),
                model: json::text_field(value, "modelId"@),
            }
        } else if kind == Some("message"@) {
            pi_message(json::field(value, "message"@))
        } else {
            PiEventView::Other
        },
    }
}

/// The message of a line, if a user or the assistant says it.
fn read_pi_message(message: &Json) -> (r: PiEvent)
    ensures
        (PiLine { timestamp: None, event: r })@.event == pi_message(Some(message@)),
{
    match message.get_str("role") {
        Some(name) => match parse_role(name.as_str()) {
            Some(role) => PiEvent::Message {
                role,
                content: match message.get("content") {
                    Some(content) => content.duplicate(),
                    None => Json::Null,
                },
                model: message.get_text("model"),
            },
            None => PiEvent::Other,
        },
        None => PiEvent::Other,
    }
}

/// The line of a transcript with the given value.
pub fn read_pi_line(value: &Json) -> (r: PiLine)
    ensures
        r@ == pi_line(value@),
{
    let timestamp = parse_rfc3339_json(value.get("timestamp"));
    let kind = match value.get_str("type") {
        Some(kind) => kind.as_str(),
        None => return PiLine { timestamp, event: PiEvent::Other },
    };
    let event = if text::same_text(kind, "model_change") {
        PiEvent::ModelChange {
            provider: value.get_text("provider"),
            model: value.get_text("modelId"),
        }
    } else if text::same_text(kind, "message") {
        match value.get("message") {
            Some(message) => read_pi_message(message),
            None => PiEvent::Other,
        }
    } else {
        PiEvent::Other
    };
    PiLine { timestamp, event }
}

/// A transcript. What is `None` is not in its header.
pub struct PiTranscript {
    pub provider_session_id: Option<String>,
    pub created_at: Option<Timestamp>,
    pub working_dir: Option<String>,
    pub lines: Vec<PiLine>,
}

/// What a transcript is.
pub struct PiTranscriptView {
    pub provider_session_id: Option<Seq<char>>,
    pub created_at: Option<Timestamp>,
    pub working_dir: Option<Seq<char>>,
    pub lines: Seq<PiLineView>,
}

impl View for PiTranscript {
    type V = PiTranscriptView;

    open spec fn view(&self) -> PiTranscriptView {
        PiTranscriptView {
            provider_session_id: self.provider_session_id.deep_view(),
            created_at: self.created_at,
            working_dir: self.working_dir.deep_view(),
            lines: self.lines.deep_view(),
        }
    }
}

/// The transcript with the given header and values in the lines after it.
pub open spec fn pi_transcript(header: JsonView, values: Seq<JsonView>) -> PiTranscriptView {
    PiTranscriptView {
        provider_session_id: import::named_session(json::text_field(header, "id"@), None),
        created_at: time::instant_of_json(json::field(header, "timestamp"@)),
        working_dir: json::text_field(header, "cwd"@),
        lines: Seq::new(values.len(), |i: int| pi_line(values[i])),
    }
}

/// What reading a transcript from its lines comes to.
pub open spec fn is_pi_reading(
    lines: Seq<Seq<char>>,
    r: Result<PiTranscript, ImportError>,
) -> bool {
    if lines.len() == 0 {
        r == Err::<PiTranscript, _>(ImportError::EmptyFile(Agent::Pi))
    } else {
        match json::parsed_json(lines.first()) {
            None => r matches Err(ImportError::Json(_)),
            Some(header) => if json::text_field(header, "type"@) != Some("session"@) {
                r == Err::<PiTranscript, _>(ImportError::InvalidPiHeader)
            } else {
                r matches Ok(transcript) && transcript@ == pi_transcript(
                    header,
                    json::parsed_lines(lines.skip(1)),
                )
            },
        }
    }
}

/// Reads a transcript from its lines.
pub fn read_pi_transcript(lines: &Vec<String>) -> (r: Result<PiTranscript, ImportError>)
    ensures
        is_pi_reading(lines.deep_view(), r),
{
    if lines.len() == 0 {
        return Err(ImportError::EmptyFile(Agent::Pi));
    }
    assert(lines.deep_view().first() == lines@[0]@);
    let header = match parse_json(lines[0].as_str()) {
        Ok(header) => header,
        Err(error) => return Err(ImportError::Json(error)),
    };
    let is_session = match header.get_str("type") {
        Some(kind) => text::same_text(kind.as_str(), "session"),
        None => false,
    };
    if !is_session {
        return Err(ImportError::InvalidPiHeader);
    }
    let values = parse_json_lines(lines, 1);
    let ghost views = json::items_view(values@);
    proof {
        json::lemma_items_view(values@);
    }
    let mut read: Vec<PiLine> = Vec::new();
    for i in 0..values.len()
        invariant
            views.len() == values@.len(),
            forall|j: int| 0 <= j < values@.len() ==> #[trigger] views[j] == values@[j]@,
            read@.len() == i,
            forall|j: int| 0 <= j < i ==> (#[trigger] read@[j])@ == pi_line(views[j]),
    {
        read.push(read_pi_line(&values[i]));
    }
    assert(read.deep_view() =~= Seq::new(views.len(), |i: int| pi_line(views[i])));
    Ok(
        PiTranscript {
            provider_session_id: import::name_session(header.get_str("id"), None),
            created_at: parse_rfc3339_json(header.get("timestamp")),
            working_dir: header.get_text("cwd"),
            lines: read,
        },
    )
}

/// The first title that a user's message gives: that of the first one that is not blank.
pub open spec fn pi_title(lines: Seq<PiLineView>, texts: Seq<Seq<char>>) -> Option<Seq<char>>
    decreases lines.len(),
{
    if lines.len() == 0 {
        None
    } else {
        import::first_known(
            pi_title(lines.drop_last(), texts),
            match lines.last().event {
                PiEventView::Message { role, content, model } => {
                    let text = texts[lines.len() - 1];
                    if role == Role::User && text::trimmed(text).len() > 0 {
                        Some(import::title_of(text))
                    } else {
                        None
                    }
                },
                _ => None,
            },
        )
    }
}

/// The model: the last one that was changed to, or else the first one that a message names.
pub open spec fn pi_model(lines: Seq<PiLineView>) -> Option<Seq<char>>
    decreases lines.len(),
{
    if lines.len() == 0 {
        None
    } else {
        let before = pi_model(lines.drop_last());
        match lines.last().event {
            PiEventView::ModelChange { provider, model } => import::first_known(model, before),
            PiEventView::Message { role, content, model } => import::first_known(before, model),
            PiEventView::Other => before,
        }
    }
}

/// The provider: the last one that was changed to, or else `pi`.
pub open spec fn pi_provider(lines: Seq<PiLineView>) -> Seq<char>
    decreases lines.len(),
{
    if lines.len() == 0 {
        "pi"@
    } else {
        match lines.last().event {
            PiEventView::ModelChange { provider, model } => import::known_or(
                provider,
                pi_provider(lines.drop_last()),
            ),
            _ => pi_provider(lines.drop_last()),
        }
    }
}

/// The last time in a line.
pub open spec fn pi_last_time(lines: Seq<PiLineView>) -> Option<Timestamp>
    decreases lines.len(),
{
    if lines.len() == 0 {
        None
    } else {
        import::first_known(lines.last().timestamp, pi_last_time(lines.drop_last()))
    }
}

/// The messages of an imported session: those that say something.
pub open spec fn pi_session_messages(lines: Seq<PiLineView>, texts: Seq<Seq<char>>) -> Seq<
    MessageView,
>
    decreases lines.len(),
{
    if lines.len() == 0 {
        Seq::empty()
    } else {
        let before = pi_session_messages(lines.drop_last(), texts);
        match lines.last().event {
            PiEventView::Message { role, content, model } => import::with_text(
                before,
                role,
                texts[lines.len() - 1],
                lines.last().timestamp,
            ),
            _ => before,
        }
    }
}

/// The session that a transcript is imported as, created at the given time.
pub open spec fn pi_session(
    transcript: PiTranscriptView,
    texts: Seq<Seq<char>>,
    stem: Option<Seq<char>>,
    jcode_session_id: Seq<char>,
    created_at: Timestamp,
) -> SessionView {
    import::finalized(
        SessionView {
            title: import::first_known(
                pi_title(transcript.lines, texts),
                match stem {
                    Some(stem) => Some("Pi session "@ + stem),
                    None => None,
                },
            ),
            provider_session_id: transcript.provider_session_id,
            provider_key: Some(pi_provider(transcript.lines)),
            model: pi_model(transcript.lines),
            working_dir: transcript.working_dir,
            messages: pi_session_messages(transcript.lines, texts),
            ..import::session_with_id(jcode_session_id)
        },
        created_at,
        pi_last_time(transcript.lines),
    )
}

/// The session that a transcript is imported as, created at the given time. `texts` tells of each
/// line with a message what the message says, and `stem` is the name of the file.
pub fn build_pi_session(
    transcript: &PiTranscript,
    texts: &Vec<String>,
    stem: Option<&str>,
    jcode_session_id: &str,
    created_at: Timestamp,
) -> (r: Session)
    requires
        texts@.len() == transcript@.lines.len(),
    ensures
        r@ == pi_session(
            transcript@,
            texts.deep_view(),
            match stem {
                Some(stem) => Some(stem@),
                None => None,
            },
            jcode_session_id@,
            created_at,
        ),
{
    let ghost all = transcript@.lines;
    let ghost said = texts.deep_view();
    let lines = &transcript.lines;
    let mut session = create_with_id(jcode_session_id);
    let mut title: Option<String> = None;
    let mut provider_key = "pi".to_owned();
    let mut model: Option<String> = None;
    let mut updated_at: Option<Timestamp> = None;
    for i in 0..lines.len()
        invariant
            lines.deep_view() == all,
            said == texts.deep_view(),
            texts@.len() == lines@.len(),
            title.deep_view() == pi_title(all.take(i as int), said),
            provider_key@ == pi_provider(all.take(i as int)),
            model.deep_view() == pi_model(all.take(i as int)),
            updated_at == pi_last_time(all.take(i as int)),
            session@ == (SessionView {
                messages: pi_session_messages(all.take(i as int), said),
                ..import::session_with_id(jcode_session_id@)
            }),
    {
        let line = &lines[i];
        assert(all.take(i + 1).drop_last() == all.take(i as int));
        assert(all.take(i + 1).last() == line@);
        if line.timestamp.is_some() {
            updated_at = line.timestamp;
        }
        match &line.event {
            PiEvent::ModelChange { provider, model: changed } => {
                if let Some(provider) = provider {
                    provider_key = provider.clone();
                }
                if let Some(changed) = changed {
                    model = Some(changed.clone());
                }
            },
            PiEvent::Message { role, content, model: named } => {
                let text = texts[i].as_str();
                if title.is_none() && *role == Role::User && !text::trim(text).is_empty() {
                    title = Some(truncate_title(text));
                }
                if model.is_none() {
                    model = named.clone();
                }
                append_text_message(&mut session, *role, text, line.timestamp);
            },
            PiEvent::Other => {},
        }
    }
    assert(all.take(all.len() as int) == all);
    session.title = match title {
        Some(title) => Some(title),
        None => match stem {
            Some(stem) => Some("Pi session ".to_owned().concat(stem)),
            None => None,
        },
    };
    session.provider_session_id = transcript.provider_session_id.clone();
    session.provider_key = Some(provider_key);
    session.model = model;
    session.working_dir = transcript.working_dir.clone();
    finalize_imported_session(session, created_at, updated_at)
}

/// The session that a transcript is imported as. It was created at the time in its header, or else
/// now. `texts` tells of each line with a message what the message says, and `stem` is the name of
/// the file.
pub fn import_pi_session(
    transcript: &PiTranscript,
    texts: &Vec<String>,
    stem: Option<&str>,
    jcode_session_id: &str,
) -> (r: Session)
    requires
        texts@.len() == transcript@.lines.len(),
    ensures
        r@.created_at matches Some(created_at) && r@ == pi_session(
            transcript@,
            texts.deep_view(),
            match stem {
                Some(stem) => Some(stem@),
                None => None,
            },
            jcode_session_id@,
            created_at,
        ),
        transcript.created_at is Some ==> r@.created_at == transcript.created_at,
{
    let created_at = or_now(transcript.created_at);
    build_pi_session(transcript, texts, stem, jcode_session_id, created_at)
}

/// Every message of an imported session says something, and there are no more than lines in the
/// transcript.
pub proof fn pi_messages_say_something(lines: Seq<PiLineView>, texts: Seq<Seq<char>>)
    ensures
        import::all_say_something(pi_session_messages(lines, texts)),
        pi_session_messages(lines, texts).len() <= lines.len(),
    decreases lines.len(),
{
    if lines.len() > 0 {
        pi_messages_say_something(lines.drop_last(), texts);
        if let PiEventView::Message { role, content, model } = lines.last().event {
            import::added_message_says_something(
                pi_session_messages(lines.drop_last(), texts),
                role,
                texts[lines.len() - 1],
                lines.last().timestamp,
            );
        }
    }
}

/// The time of a line is its own. A `model_change` line tells of the provider and model that it
/// names, a `message` line of the message in it if that names the user or the assistant, and no
/// other line of anything.
pub proof fn line_tells_what_it_says(value: JsonView, message: JsonView)
    ensures
        pi_line(value).timestamp == match json::field(value, "timestamp"@) {
            Some(JsonView::Text(text)) => time::rfc3339_instant(text),
            _ => None,
        },
        json::text_field(value, "type"@) == Some("model_change"@) ==> pi_line(value).event == (
        PiEventView::ModelChange {
            provider: json::text_field(value, "provider"@),
            model: json::text_field(value, "modelId"@),
        }),
        json::text_field(value, "type"@) == Some("message"@) && json::field(value, "message"@)
            == Some(message) ==> {
            let content = match json::field(message, "content"@) {
                Some(content) => content,
                None => JsonView::Null,
            };
            let model = json::text_field(message, "model"@);
            &&& json::text_field(message, "role"@) == Some("user"@) ==> pi_line(value).event == (
            PiEventView::Message { role: Role::User, content, model })
            &&& json::text_field(message, "role"@) == Some("assistant"@) ==> pi_line(value).event
                == (PiEventView::Message { role: Role::Assistant, content, model })
            &&& json::text_field(message, "role"@) != Some("user"@) && json::text_field(
                message,
                "role"@,
            ) != Some("assistant"@) ==> pi_line(value).event is Other
        },
        json::text_field(value, "type"@) == Some("message"@) && json::field(value, "message"@)
            is None ==> pi_line(value).event is Other,
        json::text_field(value, "type"@) != Some("model_change"@) && json::text_field(
            value,
            "type"@,
        ) != Some("message"@) ==> pi_line(value).event is Other,
{
    reveal_strlit("model_change");
    reveal_strlit("message");
    assert("model_change"@.len() == 12 && "message"@.len() == 7);
    message::roles_by_name("user"@);
    if json::text_field(message, "role"@) is Some {
        message::roles_by_name(json::text_field(message, "role"@)->0);
    }
}

/// A transcript has the id, time and directory of its header, and the lines after it, one by one.
pub proof fn transcript_follows_its_header(header: JsonView, values: Seq<JsonView>)
    ensures
        ({
            let transcript = pi_transcript(header, values);
            &&& transcript.provider_session_id == match json::text_field(header, "id"@) {
                Some(id) => if id.len() > 0 {
                    Some(id)
                } else {
                    None
                },
                None => None,
            }
            &&& transcript.created_at == match json::field(header, "timestamp"@) {
                Some(JsonView::Text(text)) => time::rfc3339_instant(text),
                _ => None,
            }
            &&& transcript.working_dir == json::text_field(header, "cwd"@)
            &&& transcript.lines.len() == values.len()
            &&& forall|i: int|
                0 <= i < values.len() ==> #[trigger] transcript.lines[i] == pi_line(values[i])
        }),
{
}

/// Whether a line says something: it has a message, and its text is not blank.
pub open spec fn says_something(line: PiLineView, text: Seq<char>) -> bool {
    line.event is Message && text::trimmed(text).len() > 0
}

/// The messages of lines, by the index of each.
proof fn lemma_session_messages(lines: Seq<PiLineView>, texts: Seq<Seq<char>>) -> (at: Seq<int>)
    ensures
        order::indices_in_order(at, lines.len()),
        at.len() == pi_session_messages(lines, texts).len(),
        forall|k: int|
            0 <= k < at.len() ==> {
                let i = #[trigger] at[k];
                &&& says_something(lines[i], texts[i])
                &&& pi_session_messages(lines, texts)[k] == (MessageView {
                    id: None,
                    role: lines[i].event->role,
                    content: seq![BlockView::Text { text: text::trimmed(texts[i]) }],
                    timestamp: lines[i].timestamp,
                })
            },
        forall|i: int|
            0 <= i < lines.len() && says_something(#[trigger] lines[i], texts[i]) ==> at.contains(
                i,
            ),
    decreases lines.len(),
{
    if lines.len() == 0 {
        Seq::empty()
    } else {
        let rest = lines.drop_last();
        let before = lemma_session_messages(rest, texts);
        let last = lines.len() - 1;
        order::lemma_one_more_index(before, rest.len());
        let at = if says_something(lines.last(), texts[last]) {
            before.push(last)
        } else {
            before
        };
        assert forall|k: int| 0 <= k < at.len() implies {
            let i = #[trigger] at[k];
            &&& says_something(lines[i], texts[i])
            &&& pi_session_messages(lines, texts)[k] == (MessageView {
                id: None,
                role: lines[i].event->role,
                content: seq![BlockView::Text { text: text::trimmed(texts[i]) }],
                timestamp: lines[i].timestamp,
            })
        } by {
            if k < before.len() {
                assert(before[k] == at[k]);
                assert(rest[before[k]] == lines[at[k]]);
            }
        }
        assert forall|i: int|
            0 <= i < lines.len() && says_something(
                #[trigger] lines[i],
                texts[i],
            ) implies at.contains(i) by {
            if i < last {
                assert(rest[i] == lines[i]);
            }
        }
        at
    }
}

/// The messages of an imported session are, in order, one for each line with a message that says
/// something, with the role and the time of the line and all of its text but the white space at the
/// ends, however long it is.
pub proof fn session_message_by_message(
    transcript: PiTranscriptView,
    texts: Seq<Seq<char>>,
    stem: Option<Seq<char>>,
    jcode_session_id: Seq<char>,
    created_at: Timestamp,
) -> (at: Seq<int>)
    requires
        texts.len() == transcript.lines.len(),
    ensures
        order::indices_in_order(at, texts.len()),
        at.len() == pi_session(
            transcript,
            texts,
            stem,
            jcode_session_id,
            created_at,
        ).messages.len(),
        forall|k: int|
            0 <= k < at.len() ==> {
                let line = transcript.lines[#[trigger] at[k]];
                let text = text::trimmed(texts[at[k]]);
                &&& text.len() > 0
                &&& line.event matches PiEventView::Message { role, content, model }
                &&& pi_session(
                    transcript,
                    texts,
                    stem,
                    jcode_session_id,
                    created_at,
                ).messages[k] == (MessageView {
                    id: None,
                    role,
                    content: seq![BlockView::Text { text }],
                    timestamp: line.timestamp,
                })
            },
        forall|i: int|
            0 <= i < texts.len() && (#[trigger] transcript.lines[i]).event is Message
                && text::trimmed(texts[i]).len() > 0 ==> at.contains(i),
{
    let at = lemma_session_messages(transcript.lines, texts);
    assert forall|i: int|
        0 <= i < texts.len() && (#[trigger] transcript.lines[i]).event is Message && text::trimmed(
            texts[i],
        ).len() > 0 implies at.contains(i) by {
        assert(says_something(transcript.lines[i], texts[i]));
    }
    at
}

/// Whether a line is a message of the user that says something.
pub open spec fn gives_title(line: PiLineView, text: Seq<char>) -> bool {
    (line.event matches PiEventView::Message { role, content, model } && role == Role::User)
        && text::trimmed(text).len() > 0
}

/// The first title in lines.
proof fn lemma_first_title(lines: Seq<PiLineView>, texts: Seq<Seq<char>>, i: int)
    requires
        0 <= i <= lines.len(),
        forall|j: int| 0 <= j < i ==> !gives_title(#[trigger] lines[j], texts[j]),
        i < lines.len() ==> gives_title(lines[i], texts[i]),
    ensures
        pi_title(lines, texts) == if i < lines.len() {
            Some(import::title_of(texts[i]))
        } else {
            None
        },
    decreases lines.len(),
{
    if lines.len() > 0 {
        let rest = lines.drop_last();
        let last = lines.len() - 1;
        assert(lines[last] == lines.last());
        assert forall|j: int| 0 <= j < rest.len() implies #[trigger] rest[j] == lines[j] by {}
        if i <= last {
            lemma_first_title(rest, texts, i);
        } else {
            assert(!gives_title(lines[last], texts[last]));
            lemma_first_title(rest, texts, last);
        }
    }
}

/// The title of an imported session is that of the first message of the user that says something,
/// or else it names the session by its file.
pub proof fn first_title_counts(
    transcript: PiTranscriptView,
    texts: Seq<Seq<char>>,
    stem: Option<Seq<char>>,
    jcode_session_id: Seq<char>,
    created_at: Timestamp,
    i: int,
)
    requires
        texts.len() == transcript.lines.len(),
        0 <= i <= texts.len(),
        forall|j: int| 0 <= j < i ==> !gives_title(#[trigger] transcript.lines[j], texts[j]),
        i < texts.len() ==> gives_title(transcript.lines[i], texts[i]),
    ensures
        pi_session(transcript, texts, stem, jcode_session_id, created_at).title == if i
            < texts.len() {
            Some(import::title_of(texts[i]))
        } else {
            match stem {
                Some(stem) => Some("Pi session "@ + stem),
                None => None,
            }
        },
{
    lemma_first_title(transcript.lines, texts, i);
}

/// The model that a line changes to.
pub open spec fn model_changed_to(line: PiLineView) -> Option<Seq<char>> {
    match line.event {
        PiEventView::ModelChange { provider, model } => model,
        _ => None,
    }
}

/// The model that a message in a line names.
pub open spec fn model_named_in(line: PiLineView) -> Option<Seq<char>> {
    match line.event {
        PiEventView::Message { role, content, model } => model,
        _ => None,
    }
}

/// The provider that a line changes to.
pub open spec fn provider_changed_to(line: PiLineView) -> Option<Seq<char>> {
    match line.event {
        PiEventView::ModelChange { provider, model } => provider,
        _ => None,
    }
}

/// The model of lines none of which changes it.
proof fn lemma_first_model(lines: Seq<PiLineView>, i: int)
    requires
        0 <= i <= lines.len(),
        forall|j: int| 0 <= j < lines.len() ==> model_changed_to(#[trigger] lines[j]) is None,
        forall|j: int| 0 <= j < i ==> model_named_in(#[trigger] lines[j]) is None,
        i < lines.len() ==> model_named_in(lines[i]) is Some,
    ensures
        pi_model(lines) == if i < lines.len() {
            model_named_in(lines[i])
        } else {
            None
        },
    decreases lines.len(),
{
    if lines.len() > 0 {
        let rest = lines.drop_last();
        let last = lines.len() - 1;
        assert(lines[last] == lines.last());
        assert forall|j: int| 0 <= j < rest.len() implies #[trigger] rest[j] == lines[j] by {}
        assert(model_changed_to(lines[last]) is None);
        if i <= last {
            lemma_first_model(rest, i);
        } else {
            assert(model_named_in(lines[last]) is None);
            lemma_first_model(rest, last);
        }
    }
}

/// The model of lines the last change of which is at an index.
proof fn lemma_last_model(lines: Seq<PiLineView>, i: int)
    requires
        0 <= i < lines.len(),
        model_changed_to(lines[i]) is Some,
        forall|j: int| i < j < lines.len() ==> model_changed_to(#[trigger] lines[j]) is None,
    ensures
        pi_model(lines) == model_changed_to(lines[i]),
    decreases lines.len(),
{
    let rest = lines.drop_last();
    let last = lines.len() - 1;
    assert(lines[last] == lines.last());
    if i < last {
        assert forall|j: int| 0 <= j < rest.len() implies #[trigger] rest[j] == lines[j] by {}
        assert(model_changed_to(lines[last]) is None);
        lemma_last_model(rest, i);
    }
}

/// The model of an imported session is the last one that was changed to. Where none was, it is the
/// first one that a message names.
pub proof fn last_change_of_model_counts(
    transcript: PiTranscriptView,
    texts: Seq<Seq<char>>,
    stem: Option<Seq<char>>,
    jcode_session_id: Seq<char>,
    created_at: Timestamp,
    i: int,
    k: int,
)
    requires
        -1 <= i < transcript.lines.len(),
        i >= 0 ==> model_changed_to(transcript.lines[i]) is Some,
        forall|j: int|
            i < j < transcript.lines.len() ==> model_changed_to(#[trigger] transcript.lines[j])
                is None,
        0 <= k <= transcript.lines.len(),
        forall|j: int| 0 <= j < k ==> model_named_in(#[trigger] transcript.lines[j]) is None,
        k < transcript.lines.len() ==> model_named_in(transcript.lines[k]) is Some,
    ensures
        pi_session(transcript, texts, stem, jcode_session_id, created_at).model == if i >= 0 {
            model_changed_to(transcript.lines[i])
        } else if k < transcript.lines.len() {
            model_named_in(transcript.lines[k])
        } else {
            None
        },
{
    if i >= 0 {
        lemma_last_model(transcript.lines, i);
    } else {
        lemma_first_model(transcript.lines, k);
    }
}

/// The provider of lines the last change of which is at an index.
proof fn lemma_last_provider(lines: Seq<PiLineView>, i: int)
    requires
        -1 <= i < lines.len(),
        i >= 0 ==> provider_changed_to(lines[i]) is Some,
        forall|j: int| i < j < lines.len() ==> provider_changed_to(#[trigger] lines[j]) is None,
    ensures
        pi_provider(lines) == if i >= 0 {
            provider_changed_to(lines[i])->0
        } else {
            "pi"@
        },
    decreases lines.len(),
{
    if lines.len() > 0 {
        let rest = lines.drop_last();
        let last = lines.len() - 1;
        assert(lines[last] == lines.last());
        if i < last {
            assert forall|j: int| 0 <= j < rest.len() implies #[trigger] rest[j] == lines[j] by {}
            assert(provider_changed_to(lines[last]) is None);
            lemma_last_provider(rest, i);
        }
    }
}

/// The provider of an imported session is the last one that was changed to, or else `pi`.
pub proof fn last_change_of_provider_counts(
    transcript: PiTranscriptView,
    texts: Seq<Seq<char>>,
    stem: Option<Seq<char>>,
    jcode_session_id: Seq<char>,
    created_at: Timestamp,
    i: int,
)
    requires
        -1 <= i < transcript.lines.len(),
        i >= 0 ==> provider_changed_to(transcript.lines[i]) is Some,
        forall|j: int|
            i < j < transcript.lines.len() ==> provider_changed_to(#[trigger] transcript.lines[j])
                is None,
    ensures
        pi_session(transcript, texts, stem, jcode_session_id, created_at).provider_key == if i
            >= 0 {
            provider_changed_to(transcript.lines[i])
        } else {
            Some("pi"@)
        },
{
    lemma_last_provider(transcript.lines, i);
}

/// The last time of lines.
proof fn lemma_last_time(lines: Seq<PiLineView>, i: int)
    requires
        -1 <= i < lines.len(),
        i >= 0 ==> lines[i].timestamp is Some,
        forall|j: int| i < j < lines.len() ==> (#[trigger] lines[j]).timestamp is None,
    ensures
        pi_last_time(lines) == if i >= 0 {
            lines[i].timestamp
        } else {
            None
        },
    decreases lines.len(),
{
    if lines.len() > 0 {
        let rest = lines.drop_last();
        let last = lines.len() - 1;
        assert(lines[last] == lines.last());
        if i < last {
            assert forall|j: int| 0 <= j < rest.len() implies #[trigger] rest[j] == lines[j] by {}
            assert(lines[last].timestamp is None);
            lemma_last_time(rest, i);
        }
    }
}

/// An imported session was last updated at the time of the last line that has one, of whatever kind
/// it is, or else when it was created. It is closed, and keeps the id and the directory of the
/// transcript.
pub proof fn last_time_counts(
    transcript: PiTranscriptView,
    texts: Seq<Seq<char>>,
    stem: Option<Seq<char>>,
    jcode_session_id: Seq<char>,
    created_at: Timestamp,
    i: int,
)
    requires
        -1 <= i < transcript.lines.len(),
        i >= 0 ==> transcript.lines[i].timestamp is Some,
        forall|j: int|
            i < j < transcript.lines.len() ==> (#[trigger] transcript.lines[j]).timestamp is None,
    ensures
        ({
            let session = pi_session(transcript, texts, stem, jcode_session_id, created_at);
            &&& session.updated_at == if i >= 0 {
                transcript.lines[i].timestamp
            } else {
                Some(created_at)
            }
            &&& session.last_active_at == session.updated_at
            &&& session.created_at == Some(created_at)
            &&& session.status == Some(SessionStatus::Closed)
            &&& session.id == Some(jcode_session_id)
            &&& session.provider_session_id == transcript.provider_session_id
            &&& session.working_dir == transcript.working_dir
        }),
{
    lemma_last_time(transcript.lines, i);
}

/// Reading a transcript comes to what its lines are: a file without lines, a first line that is no
/// JSON and one that is no session are errors, and any other file is the transcript with that
/// header and the values in all of the lines after it.
pub proof fn reading_takes_header_and_lines(
    first: Seq<char>,
    others: Seq<Seq<char>>,
    r: Result<PiTranscript, ImportError>,
)
    ensures
        is_pi_reading(Seq::empty(), r) ==> r == Err::<PiTranscript, _>(
            ImportError::EmptyFile(Agent::Pi),
        ),
        is_pi_reading(seq![first] + others, r) ==> match json::parsed_json(first) {
            None => r matches Err(error) && error is Json,
            Some(header) => if json::text_field(header, "type"@) == Some("session"@) {
                r matches Ok(transcript) && transcript@ == pi_transcript(
                    header,
                    json::parsed_lines(others),
                )
            } else {
                r == Err::<PiTranscript, _>(ImportError::InvalidPiHeader)
            },
        },
{
    let lines = seq![first] + others;
    assert(lines.first() == first);
    assert(lines.skip(1) == others);
}

} // verus!
