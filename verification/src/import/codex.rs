//! Importing a Codex session.

use crate::error::{Agent, ImportError};
use crate::import;
use crate::import::{append_text_message, create_with_id, finalize_imported_session, SessionFile};
use crate::json;
use crate::json::{parse_json, parse_json_lines, Json, JsonView};
use crate::message;
use crate::message::{
    parse_role, BlockView, MessageView, Role, Session, SessionStatus, SessionView,
};
use crate::order;
use crate::text;
use crate::time;
use crate::time::{or_now, parse_rfc3339_json, Timestamp};
use vstd::prelude::*;
use vstd::string::*;

verus! {

/// What the header of a transcript says of the session: the payload of a `session_meta` line, or
/// the line itself.
pub open spec fn codex_meta(header: JsonView) -> JsonView {
    if json::text_field(header, "type"@) == Some("session_meta"@) {
        import::known_or(json::field(header, "payload"@), header)
    } else {
        header
    }
}

/// What the header of a transcript says of the session.
fn meta_of(header: &Json) -> (r: &Json)
    ensures
        r@ == codex_meta(header@),
{
    let typed = match header.get_str("type") {
        Some(kind) => text::same_text(kind.as_str(), "session_meta"),
        None => false,
    };
    if typed {
        match header.get("payload") {
            Some(payload) => payload,
            None => header,
        }
    } else {
        header
    }
}

/// The session id in the first line of a transcript.
pub open spec fn codex_id_in(first_line: Seq<char>) -> Option<Seq<char>> {
    match json::parsed_json(first_line) {
        Some(header) => json::text_field(codex_meta(header), "id"@),
        None => None,
    }
}

/// Whether a file is the transcript of the session `session_id`. Its head is its first line.
pub open spec fn is_codex_file(file: SessionFile, session_id: Seq<char>) -> bool {
    match file.head {
        Some(line) => codex_id_in(line@) == Some(session_id),
        None => false,
    }
}

/// Whether `first_line` is the first line of the transcript of the session `session_id`.
fn has_codex_id(first_line: &str, session_id: &str) -> (r: bool)
    ensures
        r == (codex_id_in(first_line@) == Some(session_id@)),
{
    match parse_json(first_line) {
        Ok(header) => match meta_of(&header).get_str("id") {
            Some(id) => text::same_text(id.as_str(), session_id),
            None => false,
        },
        Err(_) => false,
    }
}

/// The path of the first of `files` that is the one of the session `session_id`.
pub open spec fn codex_path(files: Seq<SessionFile>, session_id: Seq<char>) -> Option<Seq<char>>
    decreases files.len(),
{
    if files.len() == 0 {
        None
    } else {
        import::first_known(
            codex_path(files.drop_last(), session_id),
            if is_codex_file(files.last(), session_id) {
                Some(files.last().path@)
            } else {
                None
            },
        )
    }
}

/// The path of the first of `files` that is the one of the session `session_id`. The head of a file
/// is its first line.
pub fn find_codex_session_file(files: &Vec<SessionFile>, session_id: &str) -> (r: Result<
    String,
    ImportError,
>)
    ensures
        match r {
            Ok(path) => codex_path(files@, session_id@) == Some(path@),
            Err(error) => codex_path(files@, session_id@) is None && error == ImportError::NotFound(
                Agent::Codex,
            ),
        },
{
    let mut found: Option<String> = None;
    for i in 0..files.len()
        invariant
            found.deep_view() == codex_path(files@.take(i as int), session_id@),
    {
        assert(files@.take(i + 1).drop_last() == files@.take(i as int));
        if found.is_none() {
            if let Some(head) = &files[i].head {
                if has_codex_id(head.as_str(), session_id) {
                    found = Some(files[i].path.clone());
                }
            }
        }
    }
    assert(files@.take(files@.len() as int) == files@);
    match found {
        Some(path) => Ok(path),
        None => Err(ImportError::NotFound(Agent::Codex)),
    }
}

/// A message of a transcript.
pub struct CodexMessage {
    pub role: Role,
    pub content: Json,
    pub timestamp: Option<Timestamp>,
    pub model: Option<String>,
}

/// What a message of a transcript is.
pub struct CodexMessageView {
    pub role: Role,
    pub content: JsonView,
    pub timestamp: Option<Timestamp>,
    pub model: Option<Seq<char>>,
}

impl View for CodexMessage {
    type V = CodexMessageView;

    open spec fn view(&self) -> CodexMessageView {
        CodexMessageView {
            role: self.role,
            content: self.content@,
            timestamp: self.timestamp,
            model: self.model.deep_view(),
        }
    }
}

impl DeepView for CodexMessage {
    type V = CodexMessageView;

    open spec fn deep_view(&self) -> CodexMessageView {
        self@
    }
}

/// The message with the given body and time, if a user or the assistant says it.
pub open spec fn codex_message_with(body: JsonView, timestamp: Option<JsonView>) -> Option<
    CodexMessageView,
> {
    match json::text_field(body, "role"@) {
        Some(name) => match message::role_named(name) {
            Some(role) => Some(
                CodexMessageView {
                    role,
                    content: import::known_or(json::field(body, "content"@), JsonView::Null),
                    timestamp: time::instant_of_json(timestamp),
                    model: json::text_field(body, "model"@),
                },
            ),
            None => None,
        },
        None => None,
    }
}

/// The message in a line of a transcript: a `message` line, or a `response_item` line with a
/// message as its payload.
pub open spec fn codex_message(value: JsonView) -> Option<CodexMessageView> {
    let kind = json::text_field(value, "type"@);
    if kind == Some("message"@) {
        codex_message_with(value, json::field(value, "timestamp"@))
    } else if kind == Some("response_item"@) {
        match json::field(value, "payload"@) {
            Some(payload) => if json::text_field(payload, "type"@) == Some("message"@) {
                codex_message_with(
                    payload,
                    import::first_known(
                        json::field(value, "timestamp"@),
                        json::field(payload, "timestamp"@),
                    ),
                )
            } else {
                None
            },
            None => None,
        }
    } else {
        None
    }
}

/// The message with the given body and time, if a user or the assistant says it.
fn read_body(body: &Json, timestamp: Option<&Json>) -> (r: Option<CodexMessage>)
    ensures
        r.deep_view() == codex_message_with(
            body@,
            match timestamp {
                Some(t) => Some(t@),
                None => None,
            },
        ),
{
    match body.get_str("role") {
        Some(name) => match parse_role(name.as_str()) {
            Some(role) => Some(
                CodexMessage {
                    role,
                    content: match body.get("content") {
                        Some(content) => content.duplicate(),
                        None => Json::Null,
                    },
                    timestamp: parse_rfc3339_json(timestamp),
                    model: body.get_text("model"),
                },
            ),
            None => None,
        },
        None => None,
    }
}

/// The message in a line of a transcript.
pub fn read_codex_message(value: &Json) -> (r: Option<CodexMessage>)
    ensures
        r.deep_view() == codex_message(value@),
{
    let kind = match value.get_str("type") {
        Some(kind) => kind.as_str(),
        None => return None,
    };
    if text::same_text(kind, "message") {
        read_body(value, value.get("timestamp"))
    } else if text::same_text(kind, "response_item") {
        match value.get("payload") {
            Some(payload) => {
                let is_message = match payload.get_str("type") {
                    Some(kind) => text::same_text(kind.as_str(), "message"),
                    None => false,
                };
                if !is_message {
                    return None;
                }
                match value.get("timestamp") {
                    Some(timestamp) => read_body(payload, Some(timestamp)),
                    None => read_body(payload, payload.get("timestamp")),
                }
            },
            None => None,
        }
    } else {
        None
    }
}

/// The messages in the lines of a transcript.
pub open spec fn codex_messages(values: Seq<JsonView>) -> Seq<CodexMessageView>
    decreases values.len(),
{
    if values.len() == 0 {
        Seq::empty()
    } else {
        match codex_message(values.last()) {
            Some(message) => codex_messages(values.drop_last()).push(message),
            None => codex_messages(values.drop_last()),
        }
    }
}

/// The messages in the lines of a transcript.
fn read_codex_messages(values: &Vec<Json>) -> (r: Vec<CodexMessage>)
    ensures
        r.deep_view() == codex_messages(json::items_view(values@)),
{
    let ghost views = json::items_view(values@);
    proof {
        json::lemma_items_view(values@);
    }
    let mut out: Vec<CodexMessage> = Vec::new();
    for i in 0..values.len()
        invariant
            views == json::items_view(values@),
            views.len() == values@.len(),
            forall|j: int| 0 <= j < values@.len() ==> #[trigger] views[j] == values@[j]@,
            out.deep_view() =~= codex_messages(views.take(i as int)),
    {
        let ghost before = out.deep_view();
        assert(views.take(i + 1).drop_last() == views.take(i as int));
        assert(views.take(i + 1).last() == values@[i as int]@);
        if let Some(message) = read_codex_message(&values[i]) {
            out.push(message);
            assert(out.deep_view() =~= before.push(message@));
        }
    }
    assert(views.take(views.len() as int) == views);
    out
}

/// A transcript. What is `None` is not in its header.
pub struct CodexTranscript {
    pub session_id: String,
    pub created_at: Option<Timestamp>,
    pub working_dir: Option<String>,
    pub messages: Vec<CodexMessage>,
}

/// What a transcript is.
pub struct CodexTranscriptView {
    pub session_id: Seq<char>,
    pub created_at: Option<Timestamp>,
    pub working_dir: Option<Seq<char>>,
    pub messages: Seq<CodexMessageView>,
}

impl View for CodexTranscript {
    type V = CodexTranscriptView;

    open spec fn view(&self) -> CodexTranscriptView {
        CodexTranscriptView {
            session_id: self.session_id@,
            created_at: self.created_at,
            working_dir: self.working_dir.deep_view(),
            messages: self.messages.deep_view(),
        }
    }
}

/// The transcript with the given header and values in the lines after it.
pub open spec fn codex_transcript(
    header: JsonView,
    session_id: Seq<char>,
    values: Seq<JsonView>,
) -> CodexTranscriptView {
    let meta = codex_meta(header);
    CodexTranscriptView {
        session_id,
        created_at: import::first_known(
            time::instant_of_json(json::field(meta, "timestamp"@)),
            time::instant_of_json(json::field(header, "timestamp"@)),
        ),
        working_dir: json::text_field(meta, "cwd"@),
        messages: codex_messages(values),
    }
}

/// What reading a transcript from its lines comes to.
pub open spec fn is_codex_reading(
    lines: Seq<Seq<char>>,
    session_id_hint: Option<Seq<char>>,
    r: Result<CodexTranscript, ImportError>,
) -> bool {
    if lines.len() == 0 {
        r == Err::<CodexTranscript, _>(ImportError::EmptyFile(Agent::Codex))
    } else {
        match json::parsed_json(lines.first()) {
            None => r matches Err(ImportError::Json(_)),
            Some(header) => match import::named_session(
                json::text_field(codex_meta(header), "id"@),
                session_id_hint,
            ) {
                None => r == Err::<CodexTranscript, _>(ImportError::MissingId(Agent::Codex)),
                Some(session_id) => r matches Ok(transcript) && transcript@ == codex_transcript(
                    header,
                    session_id,
                    json::parsed_lines(lines.skip(1)),
                ),
            },
        }
    }
}

/// Reads a transcript from its lines. The session is the one that the header names, or else the
/// one that the caller expects.
pub fn read_codex_transcript(lines: &Vec<String>, session_id_hint: Option<&str>) -> (r: Result<
    CodexTranscript,
    ImportError,
>)
    ensures
        is_codex_reading(
            lines.deep_view(),
            match session_id_hint {
                Some(id) => Some(id@),
                None => None,
            },
            r,
        ),
{
    if lines.len() == 0 {
        return Err(ImportError::EmptyFile(Agent::Codex));
    }
    assert(lines.deep_view().first() == lines@[0]@);
    let header = match parse_json(lines[0].as_str()) {
        Ok(header) => header,
        Err(error) => return Err(ImportError::Json(error)),
    };
    let meta = meta_of(&header);
    let session_id = match import::name_session(meta.get_str("id"), session_id_hint) {
        Some(session_id) => session_id,
        None => return Err(ImportError::MissingId(Agent::Codex)),
    };
    let created_at = match parse_rfc3339_json(meta.get("timestamp")) {
        Some(t) => Some(t),
        None => parse_rfc3339_json(header.get("timestamp")),
    };
    let values = parse_json_lines(lines, 1);
    Ok(
        CodexTranscript {
            session_id,
            created_at,
            working_dir: meta.get_text("cwd"),
            messages: read_codex_messages(&values),
        },
    )
}

/// What the content of a message says as one text, and the title that the text would give.
pub struct CodexText {
    pub text: String,
    pub title: Option<String>,
}

/// A message and what it says.
pub struct CodexRecord {
    pub message: CodexMessageView,
    pub text: Seq<char>,
    pub title: Option<Seq<char>>,
}

/// The messages, each with what it says.
pub open spec fn codex_records(messages: Seq<CodexMessageView>, texts: Seq<CodexText>) -> Seq<
    CodexRecord,
> {
    Seq::new(
        messages.len(),
        |i: int|
            CodexRecord {
                message: messages[i],
                text: texts[i].text@,
                title: texts[i].title.deep_view(),
            },
    )
}

/// The first of `lines` that has a `<cwd>` tag.
pub open spec fn cwd_line(lines: Seq<Seq<char>>) -> Option<Seq<char>>
    decreases lines.len(),
{
    if lines.len() == 0 {
        None
    } else if cwd_line(lines.drop_last()) is Some {
        cwd_line(lines.drop_last())
    } else if text::has_text(lines.last(), "<cwd>"@) {
        Some(lines.last())
    } else {
        None
    }
}

/// The directory that a text names in its first line with a `<cwd>` tag.
pub open spec fn cwd_in(text: Seq<char>) -> Option<Seq<char>> {
    match cwd_line(text::lines_of(text)) {
        Some(line) => {
            let cwd = text::trimmed(
                text::replaced(text::replaced(line, "<cwd>"@, ""@), "</cwd>"@, ""@),
            );
            if cwd.len() > 0 {
                Some(cwd)
            } else {
                None
            }
        },
        None => None,
    }
}

/// The first title that a user's message gives.
pub open spec fn codex_title(records: Seq<CodexRecord>) -> Option<Seq<char>>
    decreases records.len(),
{
    if records.len() == 0 {
        None
    } else if codex_title(records.drop_last()) is Some {
        codex_title(records.drop_last())
    } else if records.last().message.role == Role::User {
        records.last().title
    } else {
        None
    }
}

/// The first directory that a message names.
pub open spec fn codex_cwd(records: Seq<CodexRecord>) -> Option<Seq<char>>
    decreases records.len(),
{
    if records.len() == 0 {
        None
    } else {
        import::first_known(codex_cwd(records.drop_last()), cwd_in(records.last().text))
    }
}

/// The first model that a message names.
pub open spec fn codex_model(records: Seq<CodexRecord>) -> Option<Seq<char>>
    decreases records.len(),
{
    if records.len() == 0 {
        None
    } else {
        import::first_known(codex_model(records.drop_last()), records.last().message.model)
    }
}

/// The last time that a message has.
pub open spec fn codex_last_time(records: Seq<CodexRecord>) -> Option<Timestamp>
    decreases records.len(),
{
    if records.len() == 0 {
        None
    } else {
        import::first_known(
            records.last().message.timestamp,
            codex_last_time(records.drop_last()),
        )
    }
}

/// The messages of an imported session: those that say something.
pub open spec fn codex_session_messages(records: Seq<CodexRecord>) -> Seq<MessageView>
    decreases records.len(),
{
    if records.len() == 0 {
        Seq::empty()
    } else {
        import::with_text(
            codex_session_messages(records.drop_last()),
            records.last().message.role,
            records.last().text,
            records.last().message.timestamp,
        )
    }
}

/// The session that a transcript is imported as, created at the given time.
pub open spec fn codex_session(
    transcript: CodexTranscriptView,
    texts: Seq<CodexText>,
    jcode_session_id: Seq<char>,
    created_at: Timestamp,
) -> SessionView {
    let records = codex_records(transcript.messages, texts);
    import::finalized(
        SessionView {
            title: Some(
                import::known_or(codex_title(records), "Codex session "@ + transcript.session_id),
            ),
            provider_session_id: Some(transcript.session_id),
            provider_key: Some("openai-codex"@),
            model: codex_model(records),
            working_dir: import::first_known(transcript.working_dir, codex_cwd(records)),
            messages: codex_session_messages(records),
            ..import::session_with_id(jcode_session_id)
        },
        created_at,
        codex_last_time(records),
    )
}

/// The directory that a text names in its first line with a `<cwd>` tag.
fn find_cwd(text: &str) -> (r: Option<String>)
    ensures
        r.deep_view() == cwd_in(text@),
{
    let lines = text::lines(text);
    let ghost views = lines.deep_view();
    let mut found: Option<usize> = None;
    for i in 0..lines.len()
        invariant
            views == lines.deep_view(),
            match found {
                Some(at) => at < lines@.len() && cwd_line(views.take(i as int)) == Some(
                    views[at as int],
                ),
                None => cwd_line(views.take(i as int)) is None,
            },
    {
        assert(views.take(i + 1).drop_last() == views.take(i as int));
        assert(views.take(i + 1).last() == lines@[i as int]@);
        if found.is_none() && text::contains(lines[i].as_str(), "<cwd>") {
            found = Some(i);
        }
    }
    assert(views.take(views.len() as int) == views);
    match found {
        Some(at) => {
            proof {
                reveal_strlit("<cwd>");
                reveal_strlit("</cwd>");
            }
            let opened = text::replace(lines[at].as_str(), "<cwd>", "");
            let closed = text::replace(opened.as_str(), "</cwd>", "");
            let cwd = text::trim(closed.as_str());
            if cwd.is_empty() {
                None
            } else {
                Some(cwd.to_owned())
            }
        },
        None => None,
    }
}

/// The session that a transcript is imported as, created at the given time. `texts` tells of each
/// message what it says.
pub fn build_codex_session(
    transcript: &CodexTranscript,
    texts: &Vec<CodexText>,
    jcode_session_id: &str,
    created_at: Timestamp,
) -> (r: Session)
    requires
        texts@.len() == transcript@.messages.len(),
    ensures
        r@ == codex_session(transcript@, texts@, jcode_session_id@, created_at),
{
    let messages = &transcript.messages;
    let ghost records = codex_records(transcript@.messages, texts@);
    let mut session = create_with_id(jcode_session_id);
    let mut title: Option<String> = None;
    let mut working_dir = transcript.working_dir.clone();
    let mut model: Option<String> = None;
    let mut updated_at: Option<Timestamp> = None;
    for i in 0..messages.len()
        invariant
            texts@.len() == messages@.len(),
            messages.deep_view() == transcript@.messages,
            records == codex_records(transcript@.messages, texts@),
            title.deep_view() == codex_title(records.take(i as int)),
            working_dir.deep_view() == import::first_known(
                transcript@.working_dir,
                codex_cwd(records.take(i as int)),
            ),
            model.deep_view() == codex_model(records.take(i as int)),
            updated_at == codex_last_time(records.take(i as int)),
            session@ == (SessionView {
                messages: codex_session_messages(records.take(i as int)),
                ..import::session_with_id(jcode_session_id@)
            }),
    {
        let message = &messages[i];
        let text = texts[i].text.as_str();
        assert(transcript@.messages[i as int] == message@);
        assert(records.take(i + 1).drop_last() == records.take(i as int));
        assert(records.take(i + 1).last() == records[i as int]);
        if title.is_none() && message.role == Role::User {
            title = texts[i].title.clone();
        }
        if working_dir.is_none() {
            working_dir = find_cwd(text);
        }
        if model.is_none() {
            model = message.model.clone();
        }
        if message.timestamp.is_some() {
            updated_at = message.timestamp;
        }
        append_text_message(&mut session, message.role, text, message.timestamp);
    }
    assert(records.take(records.len() as int) == records);
    session.title = match title {
        Some(title) => Some(title),
        None => Some("Codex session ".to_owned().concat(transcript.session_id.as_str())),
    };
    session.provider_session_id = Some(transcript.session_id.clone());
    session.provider_key = Some("openai-codex".to_owned());
    session.model = model;
    session.working_dir = working_dir;
    finalize_imported_session(session, created_at, updated_at)
}

/// The session that a transcript is imported as. It was created at the time in its header, or else
/// now. `texts` tells of each message what it says.
pub fn import_codex_session_from_path(
    transcript: &CodexTranscript,
    texts: &Vec<CodexText>,
    jcode_session_id: &str,
) -> (r: Session)
    requires
        texts@.len() == transcript@.messages.len(),
    ensures
        r@.created_at matches Some(created_at) && r@ == codex_session(
            transcript@,
            texts@,
            jcode_session_id@,
            created_at,
        ),
        transcript.created_at is Some ==> r@.created_at == transcript.created_at,
{
    let created_at = or_now(transcript.created_at);
    build_codex_session(transcript, texts, jcode_session_id, created_at)
}

/// Every message of an imported session says something, and there are no more than in the
/// transcript.
pub proof fn codex_messages_say_something(records: Seq<CodexRecord>)
    ensures
        import::all_say_something(codex_session_messages(records)),
        codex_session_messages(records).len() <= records.len(),
    decreases records.len(),
{
    if records.len() > 0 {
        codex_messages_say_something(records.drop_last());
        import::added_message_says_something(
            codex_session_messages(records.drop_last()),
            records.last().message.role,
            records.last().text,
            records.last().message.timestamp,
        );
    }
}

/// A file that is found is the first one of the session: those before it are not.
pub proof fn found_codex_file_is_first(files: Seq<SessionFile>, session_id: Seq<char>)
    ensures
        match codex_path(files, session_id) {
            Some(path) => exists|i: int|
                0 <= i < files.len() && #[trigger] is_codex_file(files[i], session_id) && path
                    == files[i].path@ && forall|j: int|
                    0 <= j < i ==> !#[trigger] is_codex_file(files[j], session_id),
            None => forall|i: int|
                0 <= i < files.len() ==> !#[trigger] is_codex_file(files[i], session_id),
        },
    decreases files.len(),
{
    if files.len() > 0 {
        let rest = files.drop_last();
        found_codex_file_is_first(rest, session_id);
        assert forall|i: int| 0 <= i < rest.len() implies rest[i] == files[i] by {}
        match codex_path(rest, session_id) {
            Some(path) => {
                let i = choose|i: int|
                    0 <= i < rest.len() && #[trigger] is_codex_file(rest[i], session_id) && path
                        == rest[i].path@ && forall|j: int|
                        0 <= j < i ==> !#[trigger] is_codex_file(rest[j], session_id);
                assert(is_codex_file(files[i], session_id));
                assert forall|j: int| 0 <= j < i implies !#[trigger] is_codex_file(
                    files[j],
                    session_id,
                ) by {
                    assert(!is_codex_file(rest[j], session_id));
                }
            },
            None => {
                assert forall|j: int| 0 <= j < rest.len() implies !#[trigger] is_codex_file(
                    files[j],
                    session_id,
                ) by {
                    assert(!is_codex_file(rest[j], session_id));
                }
                let last = files.len() - 1;
                if is_codex_file(files.last(), session_id) {
                    assert(is_codex_file(files[last], session_id));
                }
            },
        }
    }
}

/// What the header says of the session is the payload of a `session_meta` line, or else the line
/// itself.
pub proof fn meta_is_the_payload(header: JsonView, payload: JsonView)
    ensures
        json::text_field(header, "type"@) == Some("session_meta"@) && json::field(
            header,
            "payload"@,
        ) == Some(payload) ==> codex_meta(header) == payload,
        json::text_field(header, "type"@) != Some("session_meta"@) || json::field(
            header,
            "payload"@,
        ) is None ==> codex_meta(header) == header,
{
}

/// Whether `found` is the message with the given body and time: there is one where the body names
/// the user or the assistant, and it has that role and the content, time and model that are given.
pub open spec fn is_message_of(
    found: Option<CodexMessageView>,
    body: JsonView,
    timestamp: Option<JsonView>,
) -> bool {
    &&& found is Some <==> json::text_field(body, "role"@) == Some("user"@) || json::text_field(
        body,
        "role"@,
    ) == Some("assistant"@)
    &&& found matches Some(message) ==> {
        &&& json::text_field(body, "role"@) == Some("user"@) ==> message.role == Role::User
        &&& json::text_field(body, "role"@) == Some("assistant"@) ==> message.role
            == Role::Assistant
        &&& match json::field(body, "content"@) {
            Some(content) => message.content == content,
            None => message.content == JsonView::Null,
        }
        &&& match timestamp {
            Some(JsonView::Text(text)) => message.timestamp == time::rfc3339_instant(text),
            _ => message.timestamp is None,
        }
        &&& message.model == json::text_field(body, "model"@)
    }
}

/// A `message` line is its own message, a `response_item` line is the message in its payload, and
/// no other line is one. The time of a line comes before that of its payload.
pub proof fn line_gives_its_message(value: JsonView, payload: JsonView)
    ensures
        json::text_field(value, "type"@) == Some("message"@) ==> is_message_of(
            codex_message(value),
            value,
            json::field(value, "timestamp"@),
        ),
        json::text_field(value, "type"@) == Some("response_item"@) && json::field(
            value,
            "payload"@,
        ) == Some(payload) && json::text_field(payload, "type"@) == Some("message"@)
            ==> is_message_of(
            codex_message(value),
            payload,
            match json::field(value, "timestamp"@) {
                Some(timestamp) => Some(timestamp),
                None => json::field(payload, "timestamp"@),
            },
        ),
        json::text_field(value, "type"@) == Some("response_item"@) && (json::field(
            value,
            "payload"@,
        ) matches Some(other) ==> json::text_field(other, "type"@) != Some("message"@))
            ==> codex_message(value) is None,
        json::text_field(value, "type"@) != Some("message"@) && json::text_field(value, "type"@)
            != Some("response_item"@) ==> codex_message(value) is None,
{
    reveal_strlit("message");
    reveal_strlit("response_item");
    assert("message"@.len() == 7 && "response_item"@.len() == 13);
    message::roles_by_name("user"@);
    if json::text_field(value, "role"@) is Some {
        message::roles_by_name(json::text_field(value, "role"@)->0);
    }
    if json::text_field(payload, "role"@) is Some {
        message::roles_by_name(json::text_field(payload, "role"@)->0);
    }
}

/// The messages of a transcript are those of its lines, in the order of the lines.
pub proof fn messages_line_by_line(values: Seq<JsonView>) -> (at: Seq<int>)
    ensures
        order::indices_in_order(at, values.len()),
        at.len() == codex_messages(values).len(),
        forall|k: int|
            0 <= k < at.len() ==> codex_message(values[#[trigger] at[k]]) == Some(
                codex_messages(values)[k],
            ),
        forall|i: int|
            0 <= i < values.len() && codex_message(#[trigger] values[i]) is Some ==> at.contains(i),
    decreases values.len(),
{
    if values.len() == 0 {
        Seq::empty()
    } else {
        let rest = values.drop_last();
        let before = messages_line_by_line(rest);
        let last = values.len() - 1;
        order::lemma_one_more_index(before, rest.len());
        let at = if codex_message(values.last()) is Some {
            before.push(last)
        } else {
            before
        };
        assert forall|k: int| 0 <= k < at.len() implies codex_message(values[#[trigger] at[k]])
            == Some(codex_messages(values)[k]) by {
            if k < before.len() {
                assert(before[k] == at[k]);
                assert(rest[before[k]] == values[at[k]]);
            }
        }
        assert forall|i: int|
            0 <= i < values.len() && codex_message(#[trigger] values[i])
                is Some implies at.contains(i) by {
            if i < last {
                assert(rest[i] == values[i]);
            }
        }
        at
    }
}

/// A transcript has the directory that its header gives, the time of what the header says of the
/// session or else that of the header itself, and the messages of the lines after it.
pub proof fn transcript_follows_its_header(
    header: JsonView,
    session_id: Seq<char>,
    values: Seq<JsonView>,
)
    ensures
        ({
            let transcript = codex_transcript(header, session_id, values);
            let meta = codex_meta(header);
            let own = time::instant_of_json(json::field(meta, "timestamp"@));
            &&& transcript.session_id == session_id
            &&& transcript.created_at == if own is Some {
                own
            } else {
                time::instant_of_json(json::field(header, "timestamp"@))
            }
            &&& transcript.working_dir == json::text_field(meta, "cwd"@)
            &&& transcript.messages == codex_messages(values)
        }),
{
}

/// The messages of records, by the index of each.
proof fn lemma_session_messages(records: Seq<CodexRecord>) -> (at: Seq<int>)
    ensures
        order::indices_in_order(at, records.len()),
        at.len() == codex_session_messages(records).len(),
        forall|k: int|
            0 <= k < at.len() ==> {
                let record = records[#[trigger] at[k]];
                &&& text::trimmed(record.text).len() > 0
                &&& codex_session_messages(records)[k] == (MessageView {
                    id: None,
                    role: record.message.role,
                    content: seq![BlockView::Text { text: text::trimmed(record.text) }],
                    timestamp: record.message.timestamp,
                })
            },
        forall|i: int|
            0 <= i < records.len() && text::trimmed((#[trigger] records[i]).text).len() > 0
                ==> at.contains(i),
    decreases records.len(),
{
    if records.len() == 0 {
        Seq::empty()
    } else {
        let rest = records.drop_last();
        let before = lemma_session_messages(rest);
        let last = records.len() - 1;
        order::lemma_one_more_index(before, rest.len());
        let at = if text::trimmed(records.last().text).len() > 0 {
            before.push(last)
        } else {
            before
        };
        assert forall|k: int| 0 <= k < at.len() implies {
            let record = records[#[trigger] at[k]];
            &&& text::trimmed(record.text).len() > 0
            &&& codex_session_messages(records)[k] == (MessageView {
                id: None,
                role: record.message.role,
                content: seq![BlockView::Text { text: text::trimmed(record.text) }],
                timestamp: record.message.timestamp,
            })
        } by {
            if k < before.len() {
                assert(before[k] == at[k]);
                assert(rest[before[k]] == records[at[k]]);
            }
        }
        assert forall|i: int|
            0 <= i < records.len() && text::trimmed((#[trigger] records[i]).text).len()
                > 0 implies at.contains(i) by {
            if i < last {
                assert(rest[i] == records[i]);
            }
        }
        at
    }
}

/// The messages of an imported session are, in order, one for each message of the transcript that
/// says something, with its role, its time and all of its text but the white space at the ends.
pub proof fn session_message_by_message(
    transcript: CodexTranscriptView,
    texts: Seq<CodexText>,
    jcode_session_id: Seq<char>,
    created_at: Timestamp,
) -> (at: Seq<int>)
    requires
        texts.len() == transcript.messages.len(),
    ensures
        order::indices_in_order(at, texts.len()),
        at.len() == codex_session(transcript, texts, jcode_session_id, created_at).messages.len(),
        forall|k: int|
            0 <= k < at.len() ==> {
                let said = transcript.messages[#[trigger] at[k]];
                let text = text::trimmed(texts[at[k]].text@);
                &&& text.len() > 0
                &&& codex_session(
                    transcript,
                    texts,
                    jcode_session_id,
                    created_at,
                ).messages[k] == (MessageView {
                    id: None,
                    role: said.role,
                    content: seq![BlockView::Text { text }],
                    timestamp: said.timestamp,
                })
            },
        forall|i: int|
            0 <= i < texts.len() && text::trimmed((#[trigger] texts[i]).text@).len() > 0
                ==> at.contains(i),
{
    let records = codex_records(transcript.messages, texts);
    let at = lemma_session_messages(records);
    assert forall|k: int| 0 <= k < at.len() implies {
        let said = transcript.messages[#[trigger] at[k]];
        let text = text::trimmed(texts[at[k]].text@);
        &&& text.len() > 0
        &&& codex_session(transcript, texts, jcode_session_id, created_at).messages[k] == (
        MessageView {
            id: None,
            role: said.role,
            content: seq![BlockView::Text { text }],
            timestamp: said.timestamp,
        })
    } by {
        assert(records[at[k]].message == transcript.messages[at[k]]);
    }
    assert forall|i: int|
        0 <= i < texts.len() && text::trimmed((#[trigger] texts[i]).text@).len()
            > 0 implies at.contains(i) by {
        assert(records[i].text == texts[i].text@);
    }
    at
}

/// The first of what records give.
proof fn lemma_firsts(records: Seq<CodexRecord>, i: int)
    requires
        0 <= i <= records.len(),
    ensures
        (forall|j: int|
            0 <= j < i ==> !((#[trigger] records[j]).message.role == Role::User && records[j].title
                is Some)) && (i < records.len() ==> records[i].message.role == Role::User
            && records[i].title is Some) ==> codex_title(records) == if i < records.len() {
            records[i].title
        } else {
            None
        },
        (forall|j: int| 0 <= j < i ==> cwd_in((#[trigger] records[j]).text) is None) && (i
            < records.len() ==> cwd_in(records[i].text) is Some) ==> codex_cwd(records) == if i
            < records.len() {
            cwd_in(records[i].text)
        } else {
            None
        },
        (forall|j: int| 0 <= j < i ==> (#[trigger] records[j]).message.model is None) && (i
            < records.len() ==> records[i].message.model is Some) ==> codex_model(records) == if i
            < records.len() {
            records[i].message.model
        } else {
            None
        },
    decreases records.len(),
{
    if records.len() > 0 {
        let rest = records.drop_last();
        let last = records.len() - 1;
        assert forall|j: int| 0 <= j < rest.len() implies #[trigger] rest[j] == records[j] by {}
        assert(records[last] == records.last());
        lemma_firsts(
            rest,
            if i <= last {
                i
            } else {
                last
            },
        );
    }
}

/// The title of an imported session is the first that a message of the user gives, or else it names
/// the session by its id.
pub proof fn first_title_counts(
    transcript: CodexTranscriptView,
    texts: Seq<CodexText>,
    jcode_session_id: Seq<char>,
    created_at: Timestamp,
    i: int,
)
    requires
        texts.len() == transcript.messages.len(),
        0 <= i <= texts.len(),
        forall|j: int|
            0 <= j < i ==> !((#[trigger] transcript.messages[j]).role == Role::User
                && texts[j].title is Some),
        i < texts.len() ==> transcript.messages[i].role == Role::User && texts[i].title is Some,
    ensures
        codex_session(transcript, texts, jcode_session_id, created_at).title == if i < texts.len() {
            Some(texts[i].title->0@)
        } else {
            Some("Codex session "@ + transcript.session_id)
        },
{
    let records = codex_records(transcript.messages, texts);
    assert forall|j: int| 0 <= j < i implies !((#[trigger] records[j]).message.role == Role::User
        && records[j].title is Some) by {
        assert(records[j].message == transcript.messages[j]);
    }
    lemma_firsts(records, i);
}

/// The directory of an imported session is that of the header, or else the first that a message
/// names.
pub proof fn first_directory_counts(
    transcript: CodexTranscriptView,
    texts: Seq<CodexText>,
    jcode_session_id: Seq<char>,
    created_at: Timestamp,
    i: int,
)
    requires
        texts.len() == transcript.messages.len(),
        0 <= i <= texts.len(),
        forall|j: int| 0 <= j < i ==> cwd_in((#[trigger] texts[j]).text@) is None,
        i < texts.len() ==> cwd_in(texts[i].text@) is Some,
    ensures
        codex_session(transcript, texts, jcode_session_id, created_at).working_dir
            == if transcript.working_dir is Some {
            transcript.working_dir
        } else if i < texts.len() {
            cwd_in(texts[i].text@)
        } else {
            None
        },
{
    let records = codex_records(transcript.messages, texts);
    assert forall|j: int| 0 <= j < i implies cwd_in((#[trigger] records[j]).text) is None by {
        assert(records[j].text == texts[j].text@);
    }
    lemma_firsts(records, i);
}

/// The model of an imported session is the first that a message names.
pub proof fn first_model_counts(
    transcript: CodexTranscriptView,
    texts: Seq<CodexText>,
    jcode_session_id: Seq<char>,
    created_at: Timestamp,
    i: int,
)
    requires
        texts.len() == transcript.messages.len(),
        0 <= i <= texts.len(),
        forall|j: int| 0 <= j < i ==> (#[trigger] transcript.messages[j]).model is None,
        i < texts.len() ==> transcript.messages[i].model is Some,
    ensures
        codex_session(transcript, texts, jcode_session_id, created_at).model == if i
            < texts.len() {
            transcript.messages[i].model
        } else {
            None
        },
{
    let records = codex_records(transcript.messages, texts);
    assert forall|j: int| 0 <= j < i implies (#[trigger] records[j]).message.model is None by {
        assert(records[j].message == transcript.messages[j]);
    }
    lemma_firsts(records, i);
}

/// The last time of records.
proof fn lemma_last_time(records: Seq<CodexRecord>, i: int)
    requires
        -1 <= i < records.len(),
        forall|j: int| i < j < records.len() ==> (#[trigger] records[j]).message.timestamp is None,
        i >= 0 ==> records[i].message.timestamp is Some,
    ensures
        codex_last_time(records) == if i >= 0 {
            records[i].message.timestamp
        } else {
            None
        },
    decreases records.len(),
{
    if records.len() > 0 {
        let rest = records.drop_last();
        let last = records.len() - 1;
        assert(records[last] == records.last());
        assert forall|j: int| 0 <= j < rest.len() implies #[trigger] rest[j] == records[j] by {}
        if i < last {
            lemma_last_time(rest, i);
        }
    }
}

/// An imported session was last updated at the time of the last message that has one, or else when
/// it was created. It is closed, keeps its id at Codex and is marked as one of Codex.
pub proof fn last_time_counts(
    transcript: CodexTranscriptView,
    texts: Seq<CodexText>,
    jcode_session_id: Seq<char>,
    created_at: Timestamp,
    i: int,
)
    requires
        texts.len() == transcript.messages.len(),
        -1 <= i < texts.len(),
        forall|j: int|
            i < j < texts.len() ==> (#[trigger] transcript.messages[j]).timestamp is None,
        i >= 0 ==> transcript.messages[i].timestamp is Some,
    ensures
        ({
            let session = codex_session(transcript, texts, jcode_session_id, created_at);
            &&& session.updated_at == if i >= 0 {
                transcript.messages[i].timestamp
            } else {
                Some(created_at)
            }
            &&& session.last_active_at == session.updated_at
            &&& session.created_at == Some(created_at)
            &&& session.status == Some(SessionStatus::Closed)
            &&& session.id == Some(jcode_session_id)
            &&& session.provider_session_id == Some(transcript.session_id)
            &&& session.provider_key == Some("openai-codex"@)
        }),
{
    let records = codex_records(transcript.messages, texts);
    assert forall|j: int| i < j < records.len() implies (
    #[trigger] records[j]).message.timestamp is None by {
        assert(records[j].message == transcript.messages[j]);
    }
    lemma_last_time(records, i);
}

/// The first line with a tag.
proof fn lemma_cwd_line(lines: Seq<Seq<char>>, i: int)
    requires
        0 <= i <= lines.len(),
        forall|j: int| 0 <= j < i ==> !text::has_text(#[trigger] lines[j], "<cwd>"@),
        i < lines.len() ==> text::has_text(lines[i], "<cwd>"@),
    ensures
        cwd_line(lines) == if i < lines.len() {
            Some(lines[i])
        } else {
            None
        },
    decreases lines.len(),
{
    if lines.len() > 0 {
        let rest = lines.drop_last();
        let last = lines.len() - 1;
        assert(lines[last] == lines.last());
        assert forall|j: int| 0 <= j < rest.len() implies #[trigger] rest[j] == lines[j] by {}
        lemma_cwd_line(
            rest,
            if i <= last {
                i
            } else {
                last
            },
        );
    }
}

/// A text names a directory in its first line with a `<cwd>` tag: what is left of the line without
/// the tags and the white space at its ends, if anything is.
pub proof fn directory_stands_in_its_tags(text: Seq<char>, i: int)
    requires
        0 <= i <= text::lines_of(text).len(),
        forall|j: int|
            0 <= j < i ==> !text::has_text(#[trigger] text::lines_of(text)[j], "<cwd>"@),
        i < text::lines_of(text).len() ==> text::has_text(text::lines_of(text)[i], "<cwd>"@),
    ensures
        i == text::lines_of(text).len() ==> cwd_in(text) is None,
        i < text::lines_of(text).len() ==> ({
            let opened = text::replaced(text::lines_of(text)[i], "<cwd>"@, Seq::empty());
            let cwd = text::trimmed(text::replaced(opened, "</cwd>"@, Seq::empty()));
            &&& cwd.len() > 0 ==> cwd_in(text) == Some(cwd)
            &&& cwd.len() == 0 ==> cwd_in(text) is None
        }),
{
    reveal_strlit("");
    assert(""@ =~= Seq::<char>::empty());
    lemma_cwd_line(text::lines_of(text), i);
}

/// A file is that of a session if and only if its first line is JSON and what it says of the
/// session has that id.
pub proof fn file_is_known_by_its_id(file: SessionFile, session_id: Seq<char>)
    ensures
        is_codex_file(file, session_id) <==> (file.head matches Some(line) && json::parsed_json(
            line@,
        ) matches Some(header) && json::text_field(codex_meta(header), "id"@) == Some(session_id)),
{
}

/// Reading a transcript comes to what its lines are: a file without lines, a first line that is no
/// JSON and a session without an id are errors, and any other file is the transcript with that
/// header and the values in all of the lines after it.
pub proof fn reading_takes_header_and_lines(
    first: Seq<char>,
    others: Seq<Seq<char>>,
    hint: Option<Seq<char>>,
    r: Result<CodexTranscript, ImportError>,
)
    ensures
        is_codex_reading(Seq::empty(), hint, r) ==> r == Err::<CodexTranscript, _>(
            ImportError::EmptyFile(Agent::Codex),
        ),
        is_codex_reading(seq![first] + others, hint, r) ==> match json::parsed_json(first) {
            None => r matches Err(error) && error is Json,
            Some(header) => {
                let id = match json::text_field(codex_meta(header), "id"@) {
                    Some(id) => if id.len() > 0 {
                        Some(id)
                    } else {
                        hint
                    },
                    None => hint,
                };
                match id {
                    None => r == Err::<CodexTranscript, _>(ImportError::MissingId(Agent::Codex)),
                    Some(id) => r matches Ok(transcript) && transcript@ == codex_transcript(
                        header,
                        id,
                        json::parsed_lines(others),
                    ),
                }
            },
        },
{
    let lines = seq![first] + others;
    assert(lines.first() == first);
    assert(lines.skip(1) == others);
}

} // verus!
