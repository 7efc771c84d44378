//! Importing an OpenCode session.

use crate::error::{Agent, ImportError};
use crate::import;
use crate::import::{
    append_text_message, create_with_id, finalize_imported_session, truncate_title, SessionFile,
};
use crate::json;
use crate::json::{parse_json, Json, JsonView};
use crate::message;
use crate::message::{
    parse_role, BlockView, MessageView, Role, Session, SessionStatus, SessionView,
};
use crate::order;
use crate::order::Dated;
use crate::text;
use crate::time;
use crate::time::{earlier, from_timestamp_millis, or_now, Timestamp};
use vstd::prelude::*;
use vstd::string::*;

verus! {

/// The session id in the file of a session.
pub open spec fn opencode_id_in(content: Seq<char>) -> Option<Seq<char>> {
    match json::parsed_json(content) {
        Some(value) => json::text_field(value, "id"@),
        None => None,
    }
}

/// Whether a file is the one of the session `session_id`. Its head is all that it holds.
pub open spec fn is_opencode_file(file: SessionFile, session_id: Seq<char>) -> bool {
    match file.head {
        Some(content) => opencode_id_in(content@) == Some(session_id),
        None => false,
    }
}

/// Whether `content` is what the file of the session `session_id` holds.
fn has_opencode_id(content: &str, session_id: &str) -> (r: bool)
    ensures
        r == (opencode_id_in(content@) == Some(session_id@)),
{
    match parse_json(content) {
        Ok(value) => match value.get_str("id") {
            Some(id) => text::same_text(id.as_str(), session_id),
            None => false,
        },
        Err(_) => false,
    }
}

/// The path of the first of `files` that is the one of the session `session_id`.
pub open spec fn opencode_path(files: Seq<SessionFile>, session_id: Seq<char>) -> Option<Seq<char>>
    decreases files.len(),
{
    if files.len() == 0 {
        None
    } else {
        import::first_known(
            opencode_path(files.drop_last(), session_id),
            if is_opencode_file(files.last(), session_id) {
                Some(files.last().path@)
            } else {
                None
            },
        )
    }
}

/// The path of the first of `files` that is the one of the session `session_id`. The head of a file
/// is all that it holds.
pub fn find_opencode_session_file(files: &Vec<SessionFile>, session_id: &str) -> (r: Result<
    String,
    ImportError,
>)
    ensures
        match r {
            Ok(path) => opencode_path(files@, session_id@) == Some(path@),
            Err(error) => opencode_path(files@, session_id@) is None && error
                == ImportError::NotFound(Agent::OpenCode),
        },
{
    let mut found: Option<String> = None;
    for i in 0..files.len()
        invariant
            found.deep_view() == opencode_path(files@.take(i as int), session_id@),
    {
        assert(files@.take(i + 1).drop_last() == files@.take(i as int));
        if found.is_none() {
            if let Some(head) = &files[i].head {
                if has_opencode_id(head.as_str(), session_id) {
                    found = Some(files[i].path.clone());
                }
            }
        }
    }
    assert(files@.take(files@.len() as int) == files@);
    match found {
        Some(path) => Ok(path),
        None => Err(ImportError::NotFound(Agent::OpenCode)),
    }
}

/// The time under `key` in the times of a value, in milliseconds since the beginning of 1970.
pub open spec fn time_in(value: JsonView, key: Seq<char>) -> Option<Timestamp> {
    match json::field(value, "time"@) {
        Some(times) => match json::field(times, key) {
            Some(millis) => match json::integer_of(millis) {
                Some(millis) => time::instant_of_millis(millis),
                None => None,
            },
            None => None,
        },
        None => None,
    }
}

/// The time under `key` in the times of a value.
fn read_time(value: &Json, key: &str) -> (r: Option<Timestamp>)
    ensures
        r == time_in(value@, key@),
{
    match value.get("time") {
        Some(times) => match times.get(key) {
            Some(millis) => match millis.as_i64() {
                Some(millis) => from_timestamp_millis(millis),
                None => None,
            },
            None => None,
        },
        None => None,
    }
}

/// The text under `key` in a value or, where the value has no such key, in its model.
pub open spec fn model_text(value: JsonView, key: Seq<char>) -> Option<Seq<char>> {
    match json::field(value, key) {
        Some(inner) => json::text_of(inner),
        None => match json::field(value, "model"@) {
            Some(model) => json::text_field(model, key),
            None => None,
        },
    }
}

/// The text under `key` in a value or, where the value has no such key, in its model.
fn read_model_text(value: &Json, key: &str) -> (r: Option<String>)
    ensures
        r.deep_view() == model_text(value@, key@),
{
    match value.get(key) {
        Some(inner) => match inner.as_str() {
            Some(text) => Some(text.clone()),
            None => None,
        },
        None => match value.get("model") {
            Some(model) => model.get_text(key),
            None => None,
        },
    }
}

/// What the file of a session says of it. What is `None` is not in the file.
pub struct OpenCodeHeader {
    pub session_id: String,
    pub created_at: Option<Timestamp>,
    pub updated_at: Option<Timestamp>,
    pub working_dir: Option<String>,
    pub title: Option<String>,
}

/// What the file of a session says of it.
pub struct OpenCodeHeaderView {
    pub session_id: Seq<char>,
    pub created_at: Option<Timestamp>,
    pub updated_at: Option<Timestamp>,
    pub working_dir: Option<Seq<char>>,
    pub title: Option<Seq<char>>,
}

impl View for OpenCodeHeader {
    type V = OpenCodeHeaderView;

    open spec fn view(&self) -> OpenCodeHeaderView {
        OpenCodeHeaderView {
            session_id: self.session_id@,
            created_at: self.created_at,
            updated_at: self.updated_at,
            working_dir: self.working_dir.deep_view(),
            title: self.title.deep_view(),
        }
    }
}

/// What a value says of the session `session_id`.
pub open spec fn opencode_header(value: JsonView, session_id: Seq<char>) -> OpenCodeHeaderView {
    OpenCodeHeaderView {
        session_id,
        created_at: time_in(value, "created"@),
        updated_at: time_in(value, "updated"@),
        working_dir: json::text_field(value, "directory"@),
        title: match json::text_field(value, "title"@) {
            Some(title) => Some(import::title_of(title)),
            None => None,
        },
    }
}

/// What reading the file of a session comes to.
pub open spec fn is_opencode_reading(
    content: Seq<char>,
    session_id_hint: Option<Seq<char>>,
    r: Result<OpenCodeHeader, ImportError>,
) -> bool {
    match json::parsed_json(content) {
        None => r matches Err(ImportError::Json(_)),
        Some(value) => match import::named_session(
            json::text_field(value, "id"@),
            session_id_hint,
        ) {
            None => r == Err::<OpenCodeHeader, _>(ImportError::MissingId(Agent::OpenCode)),
            Some(session_id) => r matches Ok(header) && header@ == opencode_header(
                value,
                session_id,
            ),
        },
    }
}

/// Reads what the file of a session holds. The session is the one that the file names, or else
/// the one that the caller expects.
pub fn read_opencode_header(content: &str, session_id_hint: Option<&str>) -> (r: Result<
    OpenCodeHeader,
    ImportError,
>)
    ensures
        is_opencode_reading(
            content@,
            match session_id_hint {
                Some(id) => Some(id@),
                None => None,
            },
            r,
        ),
{
    let value = match parse_json(content) {
        Ok(value) => value,
        Err(error) => return Err(ImportError::Json(error)),
    };
    let session_id = match import::name_session(value.get_str("id"), session_id_hint) {
        Some(session_id) => session_id,
        None => return Err(ImportError::MissingId(Agent::OpenCode)),
    };
    Ok(
        OpenCodeHeader {
            session_id,
            created_at: read_time(&value, "created"),
            updated_at: read_time(&value, "updated"),
            working_dir: value.get_text("directory"),
            title: match value.get_str("title") {
                Some(title) => Some(truncate_title(title.as_str())),
                None => None,
            },
        },
    )
}

/// A message. What it says is in the part files under its id, in `content` or in `summary`.
pub struct OpenCodeMessage {
    pub role: Role,
    pub id: Option<String>,
    pub content: Option<Json>,
    pub summary: Option<Json>,
    pub model: Option<String>,
    pub provider: Option<String>,
    pub timestamp: Option<Timestamp>,
}

/// What a message is.
pub struct OpenCodeMessageView {
    pub role: Role,
    pub id: Option<Seq<char>>,
    pub content: Option<JsonView>,
    pub summary: Option<JsonView>,
    pub model: Option<Seq<char>>,
    pub provider: Option<Seq<char>>,
    pub timestamp: Option<Timestamp>,
}

/// The view of a value, if there is one.
pub open spec fn view_of(value: Option<Json>) -> Option<JsonView> {
    match value {
        Some(value) => Some(value@),
        None => None,
    }
}

impl View for OpenCodeMessage {
    type V = OpenCodeMessageView;

    open spec fn view(&self) -> OpenCodeMessageView {
        OpenCodeMessageView {
            role: self.role,
            id: self.id.deep_view(),
            content: view_of(self.content),
            summary: view_of(self.summary),
            model: self.model.deep_view(),
            provider: self.provider.deep_view(),
            timestamp: self.timestamp,
        }
    }
}

impl DeepView for OpenCodeMessage {
    type V = OpenCodeMessageView;

    open spec fn deep_view(&self) -> OpenCodeMessageView {
        self@
    }
}

/// The message that a value is, if a user or the assistant says it.
pub open spec fn opencode_message(value: JsonView) -> Option<OpenCodeMessageView> {
    match json::text_field(value, "role"@) {
        Some(name) => match message::role_named(name) {
            Some(role) => Some(
                OpenCodeMessageView {
                    role,
                    id: json::text_field(value, "id"@),
                    content: json::field(value, "content"@),
                    summary: json::field(value, "summary"@),
                    model: model_text(value, "modelID"@),
                    provider: model_text(value, "providerID"@),
                    timestamp: time_in(value, "created"@),
                },
            ),
            None => None,
        },
        None => None,
    }
}

/// The message that the file of a message holds.
pub open spec fn opencode_message_in(content: Seq<char>) -> Option<OpenCodeMessageView> {
    match json::parsed_json(content) {
        Some(value) => opencode_message(value),
        None => None,
    }
}

/// A copy of the value under `key`.
fn copy_of(value: &Json, key: &str) -> (r: Option<Json>)
    ensures
        view_of(r) == json::field(value@, key@),
{
    match value.get(key) {
        Some(inner) => Some(inner.duplicate()),
        None => None,
    }
}

/// Reads the message that the file of a message holds, if a user or the assistant says it.
pub fn read_opencode_message(content: &str) -> (r: Option<OpenCodeMessage>)
    ensures
        r.deep_view() == opencode_message_in(content@),
{
    let value = match parse_json(content) {
        Ok(value) => value,
        Err(_) => return None,
    };
    let role = match value.get_str("role") {
        Some(name) => match parse_role(name.as_str()) {
            Some(role) => role,
            None => return None,
        },
        None => return None,
    };
    Some(
        OpenCodeMessage {
            role,
            id: value.get_text("id"),
            content: copy_of(&value, "content"),
            summary: copy_of(&value, "summary"),
            model: read_model_text(&value, "modelID"),
            provider: read_model_text(&value, "providerID"),
            timestamp: read_time(&value, "created"),
        },
    )
}

/// What a message says in its part files, in its content and in its summary, where it has them.
pub struct OpenCodeTexts {
    pub parts: Option<String>,
    pub content: Option<String>,
    pub summary: Option<String>,
}

/// A text that is there and not blank.
pub open spec fn unless_blank(text: Option<Seq<char>>) -> Option<Seq<char>> {
    if text is Some && text::trimmed(text->0).len() > 0 {
        text
    } else {
        None
    }
}

/// What a message says: what its part files do, or else its content, or else its summary.
pub open spec fn said_text(texts: OpenCodeTexts) -> Seq<char> {
    import::known_or(
        import::first_known(
            import::first_known(
                unless_blank(texts.parts.deep_view()),
                unless_blank(texts.content.deep_view()),
            ),
            texts.summary.deep_view(),
        ),
        Seq::empty(),
    )
}

/// What a message says: what its part files do, or else its content, or else its summary.
pub fn choose_text(texts: &OpenCodeTexts) -> (r: String)
    ensures
        r@ == said_text(*texts),
{
    if let Some(parts) = &texts.parts {
        if !text::trim(parts.as_str()).is_empty() {
            return parts.clone();
        }
    }
    if let Some(content) = &texts.content {
        if !text::trim(content.as_str()).is_empty() {
            return content.clone();
        }
    }
    match &texts.summary {
        Some(summary) => summary.clone(),
        None => String::new(),
    }
}

/// A message as it is said.
pub struct Said {
    pub timestamp: Option<Timestamp>,
    pub role: Role,
    pub text: String,
}

/// What is said.
pub struct SaidView {
    pub timestamp: Option<Timestamp>,
    pub role: Role,
    pub text: Seq<char>,
}

impl View for Said {
    type V = SaidView;

    open spec fn view(&self) -> SaidView {
        SaidView { timestamp: self.timestamp, role: self.role, text: self.text@ }
    }
}

impl DeepView for Said {
    type V = SaidView;

    open spec fn deep_view(&self) -> SaidView {
        self@
    }
}

impl Dated for SaidView {
    open spec fn date(self) -> Option<Timestamp> {
        self.timestamp
    }
}

/// What the messages say, in their order.
pub open spec fn all_said(messages: Seq<OpenCodeMessageView>, texts: Seq<OpenCodeTexts>) -> Seq<
    SaidView,
> {
    Seq::new(
        messages.len(),
        |i: int|
            SaidView {
                timestamp: messages[i].timestamp,
                role: messages[i].role,
                text: said_text(texts[i]),
            },
    )
}

/// What is said with the earliest first, and what is said at one time in the order in which it
/// stands. What has no time comes first.
fn sort_said(said: Vec<Said>) -> (r: Vec<Said>)
    ensures
        order::is_ordered(said.deep_view(), r.deep_view(), false),
{
    let ghost all = said.deep_view();
    let mut sorted: Vec<Said> = Vec::new();
    for item in it: said
        invariant
            it.seq().len() == all.len(),
            forall|i: int| 0 <= i < all.len() ==> (#[trigger] it.seq()[i])@ == all[i],
            order::is_ordered(all.take(it.index()), sorted.deep_view(), false),
    {
        let ghost k = it.index();
        let ghost before = sorted.deep_view();
        assert(item@ == all[k]);
        let mut at: usize = sorted.len();
        while at > 0 && earlier(item.timestamp, sorted[at - 1].timestamp)
            invariant
                before == sorted.deep_view(),
                at <= sorted@.len(),
                forall|j: int|
                    at <= j < before.len() ==> order::goes_before(
                        item@.date(),
                        (#[trigger] before[j]).date(),
                        false,
                    ),
            decreases at,
        {
            assert(before[at - 1] == sorted@[at - 1]@);
            at = at - 1;
        }
        assert(at > 0 ==> before[at - 1] == sorted@[at - 1]@);
        proof {
            order::lemma_insert_in_order(all.take(k), before, item@, at as int, false);
            assert(all.take(k + 1) == all.take(k).push(all[k]));
        }
        sorted.insert(at, item);
        assert(sorted.deep_view() =~= before.insert(at as int, all[k]));
    }
    assert(all.take(all.len() as int) == all);
    sorted
}

/// The first model that a message names.
pub open spec fn opencode_model(messages: Seq<OpenCodeMessageView>) -> Option<Seq<char>>
    decreases messages.len(),
{
    if messages.len() == 0 {
        None
    } else {
        import::first_known(opencode_model(messages.drop_last()), messages.last().model)
    }
}

/// The first provider that a message names other than `opencode`, or else `opencode`.
pub open spec fn opencode_provider(messages: Seq<OpenCodeMessageView>) -> Seq<char>
    decreases messages.len(),
{
    if messages.len() == 0 {
        "opencode"@
    } else {
        let before = opencode_provider(messages.drop_last());
        if before == "opencode"@ {
            import::known_or(messages.last().provider, before)
        } else {
            before
        }
    }
}

/// The time of the last message that has one.
pub open spec fn opencode_last_time(messages: Seq<OpenCodeMessageView>) -> Option<Timestamp>
    decreases messages.len(),
{
    if messages.len() == 0 {
        None
    } else {
        import::first_known(
            messages.last().timestamp,
            opencode_last_time(messages.drop_last()),
        )
    }
}

/// The messages of an imported session: what is said and not blank.
pub open spec fn said_messages(said: Seq<SaidView>) -> Seq<MessageView>
    decreases said.len(),
{
    if said.len() == 0 {
        Seq::empty()
    } else {
        import::with_text(
            said_messages(said.drop_last()),
            said.last().role,
            said.last().text,
            said.last().timestamp,
        )
    }
}

/// The session that messages are imported as, created at the given time, where `said` is what they
/// say in the order of their times.
pub open spec fn opencode_session(
    header: OpenCodeHeaderView,
    messages: Seq<OpenCodeMessageView>,
    said: Seq<SaidView>,
    jcode_session_id: Seq<char>,
    created_at: Timestamp,
) -> SessionView {
    import::finalized(
        SessionView {
            title: Some(
                import::known_or(header.title, "OpenCode session "@ + header.session_id),
            ),
            provider_session_id: Some(header.session_id),
            provider_key: Some(opencode_provider(messages)),
            model: opencode_model(messages),
            working_dir: header.working_dir,
            messages: said_messages(said),
            ..import::session_with_id(jcode_session_id)
        },
        created_at,
        import::first_known(opencode_last_time(messages), header.updated_at),
    )
}

/// Whether `r` is the session that messages are imported as, created at the given time.
pub open spec fn is_opencode_session(
    header: OpenCodeHeaderView,
    messages: Seq<OpenCodeMessageView>,
    texts: Seq<OpenCodeTexts>,
    jcode_session_id: Seq<char>,
    created_at: Timestamp,
    r: SessionView,
) -> bool {
    exists|said: Seq<SaidView>| #[trigger]
        order::is_ordered(all_said(messages, texts), said, false) && r == opencode_session(
            header,
            messages,
            said,
            jcode_session_id,
            created_at,
        )
}

/// The session that messages are imported as, created at the given time. `texts` tells of each
/// message what it says.
pub fn build_opencode_session(
    header: &OpenCodeHeader,
    messages: &Vec<OpenCodeMessage>,
    texts: &Vec<OpenCodeTexts>,
    jcode_session_id: &str,
    created_at: Timestamp,
) -> (r: Session)
    requires
        texts@.len() == messages@.len(),
    ensures
        is_opencode_session(
            header@,
            messages.deep_view(),
            texts@,
            jcode_session_id@,
            created_at,
            r@,
        ),
{
    let ghost all = messages.deep_view();
    let mut said: Vec<Said> = Vec::new();
    let mut model: Option<String> = None;
    let mut provider_key = "opencode".to_owned();
    let mut updated_at = header.updated_at;
    for i in 0..messages.len()
        invariant
            all == messages.deep_view(),
            texts@.len() == messages@.len(),
            said.deep_view() =~= all_said(all, texts@).take(i as int),
            model.deep_view() == opencode_model(all.take(i as int)),
            provider_key@ == opencode_provider(all.take(i as int)),
            updated_at == import::first_known(
                opencode_last_time(all.take(i as int)),
                header@.updated_at,
            ),
    {
        let message = &messages[i];
        assert(all.take(i + 1).drop_last() == all.take(i as int));
        assert(all.take(i + 1).last() == message@);
        if model.is_none() {
            model = message.model.clone();
        }
        if text::same_text(provider_key.as_str(), "opencode") {
            if let Some(provider) = &message.provider {
                provider_key = provider.clone();
            }
        }
        if message.timestamp.is_some() {
            updated_at = message.timestamp;
        }
        let ghost before = said.deep_view();
        let item = Said {
            timestamp: message.timestamp,
            role: message.role,
            text: choose_text(&texts[i]),
        };
        said.push(item);
        assert(said.deep_view() =~= before.push(item@));
    }
    assert(all.take(all.len() as int) == all);
    assert(said.deep_view() =~= all_said(all, texts@));
    let sorted = sort_said(said);
    let ghost in_time = sorted.deep_view();
    let mut session = create_with_id(jcode_session_id);
    for i in 0..sorted.len()
        invariant
            in_time == sorted.deep_view(),
            session@ == (SessionView {
                messages: said_messages(in_time.take(i as int)),
                ..import::session_with_id(jcode_session_id@)
            }),
    {
        let item = &sorted[i];
        assert(in_time.take(i + 1).drop_last() == in_time.take(i as int));
        assert(in_time.take(i + 1).last() == item@);
        append_text_message(&mut session, item.role, item.text.as_str(), item.timestamp);
    }
    assert(in_time.take(in_time.len() as int) == in_time);
    session.title = match &header.title {
        Some(title) => Some(title.clone()),
        None => Some("OpenCode session ".to_owned().concat(header.session_id.as_str())),
    };
    session.provider_session_id = Some(header.session_id.clone());
    session.provider_key = Some(provider_key);
    session.model = model;
    session.working_dir = header.working_dir.clone();
    let r = finalize_imported_session(session, created_at, updated_at);
    assert(order::is_ordered(all_said(all, texts@), in_time, false));
    r
}

/// The session that messages are imported as. It was created at the time that its file gives, or
/// else now. `texts` tells of each message what it says.
pub fn import_opencode_session_from_path(
    header: &OpenCodeHeader,
    messages: &Vec<OpenCodeMessage>,
    texts: &Vec<OpenCodeTexts>,
    jcode_session_id: &str,
) -> (r: Session)
    requires
        texts@.len() == messages@.len(),
    ensures
        r@.created_at matches Some(created_at) && is_opencode_session(
            header@,
            messages.deep_view(),
            texts@,
            jcode_session_id@,
            created_at,
            r@,
        ),
        header.created_at is Some ==> r@.created_at == header.created_at,
{
    let created_at = or_now(header.created_at);
    build_opencode_session(header, messages, texts, jcode_session_id, created_at)
}

/// Every message of an imported session says something, and there are no more than were found.
pub proof fn said_messages_say_something(said: Seq<SaidView>)
    ensures
        import::all_say_something(said_messages(said)),
        said_messages(said).len() <= said.len(),
    decreases said.len(),
{
    if said.len() > 0 {
        said_messages_say_something(said.drop_last());
        import::added_message_says_something(
            said_messages(said.drop_last()),
            said.last().role,
            said.last().text,
            said.last().timestamp,
        );
    }
}

/// The times of messages that are said in order are those of what is said.
proof fn lemma_said_times(said: Seq<SaidView>, m: int)
    requires
        0 <= m < said_messages(said).len(),
    ensures
        exists|i: int|
            0 <= i < said.len() && (#[trigger] said[i]).timestamp == said_messages(
                said,
            )[m].timestamp,
    decreases said.len(),
{
    let before = said_messages(said.drop_last());
    if m < before.len() {
        lemma_said_times(said.drop_last(), m);
        let i = choose|i: int|
            0 <= i < said.len() - 1 && (#[trigger] said.drop_last()[i]).timestamp
                == before[m].timestamp;
        assert(said[i].timestamp == before[m].timestamp);
    } else {
        assert(said[said.len() - 1].timestamp == said_messages(said)[m].timestamp);
    }
}

/// The messages of an imported session stand in the order of their times: none is followed by an
/// earlier one.
pub proof fn messages_stand_in_order(said: Seq<SaidView>)
    requires
        order::in_order(said, false),
    ensures
        forall|i: int, j: int|
            0 <= i < j < said_messages(said).len() ==> !time::is_before_opt(
                (#[trigger] said_messages(said)[j]).timestamp,
                (#[trigger] said_messages(said)[i]).timestamp,
            ),
    decreases said.len(),
{
    if said.len() > 0 {
        let rest = said.drop_last();
        let before = said_messages(rest);
        let messages = said_messages(said);
        assert(order::in_order(rest, false)) by {
            assert forall|i: int, j: int| 0 <= i < j < rest.len() implies !order::goes_before(
                (#[trigger] rest[j]).date(),
                (#[trigger] rest[i]).date(),
                false,
            ) by {
                assert(rest[i] == said[i] && rest[j] == said[j]);
            }
        }
        messages_stand_in_order(rest);
        assert forall|i: int, j: int| 0 <= i < j < messages.len() implies !time::is_before_opt(
            (#[trigger] messages[j]).timestamp,
            (#[trigger] messages[i]).timestamp,
        ) by {
            assert(messages[i] == before[i]);
            if j < before.len() {
                assert(messages[j] == before[j]);
            } else {
                lemma_said_times(rest, i);
                let k = choose|k: int|
                    0 <= k < rest.len() && (#[trigger] rest[k]).timestamp == before[i].timestamp;
                assert(rest[k] == said[k]);
                assert(!order::goes_before(said[said.len() - 1].date(), said[k].date(), false));
            }
        }
    }
}

/// The session that messages are imported as is the only one.
pub proof fn opencode_session_is_unique(
    header: OpenCodeHeaderView,
    messages: Seq<OpenCodeMessageView>,
    texts: Seq<OpenCodeTexts>,
    jcode_session_id: Seq<char>,
    created_at: Timestamp,
    first: SessionView,
    second: SessionView,
)
    requires
        is_opencode_session(header, messages, texts, jcode_session_id, created_at, first),
        is_opencode_session(header, messages, texts, jcode_session_id, created_at, second),
    ensures
        first == second,
{
    let all = all_said(messages, texts);
    let a = choose|said: Seq<SaidView>| #[trigger]
        order::is_ordered(all, said, false) && first == opencode_session(
            header,
            messages,
            said,
            jcode_session_id,
            created_at,
        );
    let b = choose|said: Seq<SaidView>| #[trigger]
        order::is_ordered(all, said, false) && second == opencode_session(
            header,
            messages,
            said,
            jcode_session_id,
            created_at,
        );
    order::order_is_unique(all, a, b, false);
}

/// A file that is found is the first one of the session: those before it are not.
pub proof fn found_opencode_file_is_first(files: Seq<SessionFile>, session_id: Seq<char>)
    ensures
        match opencode_path(files, session_id) {
            Some(path) => exists|i: int|
                0 <= i < files.len() && #[trigger] is_opencode_file(files[i], session_id) && path
                    == files[i].path@ && forall|j: int|
                    0 <= j < i ==> !#[trigger] is_opencode_file(files[j], session_id),
            None => forall|i: int|
                0 <= i < files.len() ==> !#[trigger] is_opencode_file(files[i], session_id),
        },
    decreases files.len(),
{
    if files.len() > 0 {
        let rest = files.drop_last();
        found_opencode_file_is_first(rest, session_id);
        assert forall|i: int| 0 <= i < rest.len() implies rest[i] == files[i] by {}
        match opencode_path(rest, session_id) {
            Some(path) => {
                let i = choose|i: int|
                    0 <= i < rest.len() && #[trigger] is_opencode_file(rest[i], session_id) && path
                        == rest[i].path@ && forall|j: int|
                        0 <= j < i ==> !#[trigger] is_opencode_file(rest[j], session_id);
                assert(is_opencode_file(files[i], session_id));
                assert forall|j: int| 0 <= j < i implies !#[trigger] is_opencode_file(
                    files[j],
                    session_id,
                ) by {
                    assert(!is_opencode_file(rest[j], session_id));
                }
            },
            None => {
                assert forall|j: int| 0 <= j < rest.len() implies !#[trigger] is_opencode_file(
                    files[j],
                    session_id,
                ) by {
                    assert(!is_opencode_file(rest[j], session_id));
                }
                let last = files.len() - 1;
                if is_opencode_file(files.last(), session_id) {
                    assert(is_opencode_file(files[last], session_id));
                }
            },
        }
    }
}

/// The time under a key is that many milliseconds after the beginning of 1970, where the times of
/// the value have an integer there.
pub proof fn times_are_milliseconds(
    value: JsonView,
    times: JsonView,
    number: serde_json::Number,
    key: Seq<char>,
)
    ensures
        json::field(value, "time"@) == Some(times) && json::field(times, key) == Some(
            JsonView::Number(number),
        ) ==> time_in(value, key) == match json::number_i64(number) {
            Some(millis) => time::instant_of_millis(millis),
            None => None,
        },
        json::field(value, "time"@) is None ==> time_in(value, key) is None,
        json::field(value, "time"@) == Some(times) && (json::field(times, key) matches Some(inner)
            ==> inner !is Number) ==> time_in(value, key) is None,
{
}

/// The file of a session gives its times, its directory and its title, cut to a line.
pub proof fn header_follows_its_file(value: JsonView, session_id: Seq<char>)
    ensures
        ({
            let header = opencode_header(value, session_id);
            &&& header.session_id == session_id
            &&& header.created_at == time_in(value, "created"@)
            &&& header.updated_at == time_in(value, "updated"@)
            &&& header.working_dir == json::text_field(value, "directory"@)
            &&& match json::text_field(value, "title"@) {
                Some(title) => header.title == Some(import::title_of(title)),
                None => header.title is None,
            }
        }),
{
}

/// The file of a message gives one where it names the user or the assistant, with that role, and
/// with the model and provider that it names itself or, where it has no such key, in its model.
pub proof fn message_follows_its_file(value: JsonView)
    ensures
        opencode_message(value) is Some <==> json::text_field(value, "role"@) == Some("user"@)
            || json::text_field(value, "role"@) == Some("assistant"@),
        opencode_message(value) matches Some(message) ==> {
            &&& json::text_field(value, "role"@) == Some("user"@) ==> message.role == Role::User
            &&& json::text_field(value, "role"@) == Some("assistant"@) ==> message.role
                == Role::Assistant
            &&& message.id == json::text_field(value, "id"@)
            &&& message.content == json::field(value, "content"@)
            &&& message.summary == json::field(value, "summary"@)
            &&& message.timestamp == time_in(value, "created"@)
            &&& json::field(value, "modelID"@) is Some ==> message.model == json::text_field(
                value,
                "modelID"@,
            )
            &&& json::field(value, "modelID"@) is None ==> message.model == match json::field(
                value,
                "model"@,
            ) {
                Some(model) => json::text_field(model, "modelID"@),
                None => None,
            }
            &&& json::field(value, "providerID"@) is Some ==> message.provider
                == json::text_field(value, "providerID"@)
            &&& json::field(value, "providerID"@) is None ==> message.provider
                == match json::field(value, "model"@) {
                Some(model) => json::text_field(model, "providerID"@),
                None => None,
            }
        },
{
    message::roles_by_name("user"@);
    if json::text_field(value, "role"@) is Some {
        message::roles_by_name(json::text_field(value, "role"@)->0);
    }
}

/// A message says what its part files do, if that is not blank, or else its content, if that is not
/// blank, or else its summary; each as it is.
pub proof fn first_text_counts(texts: OpenCodeTexts)
    ensures
        ({
            let parts_say = texts.parts matches Some(parts) && text::trimmed(parts@).len() > 0;
            let content_says = texts.content matches Some(content) && text::trimmed(content@).len()
                > 0;
            &&& parts_say ==> said_text(texts) == texts.parts->0@
            &&& !parts_say && content_says ==> said_text(texts) == texts.content->0@
            &&& !parts_say && !content_says ==> match texts.summary {
                Some(summary) => said_text(texts) == summary@,
                None => said_text(texts).len() == 0,
            }
        }),
{
}

/// What is said at each place is what the message there says, at its time and in its role.
pub proof fn said_message_by_message(
    messages: Seq<OpenCodeMessageView>,
    texts: Seq<OpenCodeTexts>,
    i: int,
)
    requires
        0 <= i < messages.len(),
    ensures
        all_said(messages, texts).len() == messages.len(),
        all_said(messages, texts)[i].role == messages[i].role,
        all_said(messages, texts)[i].timestamp == messages[i].timestamp,
        all_said(messages, texts)[i].text == said_text(texts[i]),
        all_said(messages, texts)[i].date() == messages[i].timestamp,
{
}

/// The messages of what is said are, in order, one for each item that is not blank, with its role,
/// its time and all of its text but the white space at the ends.
pub proof fn said_item_by_item(said: Seq<SaidView>) -> (at: Seq<int>)
    ensures
        order::indices_in_order(at, said.len()),
        at.len() == said_messages(said).len(),
        forall|k: int|
            0 <= k < at.len() ==> {
                let item = said[#[trigger] at[k]];
                &&& text::trimmed(item.text).len() > 0
                &&& said_messages(said)[k] == (MessageView {
                    id: None,
                    role: item.role,
                    content: seq![BlockView::Text { text: text::trimmed(item.text) }],
                    timestamp: item.timestamp,
                })
            },
        forall|i: int|
            0 <= i < said.len() && text::trimmed((#[trigger] said[i]).text).len() > 0
                ==> at.contains(i),
    decreases said.len(),
{
    if said.len() == 0 {
        Seq::empty()
    } else {
        let rest = said.drop_last();
        let before = said_item_by_item(rest);
        let last = said.len() - 1;
        order::lemma_one_more_index(before, rest.len());
        let at = if text::trimmed(said.last().text).len() > 0 {
            before.push(last)
        } else {
            before
        };
        assert forall|k: int| 0 <= k < at.len() implies {
            let item = said[#[trigger] at[k]];
            &&& text::trimmed(item.text).len() > 0
            &&& said_messages(said)[k] == (MessageView {
                id: None,
                role: item.role,
                content: seq![BlockView::Text { text: text::trimmed(item.text) }],
                timestamp: item.timestamp,
            })
        } by {
            if k < before.len() {
                assert(before[k] == at[k]);
                assert(rest[before[k]] == said[at[k]]);
            }
        }
        assert forall|i: int|
            0 <= i < said.len() && text::trimmed((#[trigger] said[i]).text).len()
                > 0 implies at.contains(i) by {
            if i < last {
                assert(rest[i] == said[i]);
            }
        }
        at
    }
}

/// Every message that says something stands in the imported session, with its role, its time and
/// all of its text but the white space at the ends, and every message of the session is one of
/// these. None is followed by an earlier one.
pub proof fn session_holds_what_is_said(
    header: OpenCodeHeaderView,
    messages: Seq<OpenCodeMessageView>,
    texts: Seq<OpenCodeTexts>,
    jcode_session_id: Seq<char>,
    created_at: Timestamp,
    session: SessionView,
)
    requires
        texts.len() == messages.len(),
        is_opencode_session(header, messages, texts, jcode_session_id, created_at, session),
    ensures
        forall|i: int|
            0 <= i < messages.len() && text::trimmed(said_text(#[trigger] texts[i])).len() > 0
                ==> session.messages.contains(
                MessageView {
                    id: None,
                    role: messages[i].role,
                    content: seq![BlockView::Text { text: text::trimmed(said_text(texts[i])) }],
                    timestamp: messages[i].timestamp,
                },
            ),
        forall|k: int|
            0 <= k < session.messages.len() ==> exists|i: int|
                0 <= i < messages.len() && text::trimmed(said_text(#[trigger] texts[i])).len() > 0
                    && #[trigger] session.messages[k] == (MessageView {
                    id: None,
                    role: messages[i].role,
                    content: seq![BlockView::Text { text: text::trimmed(said_text(texts[i])) }],
                    timestamp: messages[i].timestamp,
                }),
        forall|j: int, k: int|
            0 <= j < k < session.messages.len() ==> !time::is_before_opt(
                (#[trigger] session.messages[k]).timestamp,
                (#[trigger] session.messages[j]).timestamp,
            ),
{
    let all = all_said(messages, texts);
    let said = choose|said: Seq<SaidView>| #[trigger]
        order::is_ordered(all, said, false) && session == opencode_session(
            header,
            messages,
            said,
            jcode_session_id,
            created_at,
        );
    order::order_keeps_all(all, said, false);
    all.to_multiset_ensures();
    said.to_multiset_ensures();
    messages_stand_in_order(said);
    let at = said_item_by_item(said);
    assert forall|i: int|
        0 <= i < messages.len() && text::trimmed(said_text(#[trigger] texts[i])).len()
            > 0 implies session.messages.contains(
        MessageView {
            id: None,
            role: messages[i].role,
            content: seq![BlockView::Text { text: text::trimmed(said_text(texts[i])) }],
            timestamp: messages[i].timestamp,
        },
    ) by {
        assert(all.contains(all[i]));
        assert(all.to_multiset().count(all[i]) > 0);
        assert(said.contains(all[i]));
        let s = choose|s: int| 0 <= s < said.len() && said[s] == all[i];
        assert(text::trimmed(said[s].text).len() > 0);
        assert(at.contains(s));
        let k = choose|k: int| 0 <= k < at.len() && at[k] == s;
        assert(session.messages[k] == said_messages(said)[k]);
    }
    assert forall|k: int| 0 <= k < session.messages.len() implies exists|i: int|
        0 <= i < messages.len() && text::trimmed(said_text(#[trigger] texts[i])).len() > 0
            && #[trigger] session.messages[k] == (MessageView {
            id: None,
            role: messages[i].role,
            content: seq![BlockView::Text { text: text::trimmed(said_text(texts[i])) }],
            timestamp: messages[i].timestamp,
        }) by {
        let item = said[at[k]];
        assert(said.contains(item));
        assert(said.to_multiset().count(item) > 0);
        assert(all.contains(item));
        let i = choose|i: int| 0 <= i < all.len() && all[i] == item;
        assert(item.text == said_text(texts[i]));
    }
}

/// The first model and the first provider other than `opencode`.
proof fn lemma_firsts(messages: Seq<OpenCodeMessageView>, i: int)
    requires
        0 <= i <= messages.len(),
    ensures
        (forall|j: int| 0 <= j < i ==> (#[trigger] messages[j]).model is None) && (i
            < messages.len() ==> messages[i].model is Some) ==> opencode_model(messages) == if i
            < messages.len() {
            messages[i].model
        } else {
            None
        },
        (forall|j: int|
            0 <= j < i ==> ((#[trigger] messages[j]).provider matches Some(provider) ==> provider
                == "opencode"@)) && (i < messages.len() ==> (messages[i].provider matches Some(
            provider,
        ) && provider != "opencode"@)) ==> opencode_provider(messages) == if i < messages.len() {
            messages[i].provider->0
        } else {
            "opencode"@
        },
    decreases messages.len(),
{
    if messages.len() > 0 {
        let rest = messages.drop_last();
        let last = messages.len() - 1;
        assert(messages[last] == messages.last());
        assert forall|j: int| 0 <= j < rest.len() implies #[trigger] rest[j] == messages[j] by {}
        lemma_firsts(
            rest,
            if i <= last {
                i
            } else {
                last
            },
        );
    }
}

/// The model of an imported session is the first that a message names.
pub proof fn first_model_counts(
    header: OpenCodeHeaderView,
    messages: Seq<OpenCodeMessageView>,
    said: Seq<SaidView>,
    jcode_session_id: Seq<char>,
    created_at: Timestamp,
    i: int,
)
    requires
        0 <= i <= messages.len(),
        forall|j: int| 0 <= j < i ==> (#[trigger] messages[j]).model is None,
        i < messages.len() ==> messages[i].model is Some,
    ensures
        opencode_session(header, messages, said, jcode_session_id, created_at).model == if i
            < messages.len() {
            messages[i].model
        } else {
            None
        },
{
    lemma_firsts(messages, i);
}

/// The provider of an imported session is the first that a message names other than `opencode`, or
/// else `opencode`.
pub proof fn first_other_provider_counts(
    header: OpenCodeHeaderView,
    messages: Seq<OpenCodeMessageView>,
    said: Seq<SaidView>,
    jcode_session_id: Seq<char>,
    created_at: Timestamp,
    i: int,
)
    requires
        0 <= i <= messages.len(),
        forall|j: int|
            0 <= j < i ==> ((#[trigger] messages[j]).provider matches Some(provider) ==> provider
                == "opencode"@),
        i < messages.len() ==> (messages[i].provider matches Some(provider) && provider
            != "opencode"@),
    ensures
        opencode_session(header, messages, said, jcode_session_id, created_at).provider_key == if i
            < messages.len() {
            messages[i].provider
        } else {
            Some("opencode"@)
        },
{
    lemma_firsts(messages, i);
}

/// The last time of messages.
proof fn lemma_last_time(messages: Seq<OpenCodeMessageView>, i: int)
    requires
        -1 <= i < messages.len(),
        i >= 0 ==> messages[i].timestamp is Some,
        forall|j: int| i < j < messages.len() ==> (#[trigger] messages[j]).timestamp is None,
    ensures
        opencode_last_time(messages) == if i >= 0 {
            messages[i].timestamp
        } else {
            None
        },
    decreases messages.len(),
{
    if messages.len() > 0 {
        let rest = messages.drop_last();
        let last = messages.len() - 1;
        assert(messages[last] == messages.last());
        if i < last {
            assert forall|j: int| 0 <= j < rest.len() implies #[trigger] rest[j]
                == messages[j] by {}
            assert(messages[last].timestamp is None);
            lemma_last_time(rest, i);
        }
    }
}

/// An imported session was last updated at the time of the last message that was found and has one,
/// or else at the time in its file, or else when it was created. It is closed, and keeps its id at
/// OpenCode, its directory and its title, or is named by its id where it has none.
pub proof fn last_time_counts(
    header: OpenCodeHeaderView,
    messages: Seq<OpenCodeMessageView>,
    said: Seq<SaidView>,
    jcode_session_id: Seq<char>,
    created_at: Timestamp,
    i: int,
)
    requires
        -1 <= i < messages.len(),
        i >= 0 ==> messages[i].timestamp is Some,
        forall|j: int| i < j < messages.len() ==> (#[trigger] messages[j]).timestamp is None,
    ensures
        ({
            let session = opencode_session(header, messages, said, jcode_session_id, created_at);
            &&& session.updated_at == if i >= 0 {
                messages[i].timestamp
            } else if header.updated_at is Some {
                header.updated_at
            } else {
                Some(created_at)
            }
            &&& session.last_active_at == session.updated_at
            &&& session.created_at == Some(created_at)
            &&& session.status == Some(SessionStatus::Closed)
            &&& session.id == Some(jcode_session_id)
            &&& session.provider_session_id == Some(header.session_id)
            &&& session.working_dir == header.working_dir
            &&& session.title == match header.title {
                Some(title) => Some(title),
                None => Some("OpenCode session "@ + header.session_id),
            }
            &&& session.messages == said_messages(said)
        }),
{
    lemma_last_time(messages, i);
}

/// A file is that of a session if and only if it is JSON and has that id.
pub proof fn file_is_known_by_its_id(file: SessionFile, session_id: Seq<char>)
    ensures
        is_opencode_file(file, session_id) <==> (file.head matches Some(content)
            && json::parsed_json(content@) matches Some(value) && json::text_field(value, "id"@)
            == Some(session_id)),
{
}

/// Reading the file of a session comes to what it holds: one that is no JSON and a session without
/// an id are errors. The file of a message gives the message that it holds.
pub proof fn reading_takes_the_file(
    content: Seq<char>,
    hint: Option<Seq<char>>,
    r: Result<OpenCodeHeader, ImportError>,
)
    ensures
        is_opencode_reading(content, hint, r) ==> match json::parsed_json(content) {
            None => r matches Err(error) && error is Json,
            Some(value) => {
                let id = match json::text_field(value, "id"@) {
                    Some(id) => if id.len() > 0 {
                        Some(id)
                    } else {
                        hint
                    },
                    None => hint,
                };
                match id {
                    None => r == Err::<OpenCodeHeader, _>(ImportError::MissingId(Agent::OpenCode)),
                    Some(id) => r matches Ok(header) && header@ == opencode_header(value, id),
                }
            },
        },
        opencode_message_in(content) == match json::parsed_json(content) {
            Some(value) => opencode_message(value),
            None => None,
        },
{
}

} // verus!
