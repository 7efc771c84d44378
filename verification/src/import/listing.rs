//! Listing the sessions of `Agent::ClaudeCode` that there are.

use crate::error::{Agent, ImportError};
use crate::import;
use crate::import::claude::ClaudeCodeEntry;
use crate::order;
use crate::order::Dated;
use crate::text;
use crate::time;
use crate::time::{earlier, parse_rfc3339_string, Timestamp};
use vstd::prelude::*;
use vstd::string::*;

verus! {

/// What is known of a session.
pub struct ClaudeCodeSessionInfo {
    pub session_id: String,
    pub first_prompt: String,
    pub summary: Option<String>,
    pub message_count: u32,
    pub created: Option<Timestamp>,
    pub modified: Option<Timestamp>,
    pub project_path: Option<String>,
    pub full_path: String,
}

/// What the information about a session is.
pub struct InfoView {
    pub session_id: Seq<char>,
    pub first_prompt: Seq<char>,
    pub summary: Option<Seq<char>>,
    pub message_count: u32,
    pub created: Option<Timestamp>,
    pub modified: Option<Timestamp>,
    pub project_path: Option<Seq<char>>,
    pub full_path: Seq<char>,
}

impl View for ClaudeCodeSessionInfo {
    type V = InfoView;

    open spec fn view(&self) -> InfoView {
        InfoView {
            session_id: self.session_id@,
            first_prompt: self.first_prompt@,
            summary: self.summary.deep_view(),
            message_count: self.message_count,
            created: self.created,
            modified: self.modified,
            project_path: self.project_path.deep_view(),
            full_path: self.full_path@,
        }
    }
}

impl DeepView for ClaudeCodeSessionInfo {
    type V = InfoView;

    open spec fn deep_view(&self) -> InfoView {
        self@
    }
}

/// An entry of a project's index of sessions. Its texts are `None` where they say nothing, and
/// `full_path` is where the index has the transcript.
pub struct SessionIndexEntry {
    pub session_id: String,
    pub full_path: Option<String>,
    pub first_prompt: Option<String>,
    pub summary: Option<String>,
    pub message_count: Option<u32>,
    pub created: Option<String>,
    pub modified: Option<String>,
    pub project_path: Option<String>,
    pub is_sidechain: Option<bool>,
}

/// The date by which sessions are listed.
pub open spec fn listing_date(info: InfoView) -> Option<Timestamp> {
    match info.modified {
        Some(t) => Some(t),
        None => info.created,
    }
}

impl Dated for InfoView {
    open spec fn date(self) -> Option<Timestamp> {
        listing_date(self)
    }
}

/// Whether `listed` is `sessions` with the latest first, sessions of one date as they stand there.
pub open spec fn is_recency_order(sessions: Seq<InfoView>, listed: Seq<InfoView>) -> bool {
    order::is_ordered(sessions, listed, true)
}

/// The date by which a session is listed.
fn date_of(info: &ClaudeCodeSessionInfo) -> (r: Option<Timestamp>)
    ensures
        r == listing_date(info@),
{
    match info.modified {
        Some(t) => Some(t),
        None => info.created,
    }
}

/// `sessions` with the latest first, sessions of one date in the order in which they stand.
pub fn sort_by_recency(sessions: Vec<ClaudeCodeSessionInfo>) -> (r: Vec<ClaudeCodeSessionInfo>)
    ensures
        is_recency_order(sessions.deep_view(), r.deep_view()),
{
    let ghost all = sessions.deep_view();
    let mut sorted: Vec<ClaudeCodeSessionInfo> = Vec::new();
    for info in it: sessions
        invariant
            it.seq().len() == all.len(),
            forall|i: int| 0 <= i < all.len() ==> (#[trigger] it.seq()[i])@ == all[i],
            is_recency_order(all.take(it.index()), sorted.deep_view()),
    {
        let ghost k = it.index();
        let ghost before = sorted.deep_view();
        assert(info@ == all[k]);
        let date = date_of(&info);
        let mut at: usize = sorted.len();
        while at > 0 && earlier(date_of(&sorted[at - 1]), date)
            invariant
                before == sorted.deep_view(),
                date == info@.date(),
                at <= sorted@.len(),
                forall|j: int|
                    at <= j < before.len() ==> order::goes_before(
                        date,
                        (#[trigger] before[j]).date(),
                        true,
                    ),
            decreases at,
        {
            assert(before[at - 1] == sorted@[at - 1]@);
            at = at - 1;
        }
        assert(at > 0 ==> before[at - 1] == sorted@[at - 1]@);
        proof {
            order::lemma_insert_in_order(all.take(k), before, info@, at as int, true);
            assert(all.take(k + 1) == all.take(k).push(all[k]));
        }
        sorted.insert(at, info);
        assert(sorted.deep_view() =~= before.insert(at as int, all[k]));
    }
    assert(all.take(all.len() as int) == all);
    sorted
}

/// The first session id among the lines of a transcript.
pub open spec fn first_session_id(entries: Seq<ClaudeCodeEntry>) -> Option<Seq<char>>
    decreases entries.len(),
{
    if entries.len() == 0 {
        None
    } else if first_session_id(entries.drop_last()) is Some {
        first_session_id(entries.drop_last())
    } else {
        entries.last().session_id.deep_view()
    }
}

/// The text of a user's message.
pub open spec fn user_text(entry: ClaudeCodeEntry) -> Option<Seq<char>> {
    match entry.message {
        Some(message) => if entry.entry_type@ == "user"@ {
            message.text.deep_view()
        } else {
            None
        },
        None => None,
    }
}

/// The first text of a user's message.
pub open spec fn first_user_text(ordered: Seq<&ClaudeCodeEntry>) -> Option<Seq<char>>
    decreases ordered.len(),
{
    if ordered.len() == 0 {
        None
    } else if first_user_text(ordered.drop_last()) is Some {
        first_user_text(ordered.drop_last())
    } else {
        user_text(*ordered.last())
    }
}

/// What a transcript in a file and the index, where it has an entry for it, say of a session. The
/// index comes first, but an empty count gives way to that of the transcript.
pub open spec fn file_session_info(
    entries: Seq<ClaudeCodeEntry>,
    ordered: Seq<&ClaudeCodeEntry>,
    path: Seq<char>,
    stem: Option<Seq<char>>,
    indexed: Option<&SessionIndexEntry>,
) -> InfoView {
    let first = if ordered.len() > 0 {
        Some(ordered.first())
    } else {
        None
    };
    let last = if ordered.len() > 0 {
        Some(ordered.last())
    } else {
        None
    };
    let first_time = match first {
        Some(entry) => time::instant_of_text(entry.timestamp.deep_view()),
        None => None,
    };
    let last_time = match last {
        Some(entry) => time::instant_of_text(entry.timestamp.deep_view()),
        None => None,
    };
    let first_cwd = match first {
        Some(entry) => entry.cwd.deep_view(),
        None => None,
    };
    let own_id = import::known_or(import::first_known(first_session_id(entries), stem), path);
    match indexed {
        Some(entry) => InfoView {
            session_id: entry.session_id@,
            first_prompt: import::known_or(
                import::first_known(
                    import::first_known(entry.first_prompt.deep_view(), first_user_text(ordered)),
                    entry.summary.deep_view(),
                ),
                "No prompt"@,
            ),
            summary: entry.summary.deep_view(),
            message_count: match entry.message_count {
                Some(count) => if count > 0 {
                    count
                } else {
                    ordered.len() as u32
                },
                None => ordered.len() as u32,
            },
            created: import::first_known(
                time::instant_of_text(entry.created.deep_view()),
                first_time,
            ),
            modified: import::first_known(
                time::instant_of_text(entry.modified.deep_view()),
                last_time,
            ),
            project_path: import::first_known(entry.project_path.deep_view(), first_cwd),
            full_path: path,
        },
        None => InfoView {
            session_id: own_id,
            first_prompt: import::known_or(first_user_text(ordered), "No prompt"@),
            summary: None,
            message_count: ordered.len() as u32,
            created: first_time,
            modified: last_time,
            project_path: first_cwd,
            full_path: path,
        },
    }
}

/// The first session id among the lines of a transcript.
fn find_session_id(entries: &Vec<ClaudeCodeEntry>) -> (r: Option<String>)
    ensures
        r.deep_view() == first_session_id(entries@),
{
    let mut found: Option<String> = None;
    for i in 0..entries.len()
        invariant
            found.deep_view() == first_session_id(entries@.take(i as int)),
    {
        assert(entries@.take(i + 1).drop_last() == entries@.take(i as int));
        if found.is_none() {
            found = entries[i].session_id.clone();
        }
    }
    assert(entries@.take(entries@.len() as int) == entries@);
    found
}

/// The first text of a user's message.
fn find_user_text(ordered: &Vec<&ClaudeCodeEntry>) -> (r: Option<String>)
    ensures
        r.deep_view() == first_user_text(ordered@),
{
    let mut found: Option<String> = None;
    for i in 0..ordered.len()
        invariant
            found.deep_view() == first_user_text(ordered@.take(i as int)),
    {
        assert(ordered@.take(i + 1).drop_last() == ordered@.take(i as int));
        if found.is_none() {
            let entry = ordered[i];
            if text::same_text(entry.entry_type.as_str(), "user") {
                if let Some(message) = &entry.message {
                    found = message.text.clone();
                }
            }
        }
    }
    assert(ordered@.take(ordered@.len() as int) == ordered@);
    found
}

/// What a transcript in a file and the index, where it has an entry for it, say of a session.
pub fn claude_code_session_info_from_file(
    entries: &Vec<ClaudeCodeEntry>,
    ordered: &Vec<&ClaudeCodeEntry>,
    path: &str,
    stem: Option<String>,
    indexed: Option<&SessionIndexEntry>,
) -> (r: ClaudeCodeSessionInfo)
    ensures
        r@ == file_session_info(entries@, ordered@, path@, stem.deep_view(), indexed),
{
    let mut first_time: Option<Timestamp> = None;
    let mut last_time: Option<Timestamp> = None;
    let mut first_cwd: Option<String> = None;
    if ordered.len() > 0 {
        first_time = parse_rfc3339_string(&ordered[0].timestamp);
        last_time = parse_rfc3339_string(&ordered[ordered.len() - 1].timestamp);
        first_cwd = ordered[0].cwd.clone();
    }
    let own_count = ordered.len() as u32;
    let user_text = find_user_text(ordered);
    match indexed {
        Some(entry) => {
            let prompt = match &entry.first_prompt {
                Some(prompt) => Some(prompt.clone()),
                None => match user_text {
                    Some(text) => Some(text),
                    None => entry.summary.clone(),
                },
            };
            let created = parse_rfc3339_string(&entry.created);
            let modified = parse_rfc3339_string(&entry.modified);
            ClaudeCodeSessionInfo {
                session_id: entry.session_id.clone(),
                first_prompt: match prompt {
                    Some(prompt) => prompt,
                    None => "No prompt".to_owned(),
                },
                summary: entry.summary.clone(),
                message_count: match entry.message_count {
                    Some(count) => if count > 0 {
                        count
                    } else {
                        own_count
                    },
                    None => own_count,
                },
                created: if created.is_some() {
                    created
                } else {
                    first_time
                },
                modified: if modified.is_some() {
                    modified
                } else {
                    last_time
                },
                project_path: match &entry.project_path {
                    Some(path) => Some(path.clone()),
                    None => first_cwd,
                },
                full_path: path.to_owned(),
            }
        },
        None => ClaudeCodeSessionInfo {
            session_id: match find_session_id(entries) {
                Some(id) => id,
                None => match stem {
                    Some(stem) => stem,
                    None => path.to_owned(),
                },
            },
            first_prompt: match user_text {
                Some(text) => text,
                None => "No prompt".to_owned(),
            },
            summary: None,
            message_count: own_count,
            created: first_time,
            modified: last_time,
            project_path: first_cwd,
            full_path: path.to_owned(),
        },
    }
}

/// Whether a session that was read from its transcript is worth listing: it has messages, and
/// something to show for them.
pub open spec fn is_listable(info: InfoView) -> bool {
    info.message_count != 0 && (info.summary is Some || info.first_prompt != "No prompt"@)
}

/// Whether a session with the id `id` is among `sessions`.
pub open spec fn has_id(sessions: Seq<InfoView>, id: Seq<char>) -> bool {
    exists|i: int| 0 <= i < sessions.len() && (#[trigger] sessions[i]).session_id == id
}

/// What is listed of a session whose transcript was not read. `agent` is the name of the agent that
/// it is from.
pub open spec fn unread_session_info(
    session_id: Seq<char>,
    modified: Option<Timestamp>,
    project_name: Option<Seq<char>>,
    full_path: Seq<char>,
    agent: Seq<char>,
) -> InfoView {
    let label = agent + " session "@ + text::fitting(session_id, 8);
    InfoView {
        session_id,
        first_prompt: label,
        summary: Some(label),
        message_count: 0,
        created: modified,
        modified,
        project_path: match project_name {
            Some(name) => Some(text::replaced(name, "-"@, "/"@)),
            None => None,
        },
        full_path,
    }
}

/// What is known of the session in an entry of an index.
pub enum Located {
    /// It has no transcript.
    Nowhere,
    /// The index describes it.
    Described(ClaudeCodeSessionInfo),
    /// It has a transcript, but the index does not describe it.
    Unread,
}

/// A list of sessions in the making.
pub struct SessionListing {
    sessions: Vec<ClaudeCodeSessionInfo>,
}

impl SessionListing {
    /// The sessions on the list so far.
    pub closed spec fn listed(&self) -> Seq<InfoView> {
        self.sessions.deep_view()
    }

    /// An empty list.
    pub fn new() -> (r: SessionListing)
        ensures
            r.listed() == Seq::<InfoView>::empty(),
    {
        let r = SessionListing { sessions: Vec::new() };
        assert(r.listed() =~= Seq::<InfoView>::empty());
        r
    }

    /// Whether a session with the id `id` is on the list.
    pub fn has_session(&self, id: &str) -> (r: bool)
        ensures
            r == has_id(self.listed(), id@),
    {
        for i in 0..self.sessions.len()
            invariant
                forall|j: int| 0 <= j < i ==> (#[trigger] self.listed()[j]).session_id != id@,
        {
            if text::same_text(self.sessions[i].session_id.as_str(), id) {
                assert(self.listed()[i as int].session_id == id@);
                return true;
            }
        }
        false
    }

    /// Lists a session that its index describes.
    pub fn list_indexed(&mut self, info: ClaudeCodeSessionInfo)
        ensures
            final(self).listed() == old(self).listed().push(info@),
    {
        self.sessions.push(info);
        assert(self.listed() =~= old(self).listed().push(info@));
    }

    /// Takes an entry of an index: lists its session if the index describes it, unless the entry is
    /// about the thread of a subagent. Returns whether the transcript has to be read to list it.
    pub fn take_entry(&mut self, entry: &SessionIndexEntry, located: Located) -> (r: bool)
        ensures
            r == (entry.is_sidechain != Some(true) && located is Unread),
            final(self).listed() == match located {
                Located::Described(info) => if entry.is_sidechain != Some(true) {
                    old(self).listed().push(info@)
                } else {
                    old(self).listed()
                },
                _ => old(self).listed(),
            },
    {
        if let Some(true) = entry.is_sidechain {
            return false;
        }
        match located {
            Located::Nowhere => false,
            Located::Described(info) => {
                self.list_indexed(info);
                false
            },
            Located::Unread => true,
        }
    }

    /// Whether a file is worth a look: its name is an id that is not on the list.
    pub fn wants_file(&self, stem: Option<&str>) -> (r: bool)
        ensures
            r == (stem matches Some(id) && !has_id(self.listed(), id@)),
    {
        match stem {
            Some(id) => !self.has_session(id),
            None => false,
        }
    }

    /// Lists a session that was read from its transcript, if it is worth listing.
    pub fn list_read(&mut self, info: ClaudeCodeSessionInfo) -> (r: bool)
        ensures
            r == is_listable(info@),
            final(self).listed() == if is_listable(info@) {
                old(self).listed().push(info@)
            } else {
                old(self).listed()
            },
    {
        if info.message_count == 0 || (info.summary.is_none() && text::same_text(
            info.first_prompt.as_str(),
            "No prompt",
        )) {
            return false;
        }
        self.list_indexed(info);
        true
    }

    /// Lists a session by its file alone, if no session with its id is on the list. `agent` is the
    /// name of the agent that it is from.
    pub fn list_unread(
        &mut self,
        session_id: &str,
        modified: Option<Timestamp>,
        project_name: Option<&str>,
        full_path: &str,
        agent: &str,
    ) -> (r: bool)
        ensures
            r == !has_id(old(self).listed(), session_id@),
            final(self).listed() == if has_id(old(self).listed(), session_id@) {
                old(self).listed()
            } else {
                old(self).listed().push(
                    unread_session_info(
                        session_id@,
                        modified,
                        match project_name {
                            Some(name) => Some(name@),
                            None => None,
                        },
                        full_path@,
                        agent@,
                    ),
                )
            },
    {
        if self.has_session(session_id) {
            return false;
        }
        let label = agent.to_owned().concat(" session ").concat(
            text::truncate_str(session_id, 8),
        );
        proof {
            reveal_strlit("-");
        }
        let info = ClaudeCodeSessionInfo {
            session_id: session_id.to_owned(),
            first_prompt: label.clone(),
            summary: Some(label),
            message_count: 0,
            created: modified,
            modified,
            project_path: match project_name {
                Some(name) => Some(text::replace(name, "-", "/")),
                None => None,
            },
            full_path: full_path.to_owned(),
        };
        self.list_indexed(info);
        true
    }
}

/// The finished list, with the latest session first.
pub fn list_claude_code_sessions(listing: SessionListing) -> (r: Vec<ClaudeCodeSessionInfo>)
    ensures
        is_recency_order(listing.listed(), r.deep_view()),
{
    sort_by_recency(listing.sessions)
}

/// The first `scan_limit` sessions of the finished list.
pub fn list_claude_code_sessions_lazy(listing: SessionListing, scan_limit: usize) -> (r: Vec<
    ClaudeCodeSessionInfo,
>)
    ensures
        exists|all: Seq<InfoView>| #[trigger]
            is_recency_order(listing.listed(), all) && r.deep_view() == if all.len()
                <= scan_limit {
                all
            } else {
                all.take(scan_limit as int)
            },
{
    let mut sessions = sort_by_recency(listing.sessions);
    let ghost all = sessions.deep_view();
    sessions.truncate(scan_limit);
    assert(is_recency_order(listing.listed(), all));
    assert(sessions.deep_view() =~= if all.len() <= scan_limit {
        all
    } else {
        all.take(scan_limit as int)
    });
    sessions
}

/// Whether a session belongs to a project whose path contains `project_filter`.
pub open spec fn in_project(info: InfoView, project_filter: Seq<char>) -> bool {
    match info.project_path {
        Some(path) => text::has_text(path, project_filter),
        None => false,
    }
}

/// Those of `sessions` that belong to a project whose path contains `project_filter`.
pub open spec fn project_sessions(sessions: Seq<InfoView>, project_filter: Seq<char>) -> Seq<
    InfoView,
>
    decreases sessions.len(),
{
    if sessions.len() == 0 {
        Seq::empty()
    } else if in_project(sessions.last(), project_filter) {
        project_sessions(sessions.drop_last(), project_filter).push(sessions.last())
    } else {
        project_sessions(sessions.drop_last(), project_filter)
    }
}

/// Those of `sessions` that belong to a project whose path contains `project_filter`.
pub fn list_sessions_for_project(
    sessions: Vec<ClaudeCodeSessionInfo>,
    project_filter: &str,
) -> (r: Vec<ClaudeCodeSessionInfo>)
    ensures
        r.deep_view() == project_sessions(sessions.deep_view(), project_filter@),
{
    let ghost all = sessions.deep_view();
    let mut out: Vec<ClaudeCodeSessionInfo> = Vec::new();
    for info in it: sessions
        invariant
            it.seq().len() == all.len(),
            forall|i: int| 0 <= i < all.len() ==> (#[trigger] it.seq()[i])@ == all[i],
            out.deep_view() =~= project_sessions(all.take(it.index()), project_filter@),
    {
        let ghost k = it.index();
        let ghost before = out.deep_view();
        assert(info@ == all[k]);
        assert(all.take(k + 1).drop_last() == all.take(k));
        let wanted = match &info.project_path {
            Some(path) => text::contains(path.as_str(), project_filter),
            None => false,
        };
        if wanted {
            out.push(info);
            assert(out.deep_view() =~= before.push(all[k]));
        }
    }
    assert(all.take(all.len() as int) == all);
    out
}

/// The path of the transcript of the first session with the id `session_id` whose transcript is
/// there. `exists` tells of each session whether its transcript is.
pub open spec fn session_path(
    sessions: Seq<InfoView>,
    exists: Seq<bool>,
    session_id: Seq<char>,
) -> Option<Seq<char>>
    decreases sessions.len(),
{
    if sessions.len() == 0 {
        None
    } else {
        import::first_known(
            session_path(sessions.drop_last(), exists, session_id),
            if sessions.last().session_id == session_id && exists[sessions.len() - 1] {
                Some(sessions.last().full_path)
            } else {
                None
            },
        )
    }
}

/// The path of the transcript of the first session with the id `session_id` whose transcript is
/// there. `exists` tells of each session whether its transcript is.
pub fn find_session_file(
    sessions: &Vec<ClaudeCodeSessionInfo>,
    exists: &Vec<bool>,
    session_id: &str,
) -> (r: Result<String, ImportError>)
    requires
        exists@.len() == sessions@.len(),
    ensures
        match r {
            Ok(path) => session_path(sessions.deep_view(), exists@, session_id@) == Some(path@),
            Err(error) => session_path(sessions.deep_view(), exists@, session_id@) is None && error
                == ImportError::NotFound(Agent::ClaudeCode),
        },
{
    let ghost all = sessions.deep_view();
    let mut found: Option<String> = None;
    for i in 0..sessions.len()
        invariant
            all == sessions.deep_view(),
            exists@.len() == sessions@.len(),
            found.deep_view() == session_path(all.take(i as int), exists@, session_id@),
    {
        let info = &sessions[i];
        assert(all.take(i + 1).drop_last() == all.take(i as int));
        assert(all.take(i + 1).last() == info@);
        if found.is_none() && text::same_text(info.session_id.as_str(), session_id) && exists[i] {
            found = Some(info.full_path.clone());
        }
    }
    assert(all.take(all.len() as int) == all);
    match found {
        Some(path) => Ok(path),
        None => Err(ImportError::NotFound(Agent::ClaudeCode)),
    }
}

/// The title under which a session is listed: its summary, or else its first prompt.
pub open spec fn title_listed(sessions: Seq<InfoView>, session_id: Seq<char>) -> Option<Seq<char>>
    decreases sessions.len(),
{
    if sessions.len() == 0 {
        None
    } else if sessions.first().session_id == session_id {
        Some(import::known_or(sessions.first().summary, sessions.first().first_prompt))
    } else {
        title_listed(sessions.drop_first(), session_id)
    }
}

/// The title under which a session is listed: its summary, or else its first prompt.
pub fn listed_title(sessions: &Vec<ClaudeCodeSessionInfo>, session_id: &str) -> (r: Option<String>)
    ensures
        r.deep_view() == title_listed(sessions.deep_view(), session_id@),
{
    let ghost all = sessions.deep_view();
    assert(all.skip(0) == all);
    for i in 0..sessions.len()
        invariant
            all == sessions.deep_view(),
            title_listed(all, session_id@) == title_listed(all.skip(i as int), session_id@),
    {
        let info = &sessions[i];
        assert(all.skip(i as int).first() == info@);
        assert(all.skip(i as int).drop_first() == all.skip(i + 1));
        if text::same_text(info.session_id.as_str(), session_id) {
            return match &info.summary {
                Some(summary) => Some(summary.clone()),
                None => Some(info.first_prompt.clone()),
            };
        }
    }
    assert(all.skip(all.len() as int) == Seq::<InfoView>::empty());
    None
}

/// The sessions of a project are exactly those of the sessions that belong to it.
pub proof fn project_sessions_belong(
    sessions: Seq<InfoView>,
    project_filter: Seq<char>,
    info: InfoView,
)
    ensures
        project_sessions(sessions, project_filter).contains(info) <==> sessions.contains(info)
            && in_project(info, project_filter),
    decreases sessions.len(),
{
    if sessions.len() > 0 {
        let rest = sessions.drop_last();
        let kept = project_sessions(rest, project_filter);
        project_sessions_belong(rest, project_filter, info);
        assert(sessions == rest.push(sessions.last()));
        assert(sessions.contains(info) <==> rest.contains(info) || info == sessions.last()) by {
            lemma_push_contains(rest, sessions.last(), info);
        }
        lemma_push_contains(kept, sessions.last(), info);
    }
}

/// What a sequence holds after something was added to it.
proof fn lemma_push_contains(sessions: Seq<InfoView>, added: InfoView, info: InfoView)
    ensures
        sessions.push(added).contains(info) <==> sessions.contains(info) || info == added,
{
    let more = sessions.push(added);
    if sessions.contains(info) {
        let i = choose|i: int| 0 <= i < sessions.len() && sessions[i] == info;
        assert(more[i] == info);
    }
    if info == added {
        assert(more[sessions.len() as int] == info);
    }
    if more.contains(info) && info != added {
        let i = choose|i: int| 0 <= i < more.len() && more[i] == info;
        assert(sessions[i] == info);
    }
}

/// A transcript that is found belongs to the first session with the id whose transcript is there.
pub proof fn found_session_is_first(
    sessions: Seq<InfoView>,
    exists: Seq<bool>,
    session_id: Seq<char>,
)
    ensures
        match session_path(sessions, exists, session_id) {
            Some(path) => exists|i: int|
                0 <= i < sessions.len() && (#[trigger] sessions[i]).session_id == session_id
                    && exists[i] && path == sessions[i].full_path && forall|j: int|
                    0 <= j < i ==> !((#[trigger] sessions[j]).session_id == session_id
                        && exists[j]),
            None => forall|i: int|
                0 <= i < sessions.len() ==> !((#[trigger] sessions[i]).session_id == session_id
                    && exists[i]),
        },
    decreases sessions.len(),
{
    if sessions.len() > 0 {
        let rest = sessions.drop_last();
        found_session_is_first(rest, exists, session_id);
        assert forall|i: int| 0 <= i < rest.len() implies #[trigger] rest[i] == sessions[i] by {}
        let last = sessions.len() - 1;
        match session_path(rest, exists, session_id) {
            Some(path) => {
                let i = choose|i: int|
                    0 <= i < rest.len() && (#[trigger] rest[i]).session_id == session_id
                        && exists[i] && path == rest[i].full_path && forall|j: int|
                        0 <= j < i ==> !((#[trigger] rest[j]).session_id == session_id
                            && exists[j]);
                assert(sessions[i].session_id == session_id);
                assert forall|j: int| 0 <= j < i implies !((#[trigger] sessions[j]).session_id
                    == session_id && exists[j]) by {
                    assert(rest[j] == sessions[j]);
                }
            },
            None => {
                assert forall|j: int| 0 <= j < rest.len() implies !((
                #[trigger] sessions[j]).session_id == session_id && exists[j]) by {
                    assert(rest[j] == sessions[j]);
                }
                assert(sessions[last] == sessions.last());
            },
        }
    }
}

/// The first id in entries.
pub proof fn first_session_id_counts(entries: Seq<ClaudeCodeEntry>, i: int)
    requires
        0 <= i <= entries.len(),
        forall|j: int| 0 <= j < i ==> (#[trigger] entries[j]).session_id is None,
        i < entries.len() ==> entries[i].session_id is Some,
    ensures
        first_session_id(entries) == if i < entries.len() {
            Some(entries[i].session_id->0@)
        } else {
            None
        },
    decreases entries.len(),
{
    if entries.len() > 0 {
        let rest = entries.drop_last();
        let last = entries.len() - 1;
        assert(entries[last] == entries.last());
        assert forall|j: int| 0 <= j < rest.len() implies #[trigger] rest[j] == entries[j] by {}
        first_session_id_counts(
            rest,
            if i <= last {
                i
            } else {
                last
            },
        );
    }
}

/// Whether a line is a user's with a text.
pub open spec fn is_user_text(entry: ClaudeCodeEntry) -> bool {
    entry.entry_type@ == "user"@ && (entry.message matches Some(message) && message.text is Some)
}

/// The first text that a user says counts as it is.
pub proof fn first_user_text_counts(ordered: Seq<&ClaudeCodeEntry>, i: int)
    requires
        0 <= i <= ordered.len(),
        forall|j: int| 0 <= j < i ==> !is_user_text(*#[trigger] ordered[j]),
        i < ordered.len() ==> is_user_text(*ordered[i]),
    ensures
        first_user_text(ordered) == if i < ordered.len() {
            Some(ordered[i].message->0.text->0@)
        } else {
            None
        },
    decreases ordered.len(),
{
    if ordered.len() > 0 {
        let rest = ordered.drop_last();
        let last = ordered.len() - 1;
        assert(ordered[last] == ordered.last());
        assert forall|j: int| 0 <= j < rest.len() implies #[trigger] rest[j] == ordered[j] by {}
        if i > last {
            assert(!is_user_text(*ordered[last]));
        }
        first_user_text_counts(
            rest,
            if i <= last {
                i
            } else {
                last
            },
        );
    }
}

/// What is told of a session is what the index says, where it says it, and else what the transcript
/// does: the first line gives the creation and the directory, the last one the change.
pub proof fn info_prefers_the_index(
    entries: Seq<ClaudeCodeEntry>,
    ordered: Seq<&ClaudeCodeEntry>,
    path: Seq<char>,
    stem: Option<Seq<char>>,
    entry: &SessionIndexEntry,
)
    ensures
        ({
            let info = file_session_info(entries, ordered, path, stem, Some(entry));
            let own = file_session_info(entries, ordered, path, stem, None);
            &&& info.session_id == entry.session_id@
            &&& info.first_prompt == match entry.first_prompt {
                Some(prompt) => prompt@,
                None => match first_user_text(ordered) {
                    Some(text) => text,
                    None => match entry.summary {
                        Some(summary) => summary@,
                        None => "No prompt"@,
                    },
                },
            }
            &&& info.summary == match entry.summary {
                Some(summary) => Some(summary@),
                None => None,
            }
            &&& match entry.message_count {
                Some(count) => info.message_count == if count > 0 {
                    count
                } else {
                    own.message_count
                },
                None => info.message_count == own.message_count,
            }
            &&& info.created == match time::instant_of_text(entry.created.deep_view()) {
                Some(t) => Some(t),
                None => own.created,
            }
            &&& info.modified == match time::instant_of_text(entry.modified.deep_view()) {
                Some(t) => Some(t),
                None => own.modified,
            }
            &&& info.project_path == match entry.project_path {
                Some(project) => Some(project@),
                None => own.project_path,
            }
            &&& info.full_path == path && own.full_path == path
            &&& own.session_id == match first_session_id(entries) {
                Some(id) => id,
                None => match stem {
                    Some(stem) => stem,
                    None => path,
                },
            }
            &&& own.first_prompt == match first_user_text(ordered) {
                Some(text) => text,
                None => "No prompt"@,
            }
            &&& own.summary is None
            &&& ordered.len() <= u32::MAX ==> own.message_count == ordered.len()
            &&& ordered.len() == 0 ==> own.created is None && own.modified is None
                && own.project_path is None
            &&& ordered.len() > 0 ==> own.created == time::instant_of_text(
                ordered[0].timestamp.deep_view(),
            ) && own.modified == time::instant_of_text(
                ordered[ordered.len() - 1].timestamp.deep_view(),
            ) && own.project_path == ordered[0].cwd.deep_view()
        }),
{
}

/// A session that was read is listed if and only if it has messages, and a summary or a prompt.
pub proof fn sessions_with_something_are_listed(info: InfoView)
    ensures
        is_listable(info) <==> info.message_count > 0 && (info.summary is Some || info.first_prompt
            != "No prompt"@),
{
}

/// A session that was not read is listed under the beginning of its id, as last changed when its
/// file was, and in the directory that the name of its project stands for.
pub proof fn unread_session_is_labelled(
    session_id: Seq<char>,
    modified: Option<Timestamp>,
    project_name: Option<Seq<char>>,
    full_path: Seq<char>,
    agent: Seq<char>,
)
    ensures
        ({
            let info = unread_session_info(session_id, modified, project_name, full_path, agent);
            &&& info.session_id == session_id
            &&& info.first_prompt == agent + " session "@ + text::fitting(session_id, 8)
            &&& info.summary == Some(info.first_prompt)
            &&& info.message_count == 0
            &&& info.created == modified && info.modified == modified
            &&& info.full_path == full_path
            &&& match project_name {
                Some(name) => info.project_path matches Some(path) && path.len() == name.len()
                    && forall|i: int|
                    0 <= i < name.len() ==> #[trigger] path[i] == if name[i] == '-' {
                        '/'
                    } else {
                        name[i]
                    },
                None => info.project_path is None,
            }
        }),
{
    if project_name is Some {
        lemma_dashes(project_name->0);
    }
}

/// Each dash becomes a slash.
proof fn lemma_dashes(name: Seq<char>)
    ensures
        ({
            let path = text::replaced(name, "-"@, "/"@);
            path.len() == name.len() && forall|i: int|
                0 <= i < name.len() ==> #[trigger] path[i] == if name[i] == '-' {
                    '/'
                } else {
                    name[i]
                }
        }),
    decreases name.len(),
{
    reveal_strlit("-");
    reveal_strlit("/");
    assert("-"@ =~= seq!['-']);
    assert("/"@ =~= seq!['/']);
    if name.len() > 0 {
        let rest = name.drop_first();
        lemma_dashes(rest);
        assert(name.subrange(0, 1) =~= seq![name[0]]);
        assert(name.skip(1) == rest);
        if name[0] != '-' {
            assert(name.subrange(0, 1)[0] != "-"@[0]);
        }
        let path = text::replaced(name, "-"@, "/"@);
        assert(path == seq![
            if name[0] == '-' {
                '/'
            } else {
                name[0]
            },
        ] + text::replaced(rest, "-"@, "/"@));
        assert forall|i: int| 0 <= i < name.len() implies #[trigger] path[i] == if name[i] == '-' {
            '/'
        } else {
            name[i]
        } by {
            if i > 0 {
                assert(path[i] == text::replaced(rest, "-"@, "/"@)[i - 1]);
                assert(rest[i - 1] == name[i]);
            }
        }
    }
}

/// The sessions of a project are those whose project path contains the filter, in their order.
pub proof fn project_sessions_one_by_one(
    before: Seq<InfoView>,
    info: InfoView,
    after: Seq<InfoView>,
    project_filter: Seq<char>,
)
    ensures
        project_sessions(before + seq![info] + after, project_filter) == project_sessions(
            before,
            project_filter,
        ) + (if info.project_path is Some && text::has_text(
            info.project_path->0,
            project_filter,
        ) {
            seq![info]
        } else {
            Seq::empty()
        }) + project_sessions(after, project_filter),
    decreases after.len(),
{
    let all = before + seq![info] + after;
    let own = if info.project_path is Some && text::has_text(info.project_path->0, project_filter) {
        seq![info]
    } else {
        Seq::empty()
    };
    if after.len() == 0 {
        assert(all.drop_last() == before);
        assert(all.last() == info);
    } else {
        project_sessions_one_by_one(before, info, after.drop_last(), project_filter);
        assert(all.drop_last() == before + seq![info] + after.drop_last());
        assert(all.last() == after.last());
    }
    assert(project_sessions(all, project_filter) =~= project_sessions(before, project_filter) + own
        + project_sessions(after, project_filter));
}

/// The title of a listed session is the summary of the first session with its id, or else the first
/// prompt of it.
pub proof fn first_listed_title_counts(sessions: Seq<InfoView>, session_id: Seq<char>, i: int)
    requires
        0 <= i <= sessions.len(),
        forall|j: int| 0 <= j < i ==> (#[trigger] sessions[j]).session_id != session_id,
        i < sessions.len() ==> sessions[i].session_id == session_id,
    ensures
        title_listed(sessions, session_id) == if i < sessions.len() {
            Some(
                match sessions[i].summary {
                    Some(summary) => summary,
                    None => sessions[i].first_prompt,
                },
            )
        } else {
            None
        },
    decreases sessions.len(),
{
    if i > 0 {
        let rest = sessions.drop_first();
        assert(sessions[0].session_id != session_id);
        assert forall|j: int| 0 <= j < i - 1 implies (#[trigger] rest[j]).session_id
            != session_id by {
            assert(rest[j] == sessions[j + 1]);
        }
        if i < sessions.len() {
            assert(rest[i - 1] == sessions[i]);
        }
        first_listed_title_counts(rest, session_id, i - 1);
    }
}

/// A list of sessions has every session once, and none stands after one that was changed earlier; a
/// session that is not known to have changed counts as changed when it was created.
pub proof fn latest_sessions_come_first(sessions: Seq<InfoView>, listed: Seq<InfoView>)
    requires
        is_recency_order(sessions, listed),
    ensures
        listed.to_multiset() == sessions.to_multiset(),
        listed.len() == sessions.len(),
        forall|i: int, j: int|
            0 <= i < j < listed.len() ==> {
                let first = if (#[trigger] listed[i]).modified is Some {
                    listed[i].modified
                } else {
                    listed[i].created
                };
                let second = if (#[trigger] listed[j]).modified is Some {
                    listed[j].modified
                } else {
                    listed[j].created
                };
                second is Some ==> first is Some && (first->0.secs > second->0.secs || (
                first->0.secs == second->0.secs && first->0.nanos >= second->0.nanos))
            },
{
    order::order_keeps_all(sessions, listed, true);
    assert forall|i: int, j: int| 0 <= i < j < listed.len() implies {
        let first = if (#[trigger] listed[i]).modified is Some {
            listed[i].modified
        } else {
            listed[i].created
        };
        let second = if (#[trigger] listed[j]).modified is Some {
            listed[j].modified
        } else {
            listed[j].created
        };
        second is Some ==> first is Some && (first->0.secs > second->0.secs || (first->0.secs
            == second->0.secs && first->0.nanos >= second->0.nanos))
    } by {
        assert(!order::goes_before(listed[j].date(), listed[i].date(), true));
    }
}

/// A session is on a list if and only if one with its id was listed.
pub proof fn listed_ids_one_by_one(sessions: Seq<InfoView>, info: InfoView, id: Seq<char>)
    ensures
        !has_id(Seq::empty(), id),
        has_id(sessions.push(info), id) <==> has_id(sessions, id) || info.session_id == id,
{
    let more = sessions.push(info);
    if has_id(sessions, id) {
        let i = choose|i: int| 0 <= i < sessions.len() && (#[trigger] sessions[i]).session_id == id;
        assert(more[i].session_id == id);
    }
    assert(more[sessions.len() as int] == info);
    if has_id(more, id) && info.session_id != id {
        let i = choose|i: int| 0 <= i < more.len() && (#[trigger] more[i]).session_id == id;
        assert(sessions[i].session_id == id);
    }
}

} // verus!
