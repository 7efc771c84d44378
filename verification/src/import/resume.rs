//! Which session to import and resume.

use crate::error::{Agent, ImportError};
use crate::import::codex;
use crate::import::codex::find_codex_session_file;
use crate::import::listing;
use crate::import::listing::{find_session_file, ClaudeCodeSessionInfo};
use crate::import::opencode;
use crate::import::opencode::find_opencode_session_file;
use crate::import::SessionFile;
use vstd::prelude::*;
use vstd::string::*;

verus! {

/// A session to resume.
#[derive(Debug, PartialEq, Eq)]
pub enum ResumeTarget {
    JcodeSession { session_id: String },
    ClaudeCodeSession { session_id: String, session_path: String },
    CodexSession { session_id: String, session_path: String },
    PiSession { session_path: String },
    OpenCodeSession { session_id: String, session_path: String },
}

/// Which session is to resume.
pub enum TargetView {
    JcodeSession { session_id: Seq<char> },
    ClaudeCodeSession { session_id: Seq<char>, session_path: Seq<char> },
    CodexSession { session_id: Seq<char>, session_path: Seq<char> },
    PiSession { session_path: Seq<char> },
    OpenCodeSession { session_id: Seq<char>, session_path: Seq<char> },
}

impl View for ResumeTarget {
    type V = TargetView;

    open spec fn view(&self) -> TargetView {
        match self {
            ResumeTarget::JcodeSession { session_id } => TargetView::JcodeSession {
                session_id: session_id@,
            },
            ResumeTarget::ClaudeCodeSession { session_id, session_path } =>
                TargetView::ClaudeCodeSession {
                session_id: session_id@,
                session_path: session_path@,
            },
            ResumeTarget::CodexSession { session_id, session_path } => TargetView::CodexSession {
                session_id: session_id@,
                session_path: session_path@,
            },
            ResumeTarget::PiSession { session_path } => TargetView::PiSession {
                session_path: session_path@,
            },
            ResumeTarget::OpenCodeSession { session_id, session_path } =>
                TargetView::OpenCodeSession {
                session_id: session_id@,
                session_path: session_path@,
            },
        }
    }
}

/// The agent whose session is to be imported, and the name that the id of the imported session is
/// made from. A session that needs no import has none.
pub open spec fn source_of(target: TargetView) -> Option<(Agent, Seq<char>)> {
    match target {
        TargetView::JcodeSession { session_id } => None,
        TargetView::ClaudeCodeSession { session_id, session_path } => Some(
            (Agent::ClaudeCode, session_id),
        ),
        TargetView::CodexSession { session_id, session_path } => Some((Agent::Codex, session_id)),
        TargetView::PiSession { session_path } => Some((Agent::Pi, session_path)),
        TargetView::OpenCodeSession { session_id, session_path } => Some(
            (Agent::OpenCode, session_id),
        ),
    }
}

/// The agent whose session is to be imported, and the name that the id of the imported session is
/// made from. A session that needs no import has none.
pub fn import_source(target: &ResumeTarget) -> (r: Option<(Agent, String)>)
    ensures
        match r {
            Some(source) => source_of(target@) == Some((source.0, source.1@)),
            None => source_of(target@) is None,
        },
{
    match target {
        ResumeTarget::JcodeSession { .. } => None,
        ResumeTarget::ClaudeCodeSession { session_id, .. } => Some(
            (Agent::ClaudeCode, session_id.clone()),
        ),
        ResumeTarget::CodexSession { session_id, .. } => Some((Agent::Codex, session_id.clone())),
        ResumeTarget::PiSession { session_path } => Some((Agent::Pi, session_path.clone())),
        ResumeTarget::OpenCodeSession { session_id, .. } => Some(
            (Agent::OpenCode, session_id.clone()),
        ),
    }
}

/// The id under which a session is resumed, where `imported_id` is the one that is made from the
/// name of its source.
pub open spec fn resumed_id(target: TargetView, imported_id: Seq<char>) -> Seq<char> {
    match target {
        TargetView::JcodeSession { session_id } => session_id,
        _ => imported_id,
    }
}

/// The id under which a session is resumed, where `imported_id` is the one that is made from the
/// name of its source.
pub fn imported_session_id_for_target(target: &ResumeTarget, imported_id: &str) -> (r: Option<
    String,
>)
    ensures
        r.deep_view() == Some(resumed_id(target@, imported_id@)),
{
    match target {
        ResumeTarget::JcodeSession { session_id } => Some(session_id.clone()),
        _ => Some(imported_id.to_owned()),
    }
}

/// The target after its import, where `imported_id` is the id that is made from the name of its
/// source.
pub fn resolve_resume_target_to_jcode(target: &ResumeTarget, imported_id: &str) -> (r: ResumeTarget)
    ensures
        r@ == (TargetView::JcodeSession { session_id: resumed_id(target@, imported_id@) }),
{
    match target {
        ResumeTarget::JcodeSession { session_id } => ResumeTarget::JcodeSession {
            session_id: session_id.clone(),
        },
        _ => ResumeTarget::JcodeSession { session_id: imported_id.to_owned() },
    }
}

/// The session of `Agent::ClaudeCode` to import under an id. `exists` tells of each session whether
/// its transcript is there.
pub fn import_session(
    sessions: &Vec<ClaudeCodeSessionInfo>,
    exists: &Vec<bool>,
    session_id: &str,
) -> (r: Result<ResumeTarget, ImportError>)
    requires
        exists@.len() == sessions@.len(),
    ensures
        match listing::session_path(sessions.deep_view(), exists@, session_id@) {
            Some(session_path) => r matches Ok(target) && target@ == (
            TargetView::ClaudeCodeSession { session_id: session_id@, session_path }),
            None => r == Err::<ResumeTarget, _>(ImportError::NotFound(Agent::ClaudeCode)),
        },
{
    match find_session_file(sessions, exists, session_id) {
        Ok(session_path) => Ok(
            ResumeTarget::ClaudeCodeSession { session_id: session_id.to_owned(), session_path },
        ),
        Err(error) => Err(error),
    }
}

/// The Codex session to import under an id. The head of a file is its first line.
pub fn import_codex_session(files: &Vec<SessionFile>, session_id: &str) -> (r: Result<
    ResumeTarget,
    ImportError,
>)
    ensures
        match codex::codex_path(files@, session_id@) {
            Some(session_path) => r matches Ok(target) && target@ == (TargetView::CodexSession {
                session_id: session_id@,
                session_path,
            }),
            None => r == Err::<ResumeTarget, _>(ImportError::NotFound(Agent::Codex)),
        },
{
    match find_codex_session_file(files, session_id) {
        Ok(session_path) => Ok(
            ResumeTarget::CodexSession { session_id: session_id.to_owned(), session_path },
        ),
        Err(error) => Err(error),
    }
}

/// The OpenCode session to import under an id. The head of a file is all that it holds.
pub fn import_opencode_session(files: &Vec<SessionFile>, session_id: &str) -> (r: Result<
    ResumeTarget,
    ImportError,
>)
    ensures
        match opencode::opencode_path(files@, session_id@) {
            Some(session_path) => r matches Ok(target) && target@ == (TargetView::OpenCodeSession {
                session_id: session_id@,
                session_path,
            }),
            None => r == Err::<ResumeTarget, _>(ImportError::NotFound(Agent::OpenCode)),
        },
{
    match find_opencode_session_file(files, session_id) {
        Ok(session_path) => Ok(
            ResumeTarget::OpenCodeSession { session_id: session_id.to_owned(), session_path },
        ),
        Err(error) => Err(error),
    }
}

/// What to do next about an id that is to be resumed.
pub enum ResumeStep {
    /// Look for a session of this agent.
    Find(Agent),
    /// Import this session.
    Import(ResumeTarget),
    /// No session has the id.
    Nothing,
}

/// What is to do next about an id.
pub enum StepView {
    Find(Agent),
    Import(TargetView),
    Nothing,
}

impl View for ResumeStep {
    type V = StepView;

    open spec fn view(&self) -> StepView {
        match self {
            ResumeStep::Find(agent) => StepView::Find(*agent),
            ResumeStep::Import(target) => StepView::Import(target@),
            ResumeStep::Nothing => StepView::Nothing,
        }
    }
}

/// The agents in the order in which an id is looked for.
pub open spec fn probe_order() -> Seq<Agent> {
    seq![Agent::Codex, Agent::ClaudeCode, Agent::OpenCode, Agent::Pi]
}

/// The session of an agent that was found under an id. That of Pi is named by its path.
pub open spec fn found_target(agent: Agent, id: Seq<char>, path: Seq<char>) -> TargetView {
    match agent {
        Agent::ClaudeCode => TargetView::ClaudeCodeSession { session_id: id, session_path: path },
        Agent::Codex => TargetView::CodexSession { session_id: id, session_path: path },
        Agent::Pi => TargetView::PiSession { session_path: id },
        Agent::OpenCode => TargetView::OpenCodeSession { session_id: id, session_path: path },
    }
}

/// What to do next about an id, where `found` holds for each agent that was asked so far the path
/// that was found. The first that is found counts.
pub open spec fn resume_step(id: Seq<char>, found: Seq<Option<Seq<char>>>) -> StepView
    decreases found.len(),
{
    let agents = probe_order();
    if found.len() == 0 {
        StepView::Find(agents[0])
    } else if found.len() > agents.len() {
        resume_step(id, found.drop_last())
    } else {
        match resume_step(id, found.drop_last()) {
            StepView::Find(agent) => match found.last() {
                Some(path) => StepView::Import(found_target(agent, id, path)),
                None => if found.len() < agents.len() {
                    StepView::Find(agents[found.len() as int])
                } else {
                    StepView::Nothing
                },
            },
            step => step,
        }
    }
}

/// The session of an agent that was found under an id.
fn target_found(agent: Agent, id: &str, path: &str) -> (r: ResumeTarget)
    ensures
        r@ == found_target(agent, id@, path@),
{
    match agent {
        Agent::ClaudeCode => ResumeTarget::ClaudeCodeSession {
            session_id: id.to_owned(),
            session_path: path.to_owned(),
        },
        Agent::Codex => ResumeTarget::CodexSession {
            session_id: id.to_owned(),
            session_path: path.to_owned(),
        },
        Agent::Pi => ResumeTarget::PiSession { session_path: id.to_owned() },
        Agent::OpenCode => ResumeTarget::OpenCodeSession {
            session_id: id.to_owned(),
            session_path: path.to_owned(),
        },
    }
}

/// The agent that is asked after `asked` others.
fn agent_to_ask(asked: usize) -> (r: Option<Agent>)
    ensures
        r == if asked < probe_order().len() {
            Some(probe_order()[asked as int])
        } else {
            None
        },
{
    if asked == 0 {
        Some(Agent::Codex)
    } else if asked == 1 {
        Some(Agent::ClaudeCode)
    } else if asked == 2 {
        Some(Agent::OpenCode)
    } else if asked == 3 {
        Some(Agent::Pi)
    } else {
        None
    }
}

/// What to do next about an id, where `found` holds for each agent that was asked so far the path
/// that was found. The first that is found counts.
pub fn import_external_resume_id(resume_id: &str, found: &Vec<Option<String>>) -> (r: ResumeStep)
    ensures
        r@ == resume_step(resume_id@, found.deep_view()),
{
    let ghost all = found.deep_view();
    let mut step = ResumeStep::Find(Agent::Codex);
    for i in 0..found.len()
        invariant
            all == found.deep_view(),
            step@ == resume_step(resume_id@, all.take(i as int)),
            step matches ResumeStep::Find(agent) ==> i < probe_order().len() && agent
                == probe_order()[i as int],
    {
        assert(all.take(i + 1).drop_last() == all.take(i as int));
        assert(all.take(i + 1).last() == found@[i as int].deep_view());
        if let ResumeStep::Find(agent) = step {
            step = match &found[i] {
                Some(path) => ResumeStep::Import(target_found(agent, resume_id, path.as_str())),
                None => match agent_to_ask(i + 1) {
                    Some(next) => ResumeStep::Find(next),
                    None => ResumeStep::Nothing,
                },
            };
        }
    }
    assert(all.take(all.len() as int) == all);
    step
}

/// A target that is resolved is resolved to itself, whatever is imported.
pub proof fn resolved_target_stays(target: TargetView, imported_id: Seq<char>, other_id: Seq<char>)
    ensures
        resumed_id(
            TargetView::JcodeSession { session_id: resumed_id(target, imported_id) },
            other_id,
        ) == resumed_id(target, imported_id),
{
}

/// The first agent with a session under the id counts, whatever those after it would have.
pub proof fn first_find_counts(id: Seq<char>, found: Seq<Option<Seq<char>>>, k: int)
    requires
        0 <= k < found.len(),
        k < probe_order().len(),
        found[k] is Some,
        forall|j: int| 0 <= j < k ==> #[trigger] found[j] is None,
    ensures
        resume_step(id, found) == StepView::Import(
            found_target(probe_order()[k], id, found[k]->0),
        ),
    decreases found.len(),
{
    if found.len() == k + 1 {
        let before = found.drop_last();
        assert forall|j: int| 0 <= j < before.len() implies #[trigger] before[j] is None by {
            assert(before[j] == found[j]);
        }
        agents_are_asked_in_order(id, before);
    } else {
        assert forall|j: int| 0 <= j < k implies #[trigger] found.drop_last()[j] is None by {
            assert(found.drop_last()[j] == found[j]);
        }
        assert(found.drop_last()[k] == found[k]);
        first_find_counts(id, found.drop_last(), k);
    }
}

/// As long as nothing is found, the agents are asked in their order, each once; then there is
/// nothing to resume.
pub proof fn agents_are_asked_in_order(id: Seq<char>, found: Seq<Option<Seq<char>>>)
    requires
        forall|j: int| 0 <= j < found.len() ==> #[trigger] found[j] is None,
    ensures
        resume_step(id, found) == if found.len() < probe_order().len() {
            StepView::Find(probe_order()[found.len() as int])
        } else {
            StepView::Nothing
        },
    decreases found.len(),
{
    if found.len() > 0 {
        assert forall|j: int| 0 <= j < found.drop_last().len() implies #[trigger]
            found.drop_last()[j] is None by {
            assert(found.drop_last()[j] == found[j]);
        }
        agents_are_asked_in_order(id, found.drop_last());
        assert(found[found.len() - 1] is None);
    }
}

/// An id is looked for at Codex, `Agent::ClaudeCode`, OpenCode and Pi, in this order, and what is
/// found first is what is imported: with the id and the path that was found, and for Pi with the id
/// as the path.
pub proof fn found_session_is_imported(
    id: Seq<char>,
    found: Seq<Option<Seq<char>>>,
    k: int,
    path: Seq<char>,
)
    requires
        0 <= k < found.len(),
        k < 4,
        found[k] == Some(path),
        forall|j: int| 0 <= j < k ==> #[trigger] found[j] is None,
    ensures
        resume_step(id, found) == StepView::Import(
            if k == 0 {
                TargetView::CodexSession { session_id: id, session_path: path }
            } else if k == 1 {
                TargetView::ClaudeCodeSession { session_id: id, session_path: path }
            } else if k == 2 {
                TargetView::OpenCodeSession { session_id: id, session_path: path }
            } else {
                TargetView::PiSession { session_path: id }
            },
        ),
{
    first_find_counts(id, found, k);
}

/// As long as nothing is found, the next of the four agents is asked, and after the fourth there is
/// nothing to resume.
pub proof fn four_agents_are_asked(id: Seq<char>, found: Seq<Option<Seq<char>>>)
    requires
        forall|j: int| 0 <= j < found.len() ==> #[trigger] found[j] is None,
    ensures
        found.len() == 0 ==> resume_step(id, found) == StepView::Find(Agent::Codex),
        found.len() == 1 ==> resume_step(id, found) == StepView::Find(Agent::ClaudeCode),
        found.len() == 2 ==> resume_step(id, found) == StepView::Find(Agent::OpenCode),
        found.len() == 3 ==> resume_step(id, found) == StepView::Find(Agent::Pi),
        found.len() >= 4 ==> resume_step(id, found) == StepView::Nothing,
{
    agents_are_asked_in_order(id, found);
}

/// A session is imported from the agent that its target names, and its new id is made from its id
/// there, or from its path at Pi. A session that needs no import is resumed under its own id, and
/// any other under the new one.
pub proof fn targets_name_their_source(id: Seq<char>, path: Seq<char>, imported_id: Seq<char>)
    ensures
        ({
            let own = TargetView::JcodeSession { session_id: id };
            let claude = TargetView::ClaudeCodeSession { session_id: id, session_path: path };
            let codex = TargetView::CodexSession { session_id: id, session_path: path };
            let pi = TargetView::PiSession { session_path: path };
            let opencode = TargetView::OpenCodeSession { session_id: id, session_path: path };
            &&& source_of(own) is None && resumed_id(own, imported_id) == id
            &&& source_of(claude) == Some((Agent::ClaudeCode, id)) && resumed_id(
                claude,
                imported_id,
            ) == imported_id
            &&& source_of(codex) == Some((Agent::Codex, id)) && resumed_id(codex, imported_id)
                == imported_id
            &&& source_of(pi) == Some((Agent::Pi, path)) && resumed_id(pi, imported_id)
                == imported_id
            &&& source_of(opencode) == Some((Agent::OpenCode, id)) && resumed_id(
                opencode,
                imported_id,
            ) == imported_id
        }),
{
}

} // verus!
