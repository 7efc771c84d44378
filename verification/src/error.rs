//! Why an import fails.

use vstd::prelude::*;
use vstd::string::*;

verus! {

/// A coding agent whose sessions can be imported.
#[derive(Clone, Copy, Debug, PartialEq, Eq, Structural)]
pub enum Agent {
    ClaudeCode,
    Codex,
    Pi,
    OpenCode,
}

/// Why an import fails.
#[derive(Debug)]
pub enum ImportError {
    /// No message of a conversation is in a transcript.
    NoConversation,
    /// A transcript has no first line.
    EmptyFile(Agent),
    /// A header is not JSON.
    Json(serde_json::Error),
    /// The header of a Pi session is of another type.
    InvalidPiHeader,
    /// Neither the transcript nor the caller names the session.
    MissingId(Agent),
    /// No session has the wanted id.
    NotFound(Agent),
}

/// The message for an error about the file or session named `subject`, where `agent` is the name of
/// the agent that transcripts are expected from. An error of `serde_json` has a message of its own.
pub open spec fn error_message(
    error: ImportError,
    subject: Seq<char>,
    agent: Seq<char>,
) -> Option<Seq<char>> {
    match error {
        ImportError::NoConversation => Some(
            "no conversational messages found in "@ + subject
                + " (not a "@ + agent + " transcript?)"@,
        ),
        ImportError::EmptyFile(of) => Some(session_name(of) + " file is empty: "@ + subject),
        ImportError::Json(_) => None,
        ImportError::InvalidPiHeader => Some("Invalid Pi session header in "@ + subject),
        ImportError::MissingId(of) => Some(session_name(of) + " id missing in "@ + subject),
        ImportError::NotFound(of) => Some(session_name(of) + " "@ + subject + " not found"@),
    }
}

/// What a session of an agent is called in a message.
pub open spec fn session_name(agent: Agent) -> Seq<char> {
    match agent {
        Agent::ClaudeCode => "Session"@,
        Agent::Codex => "Codex session"@,
        Agent::Pi => "Pi session"@,
        Agent::OpenCode => "OpenCode session"@,
    }
}

/// What a session of an agent is called in a message.
pub fn session_label(agent: Agent) -> (r: String)
    ensures
        r@ == session_name(agent),
{
    match agent {
        Agent::ClaudeCode => "Session".to_owned(),
        Agent::Codex => "Codex session".to_owned(),
        Agent::Pi => "Pi session".to_owned(),
        Agent::OpenCode => "OpenCode session".to_owned(),
    }
}

impl ImportError {
    /// The message for this error about the file or session named `subject`, where `agent` is the
    /// name of the agent that transcripts are expected from. An error of `serde_json` has a message
    /// of its own.
    pub fn message(&self, subject: &str, agent: &str) -> (r: Option<String>)
        ensures
            r.deep_view() == error_message(*self, subject@, agent@),
    {
        match self {
            ImportError::NoConversation => Some(
                "no conversational messages found in ".to_owned().concat(subject).concat(
                    " (not a ",
                ).concat(agent).concat(" transcript?)"),
            ),
            ImportError::EmptyFile(of) => Some(
                session_label(*of).concat(" file is empty: ").concat(subject),
            ),
            ImportError::Json(_) => None,
            ImportError::InvalidPiHeader => Some(
                "Invalid Pi session header in ".to_owned().concat(subject),
            ),
            ImportError::MissingId(of) => Some(
                session_label(*of).concat(" id missing in ").concat(subject),
            ),
            ImportError::NotFound(of) => Some(
                session_label(*of).concat(" ").concat(subject).concat(" not found"),
            ),
        }
    }
}

/// What the messages for errors say, for every agent.
pub proof fn messages_name_what_is_wrong(
    agent: Agent,
    subject: Seq<char>,
    name: Seq<char>,
    error: serde_json::Error,
)
    ensures
        ({
            let session = match agent {
                Agent::ClaudeCode => "Session"@,
                Agent::Codex => "Codex session"@,
                Agent::Pi => "Pi session"@,
                Agent::OpenCode => "OpenCode session"@,
            };
            &&& error_message(ImportError::NoConversation, subject, name) == Some(
                "no conversational messages found in "@ + subject + " (not a "@ + name
                    + " transcript?)"@,
            )
            &&& error_message(ImportError::EmptyFile(agent), subject, name) == Some(
                session + " file is empty: "@ + subject,
            )
            &&& error_message(ImportError::Json(error), subject, name) is None
            &&& error_message(ImportError::InvalidPiHeader, subject, name) == Some(
                "Invalid Pi session header in "@ + subject,
            )
            &&& error_message(ImportError::MissingId(agent), subject, name) == Some(
                session + " id missing in "@ + subject,
            )
            &&& error_message(ImportError::NotFound(agent), subject, name) == Some(
                session + " "@ + subject + " not found"@,
            )
        }),
{
}

} // verus!
