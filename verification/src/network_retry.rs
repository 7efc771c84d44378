//! What to do about an interrupted network connection.

use crate::text;
use vstd::prelude::*;
use vstd::string::*;

verus! {

/// The texts in the lower-case message of an error that tell of a dropped network connection.
pub open spec fn network_markers() -> Seq<Seq<char>> {
    seq![
        "connection reset"@,
        "connection aborted"@,
        "connection refused"@,
        "broken pipe"@,
        "network is unreachable"@,
        "network unreachable"@,
        "host is down"@,
        "no route to host"@,
        "not connected"@,
        "dns error"@,
        "failed to lookup address"@,
        "temporary failure in name resolution"@,
        "name or service not known"@,
        "could not resolve host"@,
        "couldn't resolve host"@,
        "host is unreachable"@,
        "operation timed out"@,
        "timed out"@,
        "timeout"@,
        "error trying to connect"@,
        "connection closed before message completed"@,
        "unexpected eof"@,
        "end of file before message completed"@,
    ]
}

/// The addresses at which a local Ollama server listens by default.
pub open spec fn ollama_local_markers() -> Seq<Seq<char>> {
    seq!["127.0.0.1:11434"@, "localhost:11434"@]
}

/// Whether one of `markers` is in `s`.
pub open spec fn has_any(s: Seq<char>, markers: Seq<Seq<char>>) -> bool {
    exists|i: int| 0 <= i < markers.len() && text::has_text(s, #[trigger] markers[i])
}

/// Whether one of `markers` is in `s`.
fn contains_any(s: &str, markers: &Vec<&str>) -> (r: bool)
    ensures
        r == has_any(s@, Seq::new(markers@.len(), |i: int| markers@[i]@)),
{
    let ghost views = Seq::new(markers@.len(), |i: int| markers@[i]@);
    for i in 0..markers.len()
        invariant
            views == Seq::new(markers@.len(), |i: int| markers@[i]@),
            forall|j: int| 0 <= j < i ==> !text::has_text(s@, #[trigger] views[j]),
    {
        assert(views[i as int] == markers@[i as int]@);
        if text::contains(s, markers[i]) {
            return true;
        }
    }
    false
}

/// The reason that is given for an error with a lower-case message, if it tells of a dropped
/// network connection.
pub open spec fn interruption(lower: Seq<char>) -> Option<Seq<char>> {
    if has_any(lower, network_markers()) {
        Some("the network connection appears to have dropped"@)
    } else {
        None
    }
}

/// The reason that is given for an error with a lower-case message, if it tells of a dropped
/// network connection.
pub fn classify_text(lower: &str) -> (r: Option<String>)
    ensures
        r.deep_view() == interruption(lower@),
{
    let markers: Vec<&str> = vec![
        "connection reset",
        "connection aborted",
        "connection refused",
        "broken pipe",
        "network is unreachable",
        "network unreachable",
        "host is down",
        "no route to host",
        "not connected",
        "dns error",
        "failed to lookup address",
        "temporary failure in name resolution",
        "name or service not known",
        "could not resolve host",
        "couldn't resolve host",
        "host is unreachable",
        "operation timed out",
        "timed out",
        "timeout",
        "error trying to connect",
        "connection closed before message completed",
        "unexpected eof",
        "end of file before message completed",
    ];
    assert(Seq::new(markers@.len(), |i: int| markers@[i]@) =~= network_markers());
    if contains_any(lower, &markers) {
        Some("the network connection appears to have dropped".to_owned())
    } else {
        None
    }
}

/// The messages of an error and its causes in lower case.
pub open spec fn lowered_chain(chain: Seq<Seq<char>>) -> Seq<Seq<char>> {
    Seq::new(chain.len(), |i: int| text::lowered(chain[i]))
}

/// The messages of an error and its causes as one text in lower case.
pub open spec fn chain_text(chain: Seq<Seq<char>>) -> Seq<char> {
    text::joined(lowered_chain(chain), " | "@)
}

/// The messages of an error and its causes as one text in lower case.
fn join_chain(chain: &Vec<String>) -> (r: String)
    ensures
        r@ == chain_text(chain.deep_view()),
{
    let mut parts: Vec<String> = Vec::new();
    for i in 0..chain.len()
        invariant
            parts@.len() == i,
            forall|j: int| 0 <= j < i ==> (#[trigger] parts@[j])@ == text::lowered(chain@[j]@),
    {
        parts.push(text::to_ascii_lowercase(chain[i].as_str()));
    }
    assert(parts.deep_view() =~= lowered_chain(chain.deep_view()));
    text::join(&parts, " | ")
}

/// The reason that is given for an error, if it or one of its causes tells of a dropped network
/// connection. `chain` is the message of the error and those of its causes.
pub fn classify_network_interruption(chain: &Vec<String>) -> (r: Option<String>)
    ensures
        r.deep_view() == interruption(chain_text(chain.deep_view())),
{
    let lower = join_chain(chain);
    classify_text(lower.as_str())
}

/// The reason that is given for an error with a message, if the message tells of a dropped network
/// connection.
pub fn classify_message(message: &str) -> (r: Option<String>)
    ensures
        r.deep_view() == interruption(text::lowered(message@)),
{
    let lower = text::to_ascii_lowercase(message);
    classify_text(lower.as_str())
}

/// Whether the lower-case message of an error tells that a local Ollama server is down: the request
/// went to its port and was refused.
pub open spec fn is_local_outage(lower: Seq<char>) -> bool {
    text::has_text(lower, "connection refused"@) && has_any(lower, ollama_local_markers())
}

/// Whether the lower-case message of an error tells that a local Ollama server is down.
pub fn is_local_ollama_outage_text(lower: &str) -> (r: bool)
    ensures
        r == is_local_outage(lower@),
{
    let markers: Vec<&str> = vec!["127.0.0.1:11434", "localhost:11434"];
    assert(Seq::new(markers@.len(), |i: int| markers@[i]@) =~= ollama_local_markers());
    text::contains(lower, "connection refused") && contains_any(lower, &markers)
}

/// Whether an error tells that a local Ollama server is down. `chain` is the message of the error
/// and those of its causes.
pub fn is_local_ollama_outage_error(chain: &Vec<String>) -> (r: bool)
    ensures
        r == is_local_outage(chain_text(chain.deep_view())),
{
    let lower = join_chain(chain);
    is_local_ollama_outage_text(lower.as_str())
}

/// Whether the message of an error tells that a local Ollama server is down.
pub fn is_local_ollama_outage_message(message: &str) -> (r: bool)
    ensures
        r == is_local_outage(text::lowered(message@)),
{
    let lower = text::to_ascii_lowercase(message);
    is_local_ollama_outage_text(lower.as_str())
}

/// A kind of operating system.
#[derive(Clone, Copy, Debug, PartialEq, Eq, Structural)]
pub enum Platform {
    Linux,
    MacOs,
    Other,
}

/// What is told while the network is waited for.
#[derive(Clone, Debug, PartialEq, Eq)]
pub struct NetworkWaitPlan {
    pub reason: String,
    pub listener_summary: String,
}

/// How a change of the network is noticed.
pub open spec fn listener_summary_on(platform: Platform) -> Seq<char> {
    match platform {
        Platform::Linux =>
            "listening for Linux netlink changes via `ip monitor`; also verifying with reconnect probes"@,
        Platform::MacOs =>
            "listening for macOS route/interface changes via `route -n monitor`; also verifying with reconnect probes"@,
        Platform::Other => "waiting with lightweight reconnect probes"@,
    }
}

/// What is told while the network is waited for.
pub fn wait_plan(platform: Platform) -> (r: NetworkWaitPlan)
    ensures
        r.reason@ == "stream interrupted by a likely network disconnect"@,
        r.listener_summary@ == listener_summary_on(platform),
{
    let listener_summary = match platform {
        Platform::Linux =>
            "listening for Linux netlink changes via `ip monitor`; also verifying with reconnect probes",
        Platform::MacOs =>
            "listening for macOS route/interface changes via `route -n monitor`; also verifying with reconnect probes",
        Platform::Other => "waiting with lightweight reconnect probes",
    };
    NetworkWaitPlan {
        reason: "stream interrupted by a likely network disconnect".to_owned(),
        listener_summary: listener_summary.to_owned(),
    }
}

/// The words of the command that reports changes of the network.
pub open spec fn listener_words(platform: Platform) -> Option<Seq<Seq<char>>> {
    match platform {
        Platform::Linux => Some(seq!["ip"@, "monitor"@, "link"@, "address"@, "route"@]),
        Platform::MacOs => Some(seq!["route"@, "-n"@, "monitor"@]),
        Platform::Other => None,
    }
}

/// A command with its arguments.
pub struct Listener {
    pub program: String,
    pub args: Vec<String>,
}

impl View for Listener {
    type V = Seq<Seq<char>>;

    open spec fn view(&self) -> Seq<Seq<char>> {
        seq![self.program@] + self.args.deep_view()
    }
}

/// The command that reports changes of the network.
pub fn change_listener(platform: Platform) -> (r: Option<Listener>)
    ensures
        match r {
            Some(listener) => listener_words(platform) == Some(listener@),
            None => listener_words(platform) is None,
        },
{
    match platform {
        Platform::Linux => {
            let listener = Listener {
                program: "ip".to_owned(),
                args: vec![
                    "monitor".to_owned(),
                    "link".to_owned(),
                    "address".to_owned(),
                    "route".to_owned(),
                ],
            };
            assert(listener@ =~= seq!["ip"@, "monitor"@, "link"@, "address"@, "route"@]);
            Some(listener)
        },
        Platform::MacOs => {
            let listener = Listener {
                program: "route".to_owned(),
                args: vec!["-n".to_owned(), "monitor".to_owned()],
            };
            assert(listener@ =~= seq!["route"@, "-n"@, "monitor"@]);
            Some(listener)
        },
        Platform::Other => None,
    }
}

/// A text with each single quote closed, escaped and opened again.
pub open spec fn escaped(value: Seq<char>) -> Seq<char> {
    text::replaced(value, "'"@, "'\\''"@)
}

/// A text with each single quote closed, escaped and opened again.
pub fn shell_escape(value: &str) -> (r: String)
    ensures
        r@ == escaped(value@),
{
    proof {
        reveal_strlit("'");
    }
    text::replace(value, "'", "'\\''")
}

/// The shell script that succeeds if a command exists.
pub fn command_check(command: &str) -> (r: String)
    ensures
        r@ == "command -v "@ + escaped(command@) + " >/dev/null 2>&1"@,
{
    let name = shell_escape(command);
    "command -v ".to_owned().concat(name.as_str()).concat(" >/dev/null 2>&1")
}

/// The number of times that a server is asked, a second apart, whether it is up.
pub const REVIVE_POLLS: u32 = 20;

/// What to do next to revive a local Ollama server.
#[derive(Clone, Copy, Debug, PartialEq, Eq, Structural)]
pub enum ReviveStep {
    /// Ask whether the port of the server is open.
    CheckPort,
    /// Ask whether the command of the server exists.
    FindCommand,
    /// Start the server, and ask whether that worked.
    Spawn,
    /// Wait for a second and ask whether the port is open, for the time after so many others.
    Poll(u32),
    /// The server is up, or it could not be revived.
    Done(bool),
}

/// The step after one that is answered with yes or no.
pub open spec fn revive_step_after(step: ReviveStep, yes: bool) -> ReviveStep {
    match step {
        ReviveStep::CheckPort => if yes {
            ReviveStep::Done(true)
        } else {
            ReviveStep::FindCommand
        },
        ReviveStep::FindCommand => if yes {
            ReviveStep::Spawn
        } else {
            ReviveStep::Done(false)
        },
        ReviveStep::Spawn => if yes {
            ReviveStep::Poll(0)
        } else {
            ReviveStep::Done(false)
        },
        ReviveStep::Poll(polls) => if yes {
            ReviveStep::Done(true)
        } else if polls + 1 < REVIVE_POLLS {
            ReviveStep::Poll((polls + 1) as u32)
        } else {
            ReviveStep::Done(false)
        },
        ReviveStep::Done(up) => step,
    }
}

/// The step after one that is answered with yes or no. The first step is to check the port.
pub fn try_revive_local_ollama(step: ReviveStep, yes: bool) -> (r: ReviveStep)
    ensures
        r == revive_step_after(step, yes),
{
    match step {
        ReviveStep::CheckPort => if yes {
            ReviveStep::Done(true)
        } else {
            ReviveStep::FindCommand
        },
        ReviveStep::FindCommand => if yes {
            ReviveStep::Spawn
        } else {
            ReviveStep::Done(false)
        },
        ReviveStep::Spawn => if yes {
            ReviveStep::Poll(0)
        } else {
            ReviveStep::Done(false)
        },
        ReviveStep::Poll(polls) => if yes {
            ReviveStep::Done(true)
        } else if polls < REVIVE_POLLS - 1 {
            ReviveStep::Poll(polls + 1)
        } else {
            ReviveStep::Done(false)
        },
        ReviveStep::Done(_) => step,
    }
}

/// The step after all of `answers`.
pub open spec fn revive_run(answers: Seq<bool>) -> ReviveStep
    decreases answers.len(),
{
    if answers.len() == 0 {
        ReviveStep::CheckPort
    } else {
        revive_step_after(revive_run(answers.drop_last()), answers.last())
    }
}

/// The longest delay between two probes of the network, in seconds.
pub const MAX_DELAY_SECS: u64 = 30;

/// A wait for the network. It starts with a delay of a second, which doubles up to
/// `MAX_DELAY_SECS`.
pub struct OnlineWait {
    delay_secs: u64,
}

/// The delay after another, in seconds.
pub open spec fn delay_after(delay_secs: u64) -> u64 {
    if 2 * delay_secs < MAX_DELAY_SECS {
        (2 * delay_secs) as u64
    } else {
        MAX_DELAY_SECS
    }
}

impl OnlineWait {
    /// The delay before the next probe, in seconds.
    pub closed spec fn delay(&self) -> u64 {
        self.delay_secs
    }

    /// A wait that begins.
    pub fn new() -> (r: OnlineWait)
        ensures
            r.delay() == 1,
    {
        OnlineWait { delay_secs: 1 }
    }
}

/// What to do after a probe: nothing more if the network is there, else to wait for so many seconds
/// and probe again.
pub fn wait_until_probably_online(wait: &mut OnlineWait, online: bool) -> (r: Option<u64>)
    ensures
        r == if online {
            None
        } else {
            Some(old(wait).delay())
        },
        final(wait).delay() == if online {
            old(wait).delay()
        } else {
            delay_after(old(wait).delay())
        },
{
    if online {
        return None;
    }
    let delay = wait.delay_secs;
    wait.delay_secs = if delay < MAX_DELAY_SECS / 2 {
        delay * 2
    } else {
        MAX_DELAY_SECS
    };
    Some(delay)
}

/// Whether the answer to a probe shows that the network is there: it is one of success. `status` is
/// `None` where no answer came.
pub fn is_probably_online(status: Option<u16>) -> (r: bool)
    ensures
        r == (status matches Some(code) && 200 <= code < 300),
{
    match status {
        Some(code) => 200 <= code && code < 300,
        None => false,
    }
}

/// A local Ollama server that is down is an interruption of the network, too.
pub proof fn local_outage_is_interruption(lower: Seq<char>)
    requires
        is_local_outage(lower),
    ensures
        interruption(lower) is Some,
{
    assert(network_markers()[2] == "connection refused"@);
    assert(has_any(lower, network_markers()));
}

/// Neither answer depends on the case of the letters in a message: two messages that differ in
/// nothing else get the same ones.
pub proof fn case_does_not_matter(a: Seq<char>, b: Seq<char>)
    requires
        text::lowered(a) == text::lowered(b),
    ensures
        interruption(text::lowered(a)) == interruption(text::lowered(b)),
        is_local_outage(text::lowered(a)) == is_local_outage(text::lowered(b)),
{
}

/// Two texts in a row in lower case.
proof fn lemma_lowered_concat(a: Seq<char>, b: Seq<char>)
    ensures
        text::lowered(a + b) == text::lowered(a) + text::lowered(b),
{
    assert(text::lowered(a + b) =~= text::lowered(a) + text::lowered(b));
}

/// An error with causes is judged as one message is that joins their messages.
pub proof fn chain_is_judged_as_message(chain: Seq<Seq<char>>)
    ensures
        chain_text(chain) == text::lowered(text::joined(chain, " | "@)),
    decreases chain.len(),
{
    reveal_strlit(" | ");
    if chain.len() == 0 {
        assert(text::lowered(Seq::<char>::empty()) =~= Seq::<char>::empty());
    } else if chain.len() == 1 {
        assert(lowered_chain(chain).last() == text::lowered(chain.last()));
    } else {
        let rest = chain.drop_last();
        chain_is_judged_as_message(rest);
        assert(lowered_chain(chain).drop_last() =~= lowered_chain(rest));
        assert(text::lowered(" | "@) =~= " | "@);
        lemma_lowered_concat(text::joined(rest, " | "@) + " | "@, chain.last());
        lemma_lowered_concat(text::joined(rest, " | "@), " | "@);
    }
}

/// Every part stands in the joined text.
proof fn lemma_joined_has_part(parts: Seq<Seq<char>>, separator: Seq<char>, i: int)
    requires
        0 <= i < parts.len(),
    ensures
        text::has_text(text::joined(parts, separator), parts[i]),
    decreases parts.len(),
{
    let last = parts.last();
    if parts.len() == 1 {
        text::lemma_has_itself(last);
    } else {
        let before = text::joined(parts.drop_last(), separator);
        if i == parts.len() - 1 {
            text::lemma_has_itself(last);
            text::lemma_has_text_around(before + separator, last, Seq::empty(), last);
            assert(before + separator + last + Seq::empty() == before + separator + last);
        } else {
            lemma_joined_has_part(parts.drop_last(), separator, i);
            assert(parts.drop_last()[i] == parts[i]);
            text::lemma_has_text_around(Seq::empty(), before, separator + last, parts[i]);
            assert(Seq::empty() + before + (separator + last) == before + separator + last);
        }
    }
}

/// What stands in a text that stands in another stands in the other.
proof fn lemma_has_text_within(s: Seq<char>, part: Seq<char>, pattern: Seq<char>)
    requires
        text::has_text(s, part),
        text::has_text(part, pattern),
    ensures
        text::has_text(s, pattern),
{
    let i = choose|i: int| text::occurs_at(s, part, i);
    let before = s.take(i);
    let after = s.skip(i + part.len());
    assert(before + part + after == s);
    text::lemma_has_text_around(before, part, after, pattern);
}

/// An error whose message or one of whose causes alone tells of a dropped network connection does.
pub proof fn any_cause_suffices(chain: Seq<Seq<char>>, i: int)
    requires
        0 <= i < chain.len(),
        interruption(text::lowered(chain[i])) is Some,
    ensures
        interruption(chain_text(chain)) is Some,
{
    let parts = lowered_chain(chain);
    let k = choose|k: int|
        0 <= k < network_markers().len() && text::has_text(
            parts[i],
            #[trigger] network_markers()[k],
        );
    lemma_joined_has_part(parts, " | "@, i);
    lemma_has_text_within(chain_text(chain), parts[i], network_markers()[k]);
}

/// Whether a marker is not empty, does not begin or end with a space and holds no bar.
spec fn is_marker(marker: Seq<char>) -> bool {
    &&& marker.len() > 0
    &&& marker.first() != ' '
    &&& marker.last() != ' '
    &&& !marker.contains('|')
}

/// Every marker is of that kind.
proof fn lemma_markers(k: int)
    requires
        0 <= k < network_markers().len(),
    ensures
        is_marker(network_markers()[k]),
{
    reveal_strlit("connection reset");
    reveal_strlit("connection aborted");
    reveal_strlit("connection refused");
    reveal_strlit("broken pipe");
    reveal_strlit("network is unreachable");
    reveal_strlit("network unreachable");
    reveal_strlit("host is down");
    reveal_strlit("no route to host");
    reveal_strlit("not connected");
    reveal_strlit("dns error");
    reveal_strlit("failed to lookup address");
    reveal_strlit("temporary failure in name resolution");
    reveal_strlit("name or service not known");
    reveal_strlit("could not resolve host");
    reveal_strlit("couldn't resolve host");
    reveal_strlit("host is unreachable");
    reveal_strlit("operation timed out");
    reveal_strlit("timed out");
    reveal_strlit("timeout");
    reveal_strlit("error trying to connect");
    reveal_strlit("connection closed before message completed");
    reveal_strlit("unexpected eof");
    reveal_strlit("end of file before message completed");
}

/// A marker in a joined text stands in one of the parts, not across two of them.
proof fn lemma_joined_marker(parts: Seq<Seq<char>>, marker: Seq<char>)
    requires
        is_marker(marker),
        text::has_text(text::joined(parts, " | "@), marker),
    ensures
        exists|i: int| 0 <= i < parts.len() && text::has_text(#[trigger] parts[i], marker),
    decreases parts.len(),
{
    let whole = text::joined(parts, " | "@);
    let at = choose|at: int| text::occurs_at(whole, marker, at);
    let end = at + marker.len();
    if parts.len() == 1 {
        assert(text::has_text(parts[0], marker));
    } else if parts.len() > 1 {
        let before = text::joined(parts.drop_last(), " | "@);
        let last = parts.last();
        let gap = before.len() as int;
        let from = gap + 3;
        reveal_strlit(" | ");
        assert(" | "@.len() == 3);
        assert(whole == before + " | "@ + last);
        assert(whole[gap] == ' ');
        assert(whole[gap + 1] == '|');
        assert(whole[gap + 2] == ' ');
        assert forall|j: int| at <= j < end implies whole[j] == #[trigger] marker[j - at] by {
            assert(whole.subrange(at, end)[j - at] == whole[j]);
        }
        if end <= gap {
            assert(before.subrange(at, end) == whole.subrange(at, end));
            assert(text::occurs_at(before, marker, at));
            lemma_joined_marker(parts.drop_last(), marker);
            let i = choose|i: int|
                0 <= i < parts.drop_last().len() && text::has_text(
                    #[trigger] parts.drop_last()[i],
                    marker,
                );
            assert(text::has_text(parts[i], marker));
        } else if at >= from {
            assert(last.subrange(at - from, end - from) == whole.subrange(at, end));
            assert(text::occurs_at(last, marker, at - from));
            assert(text::has_text(parts[parts.len() - 1], marker));
        } else {
            assert(whole[at] == marker[0]);
            assert(whole[end - 1] == marker[marker.len() - 1]);
            if at <= gap + 1 < end {
                assert(marker[gap + 1 - at] == '|');
                assert(marker.contains('|'));
            }
            assert(false);
        }
    }
}

/// An error tells of a dropped network connection if and only if its message or that of one of its
/// causes does alone: no text counts that only their joining makes.
pub proof fn chain_is_judged_by_its_links(chain: Seq<Seq<char>>)
    ensures
        interruption(chain_text(chain)) is Some <==> exists|i: int|
            0 <= i < chain.len() && interruption(text::lowered(#[trigger] chain[i])) is Some,
{
    let parts = lowered_chain(chain);
    if interruption(chain_text(chain)) is Some {
        let k = choose|k: int|
            0 <= k < network_markers().len() && text::has_text(
                chain_text(chain),
                #[trigger] network_markers()[k],
            );
        lemma_markers(k);
        lemma_joined_marker(parts, network_markers()[k]);
        let i = choose|i: int|
            0 <= i < parts.len() && text::has_text(#[trigger] parts[i], network_markers()[k]);
        assert(parts[i] == text::lowered(chain[i]));
        assert(has_any(text::lowered(chain[i]), network_markers()));
    }
    if exists|i: int|
        0 <= i < chain.len() && interruption(text::lowered(#[trigger] chain[i])) is Some {
        let i = choose|i: int|
            0 <= i < chain.len() && interruption(text::lowered(#[trigger] chain[i])) is Some;
        any_cause_suffices(chain, i);
    }
}

/// A text without single quotes needs no escaping.
pub proof fn plain_text_is_not_escaped(value: Seq<char>)
    requires
        !value.contains('\''),
    ensures
        escaped(value) == value,
{
    reveal_strlit("'");
    if text::has_text(value, "'"@) {
        let i = choose|i: int| text::occurs_at(value, "'"@, i);
        assert(value.subrange(i, i + 1)[0] == value[i]);
        assert(value.contains(value[i]));
    }
    text::replaced_without_pattern(value, "'"@, "'\\''"@);
}

/// Whether a step is the one after so many answers, none of which ended the run.
spec fn is_step_at(step: ReviveStep, answers: nat) -> bool {
    match step {
        ReviveStep::CheckPort => answers == 0,
        ReviveStep::FindCommand => answers == 1,
        ReviveStep::Spawn => answers == 2,
        ReviveStep::Poll(polls) => answers == 3 + polls && polls < REVIVE_POLLS,
        ReviveStep::Done(_) => true,
    }
}

/// The steps of a run come in their order.
proof fn lemma_steps_in_order(answers: Seq<bool>)
    ensures
        is_step_at(revive_run(answers), answers.len()),
    decreases answers.len(),
{
    if answers.len() > 0 {
        lemma_steps_in_order(answers.drop_last());
    }
}

/// A run is over after the port was checked, the command was looked for and started, and the port
/// was polled `REVIVE_POLLS` times.
pub proof fn revival_ends(answers: Seq<bool>)
    requires
        answers.len() >= 3 + REVIVE_POLLS,
    ensures
        revive_run(answers) is Done,
{
    lemma_steps_in_order(answers);
}

/// A server is only started where its port was closed and its command exists.
pub proof fn spawns_only_when_needed(answers: Seq<bool>)
    requires
        revive_run(answers) is Spawn,
    ensures
        answers == seq![false, true],
{
    lemma_steps_in_order(answers);
    lemma_steps_in_order(answers.drop_last());
    lemma_steps_in_order(answers.drop_last().drop_last());
    assert(answers.len() == 2);
    assert(answers.drop_last().last() == answers[0]);
    assert(revive_run(answers.drop_last()) is FindCommand);
    assert(answers =~= seq![false, true]);
}

/// Whether one of the polls that `answers` reach found the port open.
pub open spec fn polled_open(answers: Seq<bool>) -> bool {
    exists|k: int| 3 <= k < answers.len() && k < 3 + REVIVE_POLLS && #[trigger] answers[k]
}

/// Where a run is after the server was started.
proof fn lemma_run_after_spawn(answers: Seq<bool>)
    requires
        answers.len() >= 3,
        !answers[0] && answers[1] && answers[2],
    ensures
        revive_run(answers) == if polled_open(answers) {
            ReviveStep::Done(true)
        } else if answers.len() < 3 + REVIVE_POLLS {
            ReviveStep::Poll((answers.len() - 3) as u32)
        } else {
            ReviveStep::Done(false)
        },
    decreases answers.len(),
{
    let before = answers.drop_last();
    if answers.len() == 3 {
        reveal_with_fuel(revive_run, 4);
        assert(before.last() == answers[1]);
        assert(before.drop_last().last() == answers[0]);
    } else {
        lemma_run_after_spawn(before);
        let last = answers.len() - 1;
        assert(answers.last() == answers[last]);
        if polled_open(before) {
            let k = choose|k: int|
                3 <= k < before.len() && k < 3 + REVIVE_POLLS && #[trigger] before[k];
            assert(answers[k]);
        } else if polled_open(answers) {
            let k = choose|k: int|
                3 <= k < answers.len() && k < 3 + REVIVE_POLLS && #[trigger] answers[k];
            if k < last {
                assert(before[k]);
            }
        }
    }
}

/// After the server was started, a run succeeds if and only if one of the `REVIVE_POLLS` polls
/// finds the port open.
pub proof fn started_server_is_up_when_polled_open(answers: Seq<bool>)
    requires
        answers.len() >= 3,
        !answers[0] && answers[1] && answers[2],
    ensures
        revive_run(answers) == ReviveStep::Done(true) <==> polled_open(answers),
{
    lemma_run_after_spawn(answers);
}

/// A run that is over stays as it ended.
proof fn lemma_done_stays(answers: Seq<bool>, n: int)
    requires
        0 <= n <= answers.len(),
        revive_run(answers.take(n)) is Done,
    ensures
        revive_run(answers) == revive_run(answers.take(n)),
    decreases answers.len(),
{
    if n == answers.len() {
        assert(answers.take(n) == answers);
    } else {
        assert(answers.drop_last().take(n) == answers.take(n));
        lemma_done_stays(answers.drop_last(), n);
    }
}

/// A run succeeds if and only if the port was open at first, or the server was started and a poll
/// found the port open.
pub proof fn revived_means_port_open(answers: Seq<bool>)
    ensures
        revive_run(answers) == ReviveStep::Done(true) <==> (answers.len() > 0 && answers[0]) || (
        answers.len() >= 3 && answers[1] && answers[2] && polled_open(answers)),
{
    reveal_with_fuel(revive_run, 4);
    if answers.len() > 0 {
        assert(answers.take(1).drop_last() == Seq::<bool>::empty());
        assert(answers.take(1).last() == answers[0]);
        if answers[0] {
            lemma_done_stays(answers, 1);
        } else if answers.len() > 1 {
            assert(answers.take(2).drop_last() == answers.take(1));
            assert(answers.take(2).last() == answers[1]);
            if !answers[1] {
                lemma_done_stays(answers, 2);
            } else if answers.len() > 2 {
                assert(answers.take(3).drop_last() == answers.take(2));
                assert(answers.take(3).last() == answers[2]);
                if !answers[2] {
                    lemma_done_stays(answers, 3);
                } else {
                    lemma_run_after_spawn(answers);
                }
            } else {
                assert(answers.take(2) == answers);
            }
        } else {
            assert(answers.take(1) == answers);
        }
    }
}

/// The delay before probe number `probe`, the first being number 0.
pub open spec fn delay_at(probe: nat) -> u64
    decreases probe,
{
    if probe == 0 {
        1
    } else {
        delay_after(delay_at((probe - 1) as nat))
    }
}

/// The delays are 1, 2, 4, 8 and 16 seconds, and then `MAX_DELAY_SECS`.
pub proof fn delays_double_up_to_limit(probe: nat)
    ensures
        1 <= delay_at(probe) <= MAX_DELAY_SECS,
        probe < 5 ==> delay_at(probe) == vstd::arithmetic::power2::pow2(probe),
        probe >= 5 ==> delay_at(probe) == MAX_DELAY_SECS,
    decreases probe,
{
    vstd::arithmetic::power2::lemma2_to64();
    if probe > 0 {
        delays_double_up_to_limit((probe - 1) as nat);
        vstd::arithmetic::power2::lemma_pow2_unfold(probe);
    }
}

/// A lower-case message tells of a dropped network connection if and only if it holds one of these
/// texts, and the reason that is given is always the same.
pub proof fn interruptions_by_text(lower: Seq<char>)
    ensures
        interruption(lower) is Some <==> (text::has_text(lower, "connection reset"@)
            || text::has_text(lower, "connection aborted"@) || text::has_text(
            lower,
            "connection refused"@,
        ) || text::has_text(lower, "broken pipe"@) || text::has_text(
            lower,
            "network is unreachable"@,
        ) || text::has_text(lower, "network unreachable"@) || text::has_text(
            lower,
            "host is down"@,
        ) || text::has_text(lower, "no route to host"@) || text::has_text(lower, "not connected"@)
            || text::has_text(lower, "dns error"@) || text::has_text(
            lower,
            "failed to lookup address"@,
        ) || text::has_text(lower, "temporary failure in name resolution"@) || text::has_text(
            lower,
            "name or service not known"@,
        ) || text::has_text(lower, "could not resolve host"@) || text::has_text(
            lower,
            "couldn't resolve host"@,
        ) || text::has_text(lower, "host is unreachable"@) || text::has_text(
            lower,
            "operation timed out"@,
        ) || text::has_text(lower, "timed out"@) || text::has_text(lower, "timeout"@)
            || text::has_text(lower, "error trying to connect"@) || text::has_text(
            lower,
            "connection closed before message completed"@,
        ) || text::has_text(lower, "unexpected eof"@) || text::has_text(
            lower,
            "end of file before message completed"@,
        )),
        interruption(lower) matches Some(reason) ==> reason
            == "the network connection appears to have dropped"@,
{
    let markers = network_markers();
    assert(markers.len() == 23);
    assert(markers[0] == "connection reset"@ && markers[1] == "connection aborted"@ && markers[2]
        == "connection refused"@ && markers[3] == "broken pipe"@ && markers[4]
        == "network is unreachable"@ && markers[5] == "network unreachable"@ && markers[6]
        == "host is down"@ && markers[7] == "no route to host"@ && markers[8] == "not connected"@
        && markers[9] == "dns error"@ && markers[10] == "failed to lookup address"@ && markers[11]
        == "temporary failure in name resolution"@ && markers[12] == "name or service not known"@
        && markers[13] == "could not resolve host"@ && markers[14] == "couldn't resolve host"@
        && markers[15] == "host is unreachable"@ && markers[16] == "operation timed out"@
        && markers[17] == "timed out"@ && markers[18] == "timeout"@ && markers[19]
        == "error trying to connect"@ && markers[20]
        == "connection closed before message completed"@ && markers[21] == "unexpected eof"@
        && markers[22] == "end of file before message completed"@);
}

/// A lower-case message tells that a local Ollama server is down if and only if it says that a
/// connection was refused and names the port of the server on this machine.
pub proof fn local_outages_by_text(lower: Seq<char>)
    ensures
        is_local_outage(lower) <==> text::has_text(lower, "connection refused"@) && (
        text::has_text(lower, "127.0.0.1:11434"@) || text::has_text(lower, "localhost:11434"@)),
{
    let markers = ollama_local_markers();
    assert(markers.len() == 2);
    assert(markers[0] == "127.0.0.1:11434"@ && markers[1] == "localhost:11434"@);
}

/// A quote is closed, escaped and opened again, and the text around it is escaped on its own.
pub proof fn quotes_are_escaped_one_by_one(before: Seq<char>, after: Seq<char>)
    requires
        !before.contains('\''),
    ensures
        escaped(before + seq!['\''] + after) == before + seq!['\'', '\\', '\'', '\''] + escaped(
            after,
        ),
{
    reveal_strlit("'");
    reveal_strlit("'\\''");
    assert("'"@ =~= seq!['\'']);
    assert("'\\''"@ =~= seq!['\'', '\\', '\'', '\'']);
    let all = before + "'"@ + after;
    assert forall|i: int| 0 <= i < before.len() implies !#[trigger] text::occurs_at(
        all,
        "'"@,
        i,
    ) by {
        assert(before.contains(before[i]));
        assert(all.subrange(i, i + 1)[0] == before[i]);
    }
    text::replaced_place_by_place(before, "'"@, after, "'\\''"@);
}

} // verus!
