//! The `signal-cli` commands that the scheduler runs, and what their outcome
//! means.

use vstd::prelude::*;
use crate::text::{chars_of, join_exec, replace, split_exec, string_of};

verus! {

broadcast use vstd::string::group_string_axioms;

/// A `signal-cli` command.
#[derive(Debug)]
pub enum SignalRequest {
    /// `listContacts`.
    ListContacts,
    /// `listGroups -d`, with the details of each group.
    ListGroups,
    /// `listAccounts`.
    ListAccounts,
    /// Send `message` to oneself, as a note.
    SendNoteToSelf { message: String },
    /// Send `message` to the account `account`.
    SendToRecipient { account: String, message: String },
    /// Send `message` to the group `group`.
    SendToGroup { group: String, message: String },
}

/// How a command ended.
#[derive(Debug)]
pub enum CommandOutcome {
    /// The command ran; `success` tells its exit status, and its outputs are
    /// read as text.
    Finished { success: bool, stdout: String, stderr: String },
    /// The command could not be started, for the reason given.
    FailedToStart { error: String },
}

/// The program and arguments of a request.
pub open spec fn command_words(r: SignalRequest) -> Seq<Seq<char>> {
    match r {
        SignalRequest::ListContacts => seq!["signal-cli"@, "listContacts"@],
        SignalRequest::ListGroups => seq!["signal-cli"@, "listGroups"@, "-d"@],
        SignalRequest::ListAccounts => seq!["signal-cli"@, "listAccounts"@],
        SignalRequest::SendNoteToSelf { message } => seq![
            "signal-cli"@,
            "send"@,
            "--note-to-self"@,
            "--notify-self"@,
            "-m"@,
            message@,
        ],
        SignalRequest::SendToRecipient { account, message } => seq![
            "signal-cli"@,
            "send"@,
            "-m"@,
            message@,
            account@,
        ],
        SignalRequest::SendToGroup { group, message } => seq![
            "signal-cli"@,
            "send"@,
            "-g"@,
            group@,
            "-m"@,
            message@,
        ],
    }
}

/// What a finished or failed request yields: the text it produced, or the
/// line to print about its failure.
pub open spec fn conclusion(r: SignalRequest, o: CommandOutcome) -> Result<Seq<char>, Seq<char>> {
    match o {
        CommandOutcome::Finished { success, stdout, stderr } => {
            if success {
                match r {
                    SignalRequest::ListAccounts => Ok(replace(stdout@, "Number: "@, seq![])),
                    _ => Ok(stdout@),
                }
            } else {
                match r {
                    SignalRequest::ListContacts | SignalRequest::ListGroups
                    | SignalRequest::ListAccounts => Err("signal-cli returned err: "@ + stderr@),
                    SignalRequest::SendToGroup { .. } => Err("`singal-cli` wrote to stderr: "@ + stderr@),
                    _ => Err("`signal-cli` wrote to stderr: "@ + stderr@),
                }
            }
        },
        CommandOutcome::FailedToStart { error } => match r {
            SignalRequest::ListContacts | SignalRequest::ListGroups => Err(
                "Failed to run `signal-cli`: "@ + error@,
            ),
            SignalRequest::ListAccounts => Err("Failed to run `signal-cli listAccounts`: "@ + error@),
            SignalRequest::SendToGroup { .. } => Err(
                "Failed to run `signal-cli send -g` command: "@ + error@,
            ),
            _ => Err("Failed to run `signal-cli send` command: "@ + error@),
        },
    }
}

/// `t` ends with `tail`.
pub open spec fn ends_with(t: Seq<char>, tail: Seq<char>) -> bool {
    t.len() >= tail.len() && t.subrange(t.len() - tail.len(), t.len() as int) == tail
}

/// A request succeeds exactly when its command ran and exited with success,
/// whatever the request: then it yields what the command wrote to standard
/// output (for `listAccounts`, with the labels taken out). A command that
/// failed yields a line that ends with what it wrote to standard error, and
/// one that could not start a line that ends with the reason.
pub proof fn law_conclusion_follows_exit_status(r: SignalRequest, o: CommandOutcome)
    ensures
        conclusion(r, o) is Ok <==> (o matches CommandOutcome::Finished { success, .. } && success),
        o matches CommandOutcome::Finished { success, stdout, .. } ==> (success && !(r is ListAccounts)
            ==> conclusion(r, o) == Ok::<Seq<char>, Seq<char>>(stdout@)),
        o matches CommandOutcome::Finished { success, stderr, .. } ==> (!success ==> (conclusion(r, o) matches Err(
            line,
        ) && ends_with(line, stderr@))),
        o matches CommandOutcome::FailedToStart { error } ==> (conclusion(r, o) matches Err(line)
            && ends_with(line, error@)),
{
    match o {
        CommandOutcome::Finished { success, stdout, stderr } => {
            if !success {
                let line = conclusion(r, o)->Err_0;
                assert(line.subrange(line.len() - stderr@.len(), line.len() as int) =~= stderr@);
            }
        },
        CommandOutcome::FailedToStart { error } => {
            let line = conclusion(r, o)->Err_0;
            assert(line.subrange(line.len() - error@.len(), line.len() as int) =~= error@);
        },
    }
}

fn word(s: &str) -> (r: String)
    ensures
        r@ == s@,
{
    String::from_str(s)
}

fn joined(a: &str, b: &String) -> (r: String)
    ensures
        r@ == a@ + b@,
{
    let mut r = String::from_str(a);
    r.append(b.as_str());
    r
}

impl SignalRequest {
    /// The program to run, then its arguments.
    pub fn command_line(&self) -> (r: Vec<String>)
        ensures
            r@.map_values(|x: String| x@) == command_words(*self),
    {
        let mut r: Vec<String> = Vec::new();
        r.push(word("signal-cli"));
        match self {
            SignalRequest::ListContacts => {
                r.push(word("listContacts"));
            },
            SignalRequest::ListGroups => {
                r.push(word("listGroups"));
                r.push(word("-d"));
            },
            SignalRequest::ListAccounts => {
                r.push(word("listAccounts"));
            },
            SignalRequest::SendNoteToSelf { message } => {
                r.push(word("send"));
                r.push(word("--note-to-self"));
                r.push(word("--notify-self"));
                r.push(word("-m"));
                r.push(message.clone());
            },
            SignalRequest::SendToRecipient { account, message } => {
                r.push(word("send"));
                r.push(word("-m"));
                r.push(message.clone());
                r.push(account.clone());
            },
            SignalRequest::SendToGroup { group, message } => {
                r.push(word("send"));
                r.push(word("-g"));
                r.push(group.clone());
                r.push(word("-m"));
                r.push(message.clone());
            },
        }
        assert(r@.map_values(|x: String| x@) =~= command_words(*self));
        r
    }

    /// What the outcome of this request yields: `Ok` with the text it
    /// produced (for `listAccounts`, without the `Number: ` labels), or
    /// `Err` with the line to print about its failure.
    pub fn conclude(&self, outcome: &CommandOutcome) -> (r: Result<String, String>)
        ensures
            match (r, conclusion(*self, *outcome)) {
                (Ok(t), Ok(u)) => t@ == u,
                (Err(t), Err(u)) => t@ == u,
                _ => false,
            },
    {
        match outcome {
            CommandOutcome::Finished { success, stdout, stderr } => {
                if *success {
                    match self {
                        SignalRequest::ListAccounts => {
                            let text = chars_of(stdout.as_str());
                            let label = chars_of("Number: ");
                            proof {
                                reveal_strlit("Number: ");
                            }
                            let pieces = split_exec(&text, &label);
                            let empty: Vec<char> = Vec::new();
                            assert(empty@ =~= Seq::<char>::empty());
                            let v = join_exec(&pieces, &empty);
                            Ok(string_of(&v))
                        },
                        _ => Ok(stdout.clone()),
                    }
                } else {
                    match self {
                        SignalRequest::ListContacts | SignalRequest::ListGroups
                        | SignalRequest::ListAccounts => Err(joined("signal-cli returned err: ", stderr)),
                        SignalRequest::SendToGroup { .. } => Err(joined("`singal-cli` wrote to stderr: ", stderr)),
                        _ => Err(joined("`signal-cli` wrote to stderr: ", stderr)),
                    }
                }
            },
            CommandOutcome::FailedToStart { error } => match self {
                SignalRequest::ListContacts | SignalRequest::ListGroups => Err(
                    joined("Failed to run `signal-cli`: ", error),
                ),
                SignalRequest::ListAccounts => Err(joined("Failed to run `signal-cli listAccounts`: ", error)),
                SignalRequest::SendToGroup { .. } => Err(
                    joined("Failed to run `signal-cli send -g` command: ", error),
                ),
                _ => Err(joined("Failed to run `signal-cli send` command: ", error)),
            },
        }
    }
}

/// The listing that `get_contact_list` asks for on the given option: only
/// `contacts` has one.
pub fn contact_list_request(option: &str) -> (r: Option<SignalRequest>)
    ensures
        option@ == "contacts"@ ==> r == Some(SignalRequest::ListContacts),
        option@ != "contacts"@ ==> r is None,
{
    let v = chars_of(option);
    let w = chars_of("contacts");
    if crate::text::same_chars(&v, &w) {
        Some(SignalRequest::ListContacts)
    } else {
        None
    }
}

} // verus!
