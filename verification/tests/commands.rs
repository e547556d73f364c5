use signal_message_scheduler::signal::contact_list_request;
use signal_message_scheduler::{CommandOutcome, SignalRequest};

fn line(r: &SignalRequest) -> Vec<String> {
    r.command_line()
}

fn words(v: &[&str]) -> Vec<String> {
    v.iter().map(|s| s.to_string()).collect()
}

fn finished(success: bool, stdout: &str, stderr: &str) -> CommandOutcome {
    CommandOutcome::Finished { success, stdout: stdout.to_string(), stderr: stderr.to_string() }
}

fn not_started() -> CommandOutcome {
    CommandOutcome::FailedToStart { error: "No such file or directory (os error 2)".to_string() }
}

#[test]
fn command_lines() {
    assert_eq!(line(&SignalRequest::ListContacts), words(&["signal-cli", "listContacts"]));
    assert_eq!(line(&SignalRequest::ListGroups), words(&["signal-cli", "listGroups", "-d"]));
    assert_eq!(line(&SignalRequest::ListAccounts), words(&["signal-cli", "listAccounts"]));
    assert_eq!(
        line(&SignalRequest::SendNoteToSelf { message: "hi".to_string() }),
        words(&["signal-cli", "send", "--note-to-self", "--notify-self", "-m", "hi"])
    );
    assert_eq!(
        line(&SignalRequest::SendToRecipient { account: "aci".to_string(), message: "hi".to_string() }),
        words(&["signal-cli", "send", "-m", "hi", "aci"])
    );
    assert_eq!(
        line(&SignalRequest::SendToGroup { group: "gid".to_string(), message: "hi".to_string() }),
        words(&["signal-cli", "send", "-g", "gid", "-m", "hi"])
    );
}

#[test]
fn listings_yield_their_output() {
    assert_eq!(SignalRequest::ListContacts.conclude(&finished(true, "a\nb\n", "")), Ok("a\nb\n".to_string()));
    assert_eq!(
        SignalRequest::ListAccounts.conclude(&finished(true, "Number: +491\nNumber: +492\n", "")),
        Ok("+491\n+492\n".to_string())
    );
    assert_eq!(
        SignalRequest::ListGroups.conclude(&finished(false, "", "no account")),
        Err("signal-cli returned err: no account".to_string())
    );
    assert_eq!(
        SignalRequest::ListContacts.conclude(&not_started()),
        Err("Failed to run `signal-cli`: No such file or directory (os error 2)".to_string())
    );
    assert_eq!(
        SignalRequest::ListAccounts.conclude(&not_started()),
        Err("Failed to run `signal-cli listAccounts`: No such file or directory (os error 2)".to_string())
    );
}

#[test]
fn sends_report_their_failures() {
    let to_self = SignalRequest::SendNoteToSelf { message: "m".to_string() };
    let to_group = SignalRequest::SendToGroup { group: "g".to_string(), message: "m".to_string() };
    assert!(to_self.conclude(&finished(true, "", "")).is_ok());
    assert_eq!(
        to_self.conclude(&finished(false, "", "rate limit")),
        Err("`signal-cli` wrote to stderr: rate limit".to_string())
    );
    assert_eq!(
        to_group.conclude(&finished(false, "", "rate limit")),
        Err("`singal-cli` wrote to stderr: rate limit".to_string())
    );
    assert_eq!(
        to_self.conclude(&not_started()),
        Err("Failed to run `signal-cli send` command: No such file or directory (os error 2)".to_string())
    );
    assert_eq!(
        to_group.conclude(&not_started()),
        Err("Failed to run `signal-cli send -g` command: No such file or directory (os error 2)".to_string())
    );
}

#[test]
fn only_contacts_have_a_listing_option() {
    assert!(matches!(contact_list_request("contacts"), Some(SignalRequest::ListContacts)));
    assert!(contact_list_request("groups").is_none());
}
