use signal_message_scheduler::dialogue::{initial_choice, selectable_contacts};
use signal_message_scheduler::{
    Addressee, Contact, Dialogue, DialogueAction, DialogueEvent, Group, Segment, SignalRequest, Stage,
};

fn text(segments: &[Segment]) -> String {
    segments.iter().map(|s| s.text.as_str()).collect()
}

fn person(id: u16, name: &str, number: &str) -> Contact {
    Contact {
        id,
        account_identifier: "aci-1".to_string(),
        number: number.to_string(),
        name: name.to_string(),
        profile_name: "Profile".to_string(),
        ..Default::default()
    }
}

fn team(blocked: bool, description: &str) -> Group {
    Group {
        id: "gid".to_string(),
        name: "Club".to_string(),
        description: description.to_string(),
        active: true,
        blocked,
        ..Default::default()
    }
}

fn composed(message: &str) -> DialogueEvent {
    DialogueEvent::Composed { message: message.to_string(), when: "2024-03-10 12:00:00".to_string() }
}

#[test]
fn message_to_a_contact() {
    let d = Dialogue::new(Addressee::Person(person(2, "Alice", "+492")));
    let (d, a) = d.step(DialogueEvent::Begin);
    match a {
        DialogueAction::Confirm(q) => assert_eq!(text(&q), "You want to message: Alice - Profile(+492)?"),
        other => panic!("unexpected {:?}", other),
    }
    let (d, a) = d.step(DialogueEvent::Answered(true));
    assert!(matches!(a, DialogueAction::Compose));
    let (d, a) = d.step(composed("hello"));
    match a {
        DialogueAction::Deliver(SignalRequest::SendToRecipient { account, message }) => {
            assert_eq!(account, "aci-1");
            assert_eq!(message, "hello");
        }
        other => panic!("unexpected {:?}", other),
    }
    let (d, a) = d.step(DialogueEvent::Delivered(true));
    match a {
        DialogueAction::Report { text: t, to_stderr } => {
            assert!(!to_stderr);
            assert_eq!(text(&t), "\"hello\" sent to +492 @ 2024-03-10 12:00:00");
        }
        other => panic!("unexpected {:?}", other),
    }
    assert!(matches!(d.stage, Stage::Closed));
}

#[test]
fn contact_without_number_is_named_by_account() {
    let d = Dialogue::new(Addressee::Person(person(5, "Bob", "")));
    let (d, _) = d.step(DialogueEvent::Begin);
    let (d, _) = d.step(DialogueEvent::Answered(true));
    let (d, _) = d.step(composed("yo"));
    let (_, a) = d.step(DialogueEvent::Delivered(true));
    match a {
        DialogueAction::Report { text: t, .. } => assert_eq!(text(&t), "\"yo\" sent to aci-1 @ 2024-03-10 12:00:00"),
        other => panic!("unexpected {:?}", other),
    }
}

#[test]
fn note_to_self() {
    let d = Dialogue::new(Addressee::Person(person(0, "", "+491")));
    let (d, a) = d.step(DialogueEvent::Begin);
    match a {
        DialogueAction::Confirm(q) => assert_eq!(text(&q), "You want to send a self-note to: Profile(+491)?"),
        other => panic!("unexpected {:?}", other),
    }
    let (d, _) = d.step(DialogueEvent::Answered(true));
    let (d, a) = d.step(composed("remember"));
    assert!(matches!(a, DialogueAction::Deliver(SignalRequest::SendNoteToSelf { .. })));
    let (_, a) = d.step(DialogueEvent::Delivered(true));
    match a {
        DialogueAction::Report { text: t, .. } => {
            assert_eq!(text(&t), "\"remember\" sent to +491(as note to SELF) @ 2024-03-10 12:00:00")
        }
        other => panic!("unexpected {:?}", other),
    }
}

#[test]
fn declined_contact_is_canceled() {
    let d = Dialogue::new(Addressee::Person(person(2, "Alice", "+492")));
    let (d, _) = d.step(DialogueEvent::Begin);
    let (d, a) = d.step(DialogueEvent::Answered(false));
    match a {
        DialogueAction::Report { text: t, to_stderr } => {
            assert!(!to_stderr);
            assert_eq!(text(&t), "Canceled!");
        }
        other => panic!("unexpected {:?}", other),
    }
    assert!(matches!(d.stage, Stage::Closed));
}

#[test]
fn group_flow_and_preview() {
    let d = Dialogue::new(Addressee::Team(team(false, "A very long description of the club")));
    let (d, a) = d.step(DialogueEvent::Begin);
    match a {
        DialogueAction::Confirm(q) => assert_eq!(text(&q), "You want to message: Club (A very long descript…)"),
        other => panic!("unexpected {:?}", other),
    }
    let (d, _) = d.step(DialogueEvent::Answered(true));
    let (d, a) = d.step(composed("meeting"));
    assert!(matches!(a, DialogueAction::Deliver(SignalRequest::SendToGroup { .. })));
    let (_, a) = d.step(DialogueEvent::Delivered(false));
    assert!(matches!(a, DialogueAction::Close));
}

#[test]
fn group_preview_respects_character_boundaries() {
    // 19 ASCII bytes then a two-byte character: byte 20 falls inside it
    let d = Dialogue::new(Addressee::Team(team(false, "0123456789012345678éabc")));
    let (_, a) = d.step(DialogueEvent::Begin);
    match a {
        DialogueAction::Confirm(q) => assert_eq!(text(&q), "You want to message: Club (0123456789012345678éabc…)"),
        other => panic!("unexpected {:?}", other),
    }
    let d = Dialogue::new(Addressee::Team(team(false, "short")));
    let (_, a) = d.step(DialogueEvent::Begin);
    match a {
        DialogueAction::Confirm(q) => assert_eq!(text(&q), "You want to message: Club (short…)"),
        other => panic!("unexpected {:?}", other),
    }
}

#[test]
fn declined_group_reports_failure() {
    let d = Dialogue::new(Addressee::Team(team(false, "x")));
    let (d, _) = d.step(DialogueEvent::Begin);
    let (_, a) = d.step(DialogueEvent::Answered(false));
    match a {
        DialogueAction::Report { text: t, to_stderr } => {
            assert!(!to_stderr);
            assert_eq!(text(&t), "Failed sending to group: Club");
        }
        other => panic!("unexpected {:?}", other),
    }
}

#[test]
fn blocked_group_is_never_sent_to() {
    let d = Dialogue::new(Addressee::Team(team(true, "x")));
    let (d, a) = d.step(DialogueEvent::Begin);
    match a {
        DialogueAction::Report { text: t, to_stderr } => {
            assert!(to_stderr);
            assert_eq!(text(&t), "You are blocked from the group: Club");
        }
        other => panic!("unexpected {:?}", other),
    }
    // whatever comes next, nothing is delivered
    let (d, a) = d.step(DialogueEvent::Answered(true));
    assert!(matches!(a, DialogueAction::Nothing));
    let (_, a) = d.step(composed("sneaky"));
    assert!(matches!(a, DialogueAction::Nothing));
}

#[test]
fn delivery_needs_confirmation_on_concrete_run() {
    let d = Dialogue::new(Addressee::Person(person(2, "Alice", "+492")));
    let (d, _) = d.step(DialogueEvent::Begin);
    // composing before confirming is ignored
    let (d, a) = d.step(composed("early"));
    assert!(matches!(a, DialogueAction::Nothing));
    assert!(matches!(d.stage, Stage::Confirming));
}

#[test]
fn contacts_without_any_name_are_not_offered() {
    let contacts = vec![person(0, "", "+1"), Contact { profile_name: String::new(), ..person(1, "", "+2") }, person(2, "Al", "+3")];
    let offered = selectable_contacts(&contacts);
    assert_eq!(offered.len(), 2);
    assert_eq!(offered[0].id, 0);
    assert_eq!(offered[1].id, 2);
}

#[test]
fn first_choice() {
    assert_eq!(initial_choice("Contacts"), Some("contacts".to_string()));
    assert_eq!(initial_choice("Groups"), Some("groups".to_string()));
    assert_eq!(initial_choice("Other"), None);
}
