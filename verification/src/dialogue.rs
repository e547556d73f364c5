//! The conversation that schedules one message: what to ask, run and report
//! at each step, from the contact or group that the user picked.

use vstd::prelude::*;
use crate::contact::{Contact, Group};
use crate::signal::{command_words, SignalRequest};
use crate::style::{bold, italic, look, make_look, plain, run_of, run_owned, runs, Color, Segment, Style};
use crate::text::{byte_prefix, byte_prefix_exec, chars_of, same_chars, string_of};

verus! {

broadcast use vstd::string::group_string_axioms;

/// Who the message is for.
#[derive(Debug)]
pub enum Addressee {
    Person(Contact),
    Team(Group),
}

/// Where the conversation stands.
#[derive(Debug)]
pub enum Stage {
    /// Nothing asked yet.
    Opening,
    /// Waiting for the user to confirm the addressee.
    Confirming,
    /// Waiting for the date, time and text of the message.
    Composing,
    /// Waiting for the message, due at `when`, to be sent.
    Delivering { message: String, when: String },
    /// Over.
    Closed,
}

/// The conversation about one message.
#[derive(Debug)]
pub struct Dialogue {
    pub addressee: Addressee,
    pub stage: Stage,
}

/// What happened since the last step.
#[derive(Debug)]
pub enum DialogueEvent {
    /// The conversation starts.
    Begin,
    /// The user answered the confirmation question.
    Answered(bool),
    /// The user wrote `message`, to be sent at the time shown as `when`.
    Composed { message: String, when: String },
    /// The send command ran; `true` where it succeeded.
    Delivered(bool),
}

/// What to do next.
#[derive(Debug)]
pub enum DialogueAction {
    /// Ask this yes/no question, with yes as the default.
    Confirm(Vec<Segment>),
    /// Ask for the date, the time of day and the text of the message.
    Compose,
    /// Wait until the chosen time, then run this command.
    Deliver(SignalRequest),
    /// Print this line, to standard error where `to_stderr`.
    Report { text: Vec<Segment>, to_stderr: bool },
    /// Nothing more to do.
    Close,
    /// The event does not fit the stage: nothing to do.
    Nothing,
}

/// How the message text is shown in the report: blinking bold blue.
pub open spec fn message_look() -> Style {
    look(Color::Blue, true, false, false, true, false)
}

/// How the due time is shown in the report: italic underlined bright purple.
pub open spec fn when_look() -> Style {
    look(Color::BrightPurple, false, true, true, false, false)
}

/// The question that confirms a group.
pub open spec fn group_question(g: Group) -> Seq<(Seq<char>, Style)> {
    seq![
        ("You want to message: "@, plain()),
        (g.name@, bold(Color::Green)),
        (" ("@, plain()),
        (byte_prefix(g.description@, 20) + "…"@, italic(Color::Blue)),
        (")"@, plain()),
    ]
}

/// The question that confirms a contact: a note to oneself for the first
/// contact of the listing (id 0), a message otherwise.
pub open spec fn person_question(c: Contact) -> Seq<(Seq<char>, Style)> {
    if c.id == 0 {
        seq![
            ("You want to send a self-note to: "@, plain()),
            (c.profile_name@, bold(Color::Blue)),
            ("("@, plain()),
            (c.number@, italic(Color::BrightPurple)),
            (")?"@, plain()),
        ]
    } else {
        seq![
            ("You want to message: "@, plain()),
            (c.name@, bold(Color::Green)),
            (" - "@, plain()),
            (c.profile_name@, italic(Color::BrightPurple)),
            ("("@, plain()),
            (c.number@, look(Color::Red, false, false, true, false, false)),
            (")?"@, plain()),
        ]
    }
}

/// The line that tells the user they are blocked from a group.
pub open spec fn blocked_line(g: Group) -> Seq<(Seq<char>, Style)> {
    seq![("You are blocked from the group: "@, plain()), (g.name@, plain())]
}

/// The line printed when the user does not confirm.
pub open spec fn declined_line(a: Addressee) -> Seq<(Seq<char>, Style)> {
    match a {
        Addressee::Person(_) => seq![("Canceled!"@, bold(Color::Red))],
        Addressee::Team(g) => seq![("Failed sending to group: "@, plain()), (g.name@, plain())],
    }
}

/// The line printed once the message is sent.
pub open spec fn delivered_line(a: Addressee, message: Seq<char>, when: Seq<char>) -> Seq<(Seq<char>, Style)> {
    match a {
        Addressee::Team(g) => seq![
            ("\""@, plain()),
            (message, message_look()),
            ("\" sent to group: "@, plain()),
            (g.name@, bold(Color::Green)),
            (" @ "@, plain()),
            (when, when_look()),
        ],
        Addressee::Person(c) => if c.id == 0 {
            seq![
                ("\""@, plain()),
                (message, message_look()),
                ("\" sent to "@, plain()),
                (c.number@, italic(Color::BrightGreen)),
                ("(as note to "@, plain()),
                ("SELF"@, italic(Color::BrightGreen)),
                (") @ "@, plain()),
                (when, when_look()),
            ]
        } else {
            seq![
                ("\""@, plain()),
                (message, message_look()),
                ("\" sent to "@, plain()),
                (if c.number@.len() > 0 { c.number@ } else { c.account_identifier@ }, italic(Color::Red)),
                (" @ "@, plain()),
                (when, when_look()),
            ]
        },
    }
}

/// The command that sends `message` to the addressee: a note to oneself for
/// contact 0, to the contact's account otherwise, or to the group's id.
pub open spec fn delivery(a: Addressee, message: String) -> SignalRequest {
    match a {
        Addressee::Person(c) => if c.id == 0 {
            SignalRequest::SendNoteToSelf { message }
        } else {
            SignalRequest::SendToRecipient { account: c.account_identifier, message }
        },
        Addressee::Team(g) => SignalRequest::SendToGroup { group: g.id, message },
    }
}

/// One step of the conversation: from `before`, on `event`, to `after`,
/// doing `action`.
pub open spec fn stepped(before: Dialogue, event: DialogueEvent, after: Dialogue, action: DialogueAction) -> bool {
    &&& after.addressee == before.addressee
    &&& match (before.stage, event) {
        (Stage::Opening, DialogueEvent::Begin) => match before.addressee {
            Addressee::Team(g) => if g.blocked {
                &&& after.stage is Closed
                &&& action matches DialogueAction::Report { text, to_stderr }
                &&& to_stderr
                &&& runs(text@) == blocked_line(g)
            } else {
                &&& after.stage is Confirming
                &&& action matches DialogueAction::Confirm(q)
                &&& runs(q@) == group_question(g)
            },
            Addressee::Person(c) => {
                &&& after.stage is Confirming
                &&& action matches DialogueAction::Confirm(q)
                &&& runs(q@) == person_question(c)
            },
        },
        (Stage::Confirming, DialogueEvent::Answered(yes)) => if yes {
            &&& after.stage is Composing
            &&& action is Compose
        } else {
            &&& after.stage is Closed
            &&& action matches DialogueAction::Report { text, to_stderr }
            &&& !to_stderr
            &&& runs(text@) == declined_line(before.addressee)
        },
        (Stage::Composing, DialogueEvent::Composed { message, when }) => {
            &&& after.stage == Stage::Delivering { message, when }
            &&& action == DialogueAction::Deliver(delivery(before.addressee, message))
        },
        (Stage::Delivering { message, when }, DialogueEvent::Delivered(sent)) => {
            &&& after.stage is Closed
            &&& if sent {
                &&& action matches DialogueAction::Report { text, to_stderr }
                &&& !to_stderr
                &&& runs(text@) == delivered_line(before.addressee, message@, when@)
            } else {
                action is Close
            }
        },
        _ => {
            &&& after.stage == before.stage
            &&& action is Nothing
        },
    }
}

fn plain_run(text: &str) -> (r: Segment)
    ensures
        r@ == (text@, plain()),
{
    run_of(text, make_look(Color::Plain, false, false, false, false, false))
}

fn group_question_exec(g: &Group) -> (r: Vec<Segment>)
    ensures
        runs(r@) == group_question(*g),
{
    let description = chars_of(g.description.as_str());
    let mut preview = string_of(&byte_prefix_exec(&description, 20));
    preview.append("…");
    let mut r: Vec<Segment> = Vec::new();
    r.push(plain_run("You want to message: "));
    r.push(run_owned(g.name.clone(), make_look(Color::Green, true, false, false, false, false)));
    r.push(plain_run(" ("));
    r.push(run_owned(preview, make_look(Color::Blue, false, true, false, false, false)));
    r.push(plain_run(")"));
    assert(runs(r@) =~= group_question(*g));
    r
}

fn person_question_exec(c: &Contact) -> (r: Vec<Segment>)
    ensures
        runs(r@) == person_question(*c),
{
    let mut r: Vec<Segment> = Vec::new();
    if c.id == 0 {
        r.push(plain_run("You want to send a self-note to: "));
        r.push(run_owned(c.profile_name.clone(), make_look(Color::Blue, true, false, false, false, false)));
        r.push(plain_run("("));
        r.push(run_owned(c.number.clone(), make_look(Color::BrightPurple, false, true, false, false, false)));
        r.push(plain_run(")?"));
    } else {
        r.push(plain_run("You want to message: "));
        r.push(run_owned(c.name.clone(), make_look(Color::Green, true, false, false, false, false)));
        r.push(plain_run(" - "));
        r.push(run_owned(c.profile_name.clone(), make_look(Color::BrightPurple, false, true, false, false, false)));
        r.push(plain_run("("));
        r.push(run_owned(c.number.clone(), make_look(Color::Red, false, false, true, false, false)));
        r.push(plain_run(")?"));
    }
    assert(runs(r@) =~= person_question(*c));
    r
}

fn declined_line_exec(a: &Addressee) -> (r: Vec<Segment>)
    ensures
        runs(r@) == declined_line(*a),
{
    let mut r: Vec<Segment> = Vec::new();
    match a {
        Addressee::Person(_) => {
            r.push(run_of("Canceled!", make_look(Color::Red, true, false, false, false, false)));
        },
        Addressee::Team(g) => {
            r.push(plain_run("Failed sending to group: "));
            r.push(run_owned(g.name.clone(), make_look(Color::Plain, false, false, false, false, false)));
        },
    }
    assert(runs(r@) =~= declined_line(*a));
    r
}

fn delivered_line_exec(a: &Addressee, message: &String, when: &String) -> (r: Vec<Segment>)
    ensures
        runs(r@) == delivered_line(*a, message@, when@),
{
    let mut r: Vec<Segment> = Vec::new();
    r.push(plain_run("\""));
    r.push(run_owned(message.clone(), make_look(Color::Blue, true, false, false, true, false)));
    match a {
        Addressee::Team(g) => {
            r.push(plain_run("\" sent to group: "));
            r.push(run_owned(g.name.clone(), make_look(Color::Green, true, false, false, false, false)));
            r.push(plain_run(" @ "));
        },
        Addressee::Person(c) => {
            r.push(plain_run("\" sent to "));
            if c.id == 0 {
                r.push(run_owned(c.number.clone(), make_look(Color::BrightGreen, false, true, false, false, false)));
                r.push(plain_run("(as note to "));
                r.push(run_of("SELF", make_look(Color::BrightGreen, false, true, false, false, false)));
                r.push(plain_run(") @ "));
            } else {
                let shown = if c.number.as_str().is_empty() {
                    c.account_identifier.clone()
                } else {
                    c.number.clone()
                };
                r.push(run_owned(shown, make_look(Color::Red, false, true, false, false, false)));
                r.push(plain_run(" @ "));
            }
        },
    }
    r.push(run_owned(when.clone(), make_look(Color::BrightPurple, false, true, true, false, false)));
    assert(runs(r@) =~= delivered_line(*a, message@, when@));
    r
}

fn delivery_exec(a: &Addressee, message: String) -> (r: SignalRequest)
    ensures
        r == delivery(*a, message),
{
    match a {
        Addressee::Person(c) => if c.id == 0 {
            SignalRequest::SendNoteToSelf { message }
        } else {
            SignalRequest::SendToRecipient { account: c.account_identifier.clone(), message }
        },
        Addressee::Team(g) => SignalRequest::SendToGroup { group: g.id.clone(), message },
    }
}

impl Dialogue {
    /// A conversation about a message for `addressee`, not started yet.
    pub fn new(addressee: Addressee) -> (r: Dialogue)
        ensures
            r.addressee == addressee,
            r.stage is Opening,
    {
        Dialogue { addressee, stage: Stage::Opening }
    }

    /// Takes one step: from this stage, on `event`, to the next stage and
    /// what to do there.
    pub fn step(self, event: DialogueEvent) -> (r: (Dialogue, DialogueAction))
        ensures
            stepped(self, event, r.0, r.1),
    {
        let Dialogue { addressee, stage } = self;
        match (stage, event) {
            (Stage::Opening, DialogueEvent::Begin) => {
                let action = match &addressee {
                    Addressee::Team(g) => if g.blocked {
                        let mut text: Vec<Segment> = Vec::new();
                        text.push(plain_run("You are blocked from the group: "));
                        text.push(run_owned(g.name.clone(), make_look(Color::Plain, false, false, false, false, false)));
                        assert(runs(text@) =~= blocked_line(*g));
                        DialogueAction::Report { text, to_stderr: true }
                    } else {
                        DialogueAction::Confirm(group_question_exec(g))
                    },
                    Addressee::Person(c) => DialogueAction::Confirm(person_question_exec(c)),
                };
                let next = match &addressee {
                    Addressee::Team(g) => if g.blocked { Stage::Closed } else { Stage::Confirming },
                    Addressee::Person(_) => Stage::Confirming,
                };
                (Dialogue { addressee, stage: next }, action)
            },
            (Stage::Confirming, DialogueEvent::Answered(yes)) => {
                if yes {
                    (Dialogue { addressee, stage: Stage::Composing }, DialogueAction::Compose)
                } else {
                    let text = declined_line_exec(&addressee);
                    (Dialogue { addressee, stage: Stage::Closed }, DialogueAction::Report { text, to_stderr: false })
                }
            },
            (Stage::Composing, DialogueEvent::Composed { message, when }) => {
                let request = delivery_exec(&addressee, message.clone());
                (Dialogue { addressee, stage: Stage::Delivering { message, when } }, DialogueAction::Deliver(request))
            },
            (Stage::Delivering { message, when }, DialogueEvent::Delivered(sent)) => {
                if sent {
                    let text = delivered_line_exec(&addressee, &message, &when);
                    (Dialogue { addressee, stage: Stage::Closed }, DialogueAction::Report { text, to_stderr: false })
                } else {
                    (Dialogue { addressee, stage: Stage::Closed }, DialogueAction::Close)
                }
            },
            (stage, _) => (Dialogue { addressee, stage }, DialogueAction::Nothing),
        }
    }
}

/// A failed send is never reported as sent: on `Delivered(false)` the step
/// prints nothing and the conversation closes, whoever the addressee is; a
/// report follows a send only where the send succeeded, and then it is the
/// line that names the message, the addressee and the time.
pub proof fn law_failed_send_reports_nothing(
    before: Dialogue,
    event: DialogueEvent,
    after: Dialogue,
    action: DialogueAction,
)
    requires
        stepped(before, event, after, action),
    ensures
        event == DialogueEvent::Delivered(false) ==> !(action is Report),
        event == DialogueEvent::Delivered(false) && before.stage is Delivering ==> (action is Close
            && after.stage is Closed),
        (event is Delivered && action is Report) ==> event == DialogueEvent::Delivered(true),
        before.stage matches Stage::Delivering { message, when } ==> (event
            == DialogueEvent::Delivered(true) ==> (action matches DialogueAction::Report {
            text,
            to_stderr,
        } && !to_stderr && runs(text@) == delivered_line(before.addressee, message@, when@) && runs(
            text@,
        )[1] == (message@, message_look()) && runs(text@).last() == (when@, when_look()))),
{
    if before.stage is Delivering && event == DialogueEvent::Delivered(true) {
        let text = action->Report_text;
        assert(runs(text@) == delivered_line(before.addressee, before.stage->message@, before.stage->when@));
    }
}

/// What the composed message becomes: on `Composed`, the step runs a
/// `signal-cli send` whose words carry the message as written, to the
/// contact's account (the last word), to the group's id (after `-g`), or as
/// a note to oneself for contact 0.
pub proof fn law_delivery_sends_composed_message(
    before: Dialogue,
    event: DialogueEvent,
    after: Dialogue,
    action: DialogueAction,
)
    requires
        stepped(before, event, after, action),
        before.stage is Composing,
        event is Composed,
    ensures
        action matches DialogueAction::Deliver(req) && {
            let w = command_words(req);
            &&& w[0] == "signal-cli"@ && w[1] == "send"@
            &&& w.contains(event->Composed_message@)
            &&& before.addressee matches Addressee::Person(c) ==> (if c.id == 0 {
                w[2] == "--note-to-self"@
            } else {
                w.last() == c.account_identifier@
            })
            &&& before.addressee matches Addressee::Team(g) ==> (w[2] == "-g"@ && w[3] == g.id@)
        },
{
    let message = event->Composed_message;
    let w = command_words(action->Deliver_0);
    match before.addressee {
        Addressee::Person(c) => if c.id == 0 {
            assert(w[5] == message@);
        } else {
            assert(w[3] == message@);
        },
        Addressee::Team(g) => {
            assert(w[5] == message@);
        },
    }
}

/// A contact can be picked where it has a name or a profile name.
pub open spec fn pickable(c: Contact) -> bool {
    !(c.name@.len() == 0 && c.profile_name@.len() == 0)
}

/// The contacts offered for picking: those with a name or a profile name, in
/// their order.
pub fn selectable_contacts(contacts: &Vec<Contact>) -> (r: Vec<Contact>)
    ensures
        r@ == contacts@.filter(|c: Contact| pickable(c)),
{
    let mut r: Vec<Contact> = Vec::new();
    let mut i: usize = 0;
    while i < contacts.len()
        invariant
            i <= contacts.len(),
            r@ == contacts@.subrange(0, i as int).filter(|c: Contact| pickable(c)),
        decreases contacts.len() - i,
    {
        proof {
            reveal_with_fuel(Seq::<_>::filter, 1);
            assert(contacts@.subrange(0, i + 1).drop_last() =~= contacts@.subrange(0, i as int));
        }
        let c = &contacts[i];
        if !(c.name.as_str().is_empty() && c.profile_name.as_str().is_empty()) {
            r.push(c.clone());
        }
        i += 1;
    }
    assert(contacts@.subrange(0, contacts@.len() as int) =~= contacts@);
    r
}

/// Which contacts are offered depends on their names alone: a contact is
/// offered exactly when it has a name or a profile name, whatever its number,
/// account, id, blocked flag or expiration; and every contact with a name or
/// a profile name in the listing is among those offered, with the offered
/// ones in the listing's order.
pub proof fn law_offered_contacts(c: Contact, d: Contact, cs: Seq<Contact>, offered: Seq<Contact>)
    requires
        offered == cs.filter(|x: Contact| pickable(x)),
    ensures
        (c.name@.len() > 0 || c.profile_name@.len() > 0) ==> pickable(c),
        c.name@.len() == 0 && c.profile_name@.len() == 0 ==> !pickable(c),
        c.name@ == d.name@ && c.profile_name@ == d.profile_name@ ==> pickable(c) == pickable(d),
        cs.contains(c) && (c.name@.len() > 0 || c.profile_name@.len() > 0) ==> offered.contains(c),
        forall|x: Contact| #[trigger] offered.contains(x) ==> cs.contains(x) && (x.name@.len() > 0
            || x.profile_name@.len() > 0),
{
    broadcast use vstd::seq_lib::group_filter_ensures;

    assert forall|x: Contact| #[trigger] offered.contains(x) implies cs.contains(x) && (x.name@.len() > 0
        || x.profile_name@.len() > 0) by {
        cs.lemma_filter_contains_rev(|x: Contact| pickable(x), x);
        let i = choose|i: int| 0 <= i < offered.len() && offered[i] == x;
        assert(pickable(offered[i]));
    }
    if cs.contains(c) && (c.name@.len() > 0 || c.profile_name@.len() > 0) {
        let i = choose|i: int| 0 <= i < cs.len() && cs[i] == c;
        assert(pickable(cs[i]));
    }
}

/// The section for the label the user picked first: `Contacts` gives
/// `contacts`, `Groups` gives `groups`, and any other label none.
pub fn initial_choice(label: &str) -> (r: Option<String>)
    ensures
        label@ == "Contacts"@ ==> (r matches Some(s) && s@ == "contacts"@),
        label@ == "Groups"@ ==> (r matches Some(s) && s@ == "groups"@),
        label@ != "Contacts"@ && label@ != "Groups"@ ==> r is None,
{
    proof {
        reveal_strlit("Contacts");
        reveal_strlit("Groups");
        assert("Contacts"@.len() != "Groups"@.len());
    }
    let v = chars_of(label);
    if same_chars(&v, &chars_of("Contacts")) {
        Some(String::from_str("contacts"))
    } else if same_chars(&v, &chars_of("Groups")) {
        Some(String::from_str("groups"))
    } else {
        None
    }
}

/// `trace` is a run of the conversation from its opening: each entry is one
/// step (state before, event, state after, action), and each step starts
/// where the one before it ended.
pub open spec fn is_run(trace: Seq<(Dialogue, DialogueEvent, Dialogue, DialogueAction)>) -> bool {
    &&& trace.len() > 0
    &&& trace[0].0.stage is Opening
    &&& forall|i: int| 0 <= i < trace.len() ==> stepped(#[trigger] trace[i].0, trace[i].1, trace[i].2, trace[i].3)
    &&& forall|i: int| 0 <= i < trace.len() - 1 ==> #[trigger] trace[i + 1].0 == trace[i].2
}

/// The user confirmed the addressee at some step before `k`.
pub open spec fn confirmed_before(trace: Seq<(Dialogue, DialogueEvent, Dialogue, DialogueAction)>, k: int) -> bool {
    exists|j: int| 0 <= j < k && (#[trigger] trace[j]).0.stage is Confirming && trace[j].1 == DialogueEvent::Answered(true)
}

pub open spec fn blocked_group(a: Addressee) -> bool {
    a matches Addressee::Team(g) && g.blocked
}

proof fn lemma_run_invariant(trace: Seq<(Dialogue, DialogueEvent, Dialogue, DialogueAction)>, i: int)
    requires
        is_run(trace),
        0 <= i < trace.len(),
    ensures
        trace[i].0.addressee == trace[0].0.addressee,
        (trace[i].0.stage is Composing || trace[i].0.stage is Delivering) ==> confirmed_before(trace, i),
        blocked_group(trace[0].0.addressee) ==> (trace[i].0.stage is Opening || trace[i].0.stage is Closed),
    decreases i,
{
    if i > 0 {
        lemma_run_invariant(trace, i - 1);
        let p = i - 1;
        assert(trace[p + 1].0 == trace[p].2);
        assert(stepped(trace[p].0, trace[p].1, trace[p].2, trace[p].3));
        if trace[p].0.stage is Confirming && trace[p].1 == DialogueEvent::Answered(true) {
            assert(confirmed_before(trace, i));
        }
        if confirmed_before(trace, p) {
            let j = choose|j: int| 0 <= j < p && (#[trigger] trace[j]).0.stage is Confirming && trace[j].1 == DialogueEvent::Answered(true);
            assert(0 <= j < i && trace[j].0.stage is Confirming);
            assert(confirmed_before(trace, i));
        }
    }
}

/// In every run of the conversation from its opening, a message is sent
/// only after the user confirmed the addressee, and never to a group that
/// has blocked the user.
pub proof fn law_delivery_needs_confirmation(trace: Seq<(Dialogue, DialogueEvent, Dialogue, DialogueAction)>, k: int)
    requires
        is_run(trace),
        0 <= k < trace.len(),
        trace[k].3 is Deliver,
    ensures
        confirmed_before(trace, k),
        !blocked_group(trace[0].0.addressee),
{
    lemma_run_invariant(trace, k);
    assert(stepped(trace[k].0, trace[k].1, trace[k].2, trace[k].3));
}

} // verus!
