//! Contacts and groups, as `signal-cli` lists them, and how they are shown.

use vstd::prelude::*;
use crate::style::{bold, colored, italic, make_look, plain, run_of, run_owned, runs, underlined, Color, Segment, Style};
use crate::util::{format_time_from_seconds, time_text};

verus! {

broadcast use vstd::string::group_string_axioms;

/// How long a conversation keeps its messages before they disappear.
#[derive(Debug, Clone, Copy, Default)]
pub enum MessageExpiration {
    /// Messages disappear after this many seconds.
    TimeInSeconds(u32),
    /// Messages stay.
    #[default]
    Disabled,
}

/// A Signal contact.
#[derive(Debug, Default)]
pub struct Contact {
    /// Position of the contact's line in the listing, wrapped to 16 bits.
    pub id: u16,
    pub account_identifier: String,
    pub number: String,
    pub name: String,
    pub profile_name: String,
    pub blocked: bool,
    pub message_expiration: MessageExpiration,
    pub _color: String,
}

/// A Signal group.
#[derive(Debug, Default, Clone)]
pub struct Group {
    pub id: String,
    /// Position of the group's line in the listing, wrapped to 16 bits.
    pub numeric_id: u16,
    pub name: String,
    pub description: String,
    pub active: bool,
    pub blocked: bool,
    pub members: Vec<String>,
    pub pending_members: Vec<String>,
    pub requesting_members: Vec<String>,
    pub admins: Vec<String>,
    pub banned: Vec<String>,
    pub message_expiration: MessageExpiration,
    pub link: String,
}

impl From<u32> for MessageExpiration {
    fn from(seconds: u32) -> (r: Self) {
        MessageExpiration::TimeInSeconds(seconds)
    }
}

impl vstd::std_specs::convert::FromSpecImpl<u32> for MessageExpiration {
    open spec fn obeys_from_spec() -> bool {
        true
    }

    open spec fn from_spec(seconds: u32) -> Self {
        MessageExpiration::TimeInSeconds(seconds)
    }
}

impl Clone for Contact {
    fn clone(&self) -> (r: Self)
        ensures
            r == *self,
    {
        Contact {
            id: self.id,
            account_identifier: self.account_identifier.clone(),
            number: self.number.clone(),
            name: self.name.clone(),
            profile_name: self.profile_name.clone(),
            blocked: self.blocked,
            message_expiration: self.message_expiration,
            _color: self._color.clone(),
        }
    }
}

/// How an expiration setting is shown: the duration in yellow, or
/// `disabled` in green.
pub open spec fn expiration_run(e: MessageExpiration) -> (Seq<char>, Style) {
    match e {
        MessageExpiration::TimeInSeconds(s) => (time_text(s as nat), colored(Color::Yellow)),
        MessageExpiration::Disabled => ("disabled"@, colored(Color::Green)),
    }
}

/// How a contact is shown in a list.
pub open spec fn contact_runs(c: Contact) -> Seq<(Seq<char>, Style)> {
    if c.blocked {
        seq![
            (c.name@, bold(Color::Red)),
            ("|"@, plain()),
            (c.profile_name@, underlined(Color::Red)),
            (", blocked: "@, plain()),
            ("TRUE"@, bold(Color::Red)),
            (", message_expiration: "@, plain()),
            expiration_run(c.message_expiration),
        ]
    } else {
        seq![
            (c.name@, bold(Color::Green)),
            ("|"@, plain()),
            (c.profile_name@, underlined(Color::Cyan)),
            (", message_expiration: "@, plain()),
            expiration_run(c.message_expiration),
        ]
    }
}

/// How a group is shown in a list.
pub open spec fn group_runs(g: Group) -> Seq<(Seq<char>, Style)> {
    if g.active {
        seq![
            (g.name@, bold(Color::Green)),
            (", message_expiration: "@, plain()),
            expiration_run(g.message_expiration),
            (", Description: "@, plain()),
            (g.description@, italic(Color::Blue)),
        ]
    } else {
        seq![
            (g.name@, bold(Color::Red)),
            (", Active: "@, plain()),
            ("FALSE"@, bold(Color::Red)),
            (", Description: "@, plain()),
            (g.description@, underlined(Color::BrightRed)),
        ]
    }
}

impl MessageExpiration {
    /// How the setting is shown.
    pub fn display_segment(&self) -> (r: Segment)
        ensures
            r@ == expiration_run(*self),
    {
        match self {
            MessageExpiration::TimeInSeconds(seconds) => run_owned(
                format_time_from_seconds(*seconds as u64),
                make_look(Color::Yellow, false, false, false, false, false),
            ),
            MessageExpiration::Disabled => run_of(
                "disabled",
                make_look(Color::Green, false, false, false, false, false),
            ),
        }
    }
}

impl Contact {
    /// How the contact is shown in a list.
    pub fn display_segments(&self) -> (r: Vec<Segment>)
        ensures
            runs(r@) == contact_runs(*self),
    {
        let mut r: Vec<Segment> = Vec::new();
        if self.blocked {
            r.push(run_owned(self.name.clone(), make_look(Color::Red, true, false, false, false, false)));
            r.push(run_of("|", make_look(Color::Plain, false, false, false, false, false)));
            r.push(run_owned(self.profile_name.clone(), make_look(Color::Red, false, false, true, false, false)));
            r.push(run_of(", blocked: ", make_look(Color::Plain, false, false, false, false, false)));
            r.push(run_of("TRUE", make_look(Color::Red, true, false, false, false, false)));
        } else {
            r.push(run_owned(self.name.clone(), make_look(Color::Green, true, false, false, false, false)));
            r.push(run_of("|", make_look(Color::Plain, false, false, false, false, false)));
            r.push(run_owned(self.profile_name.clone(), make_look(Color::Cyan, false, false, true, false, false)));
        }
        r.push(run_of(", message_expiration: ", make_look(Color::Plain, false, false, false, false, false)));
        r.push(self.message_expiration.display_segment());
        assert(runs(r@) =~= contact_runs(*self));
        r
    }
}

impl Group {
    /// How the group is shown in a list.
    pub fn display_segments(&self) -> (r: Vec<Segment>)
        ensures
            runs(r@) == group_runs(*self),
    {
        let mut r: Vec<Segment> = Vec::new();
        if self.active {
            r.push(run_owned(self.name.clone(), make_look(Color::Green, true, false, false, false, false)));
            r.push(run_of(", message_expiration: ", make_look(Color::Plain, false, false, false, false, false)));
            r.push(self.message_expiration.display_segment());
            r.push(run_of(", Description: ", make_look(Color::Plain, false, false, false, false, false)));
            r.push(run_owned(self.description.clone(), make_look(Color::Blue, false, true, false, false, false)));
        } else {
            r.push(run_owned(self.name.clone(), make_look(Color::Red, true, false, false, false, false)));
            r.push(run_of(", Active: ", make_look(Color::Plain, false, false, false, false, false)));
            r.push(run_of("FALSE", make_look(Color::Red, true, false, false, false, false)));
            r.push(run_of(", Description: ", make_look(Color::Plain, false, false, false, false, false)));
            r.push(run_owned(self.description.clone(), make_look(Color::BrightRed, false, false, true, false, false)));
        }
        assert(runs(r@) =~= group_runs(*self));
        r
    }
}

} // verus!
