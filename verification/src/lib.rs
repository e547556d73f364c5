//! Building blocks of an interactive scheduler for Signal messages: reading the
//! contact and group listings that `signal-cli` prints, presenting them, and
//! deciding what to ask, run and report while a message is scheduled.

pub mod contact;
pub mod text;
pub mod style;
pub mod util;
pub mod schedule;
pub mod signal;
pub mod dialogue;

pub use contact::{Contact, Group, MessageExpiration};
pub use dialogue::{Addressee, Dialogue, DialogueAction, DialogueEvent, Stage};
pub use signal::{CommandOutcome, SignalRequest};
pub use style::{Color, Segment, Style};
pub use util::{extract_between, format_time_from_seconds, get_account_number, get_groups, get_recipients, system_time_seconds};
