use signal_message_scheduler::schedule::countdown_segments;
use signal_message_scheduler::{Color, Contact, Group, MessageExpiration, Segment, Style};

fn plain_text(segments: &[Segment]) -> String {
    segments.iter().map(|s| s.text.as_str()).collect()
}

fn style(color: Color, bold: bool, italic: bool, underline: bool) -> Style {
    Style { color, bold, italic, underline, blink: false, dimmed: false }
}

fn contact(name: &str, profile: &str, blocked: bool, e: MessageExpiration) -> Contact {
    Contact {
        id: 3,
        account_identifier: "aci".to_string(),
        number: "+49".to_string(),
        name: name.to_string(),
        profile_name: profile.to_string(),
        blocked,
        message_expiration: e,
        _color: String::new(),
    }
}

fn group(active: bool, e: MessageExpiration) -> Group {
    Group {
        id: "gid".to_string(),
        name: "Club".to_string(),
        description: "Weekly".to_string(),
        active,
        message_expiration: e,
        ..Default::default()
    }
}

#[test]
fn contact_display() {
    let c = contact("Alice", "Ali", false, MessageExpiration::TimeInSeconds(90061));
    let s = c.display_segments();
    assert_eq!(plain_text(&s), "Alice|Ali, message_expiration: 1 day, 01:01:01");
    assert_eq!(s[0].style, style(Color::Green, true, false, false));
    assert_eq!(s[2].style, style(Color::Cyan, false, false, true));
    assert_eq!(s[4].style, style(Color::Yellow, false, false, false));

    let b = contact("Bob", "B", true, MessageExpiration::Disabled);
    let s = b.display_segments();
    assert_eq!(plain_text(&s), "Bob|B, blocked: TRUE, message_expiration: disabled");
    assert_eq!(s[0].style, style(Color::Red, true, false, false));
    assert_eq!(s[4].text, "TRUE");
    assert_eq!(s[4].style, style(Color::Red, true, false, false));
    assert_eq!(s[6].style, style(Color::Green, false, false, false));
}

#[test]
fn group_display() {
    let g = group(true, MessageExpiration::Disabled);
    let s = g.display_segments();
    assert_eq!(plain_text(&s), "Club, message_expiration: disabled, Description: Weekly");
    assert_eq!(s[4].style, style(Color::Blue, false, true, false));

    let g = group(false, MessageExpiration::TimeInSeconds(60));
    let s = g.display_segments();
    assert_eq!(plain_text(&s), "Club, Active: FALSE, Description: Weekly");
    assert_eq!(s[2].style, style(Color::Red, true, false, false));
    assert_eq!(s[4].style, style(Color::BrightRed, false, false, true));
}

#[test]
fn expiration_display() {
    let s = MessageExpiration::TimeInSeconds(3600).display_segment();
    assert_eq!(s.text, "01:00:00");
    let s = MessageExpiration::Disabled.display_segment();
    assert_eq!(s.text, "disabled");
}

#[test]
fn countdown_line() {
    let s = countdown_segments(61);
    assert_eq!(plain_text(&s), "Message will be sent in 00:01:01 Press Ctrl+C to cancel");
    assert_eq!(s[1].style, style(Color::Yellow, true, false, false));
    assert!(s[3].style.dimmed);
}
