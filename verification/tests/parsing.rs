use signal_message_scheduler::util::{
    extract_between, format_time_from_seconds, get_account_number, get_groups, get_recipients,
    system_time_seconds,
};
use signal_message_scheduler::MessageExpiration;

const CONTACTS: &str = "Number: +4915100000001 ACI: 7d1c2f3e Name:  Profile name: Me Username:  Color: ultramarine Blocked: false Message expiration: disabled\n\
Number: +4915100000002 ACI: 8e2d3f4a Name: Alice Profile name: Ali Username:  Color: crimson Blocked: false Message expiration: 604800s\n\
Number:  ACI: 9f3e4a5b Name: Bob Profile name: Bobby Username:  Color: teal Blocked: true Message expiration: 86400s\n";

const GROUPS: &str = "Id: Abc123= Name: Family  Description: Our family chat Active: true Blocked: false Members: [+491, +492] Pending members: [] Requesting members: [] Admins: [+491] Banned: [] Message expiration: disabled Link: https://signal.group/#CjQKIabc\n\
Id: Def456= Name: Club Description: Weekly meetings Active: false Blocked: true Members: [+493] Pending members: [+494] Requesting members: [+495, +496] Admins: [] Banned: [+497] Message expiration: 3600s Link: -";

fn expiration_seconds(e: MessageExpiration) -> Option<u32> {
    match e {
        MessageExpiration::TimeInSeconds(s) => Some(s),
        MessageExpiration::Disabled => None,
    }
}

#[test]
fn extract_between_finds_the_field() {
    assert_eq!(extract_between("Number: +49 ACI: abc Name: x", "Number: ", " ACI: "), "+49");
    assert_eq!(extract_between("Name: x ACI: y", " ACI: ", " Name: "), "");
    assert_eq!(extract_between("a b c", "z", "c"), "");
    assert_eq!(extract_between("a b c", "a", "z"), "");
    assert_eq!(extract_between("key=value;", "", ";"), "key=value");
    assert_eq!(extract_between("key=value;", "=", ""), "");
    assert_eq!(extract_between("x[1] y[2]", "[", "]"), "1");
}

#[test]
fn extract_between_law_on_concrete_text() {
    // x = "pre ", start = "<", v = "inner", end = ">", y = " post <2>"
    assert_eq!(extract_between("pre <inner> post <2>", "<", ">"), "inner");
}

#[test]
fn format_time_exact_values() {
    assert_eq!(format_time_from_seconds(0), "00:00:00");
    assert_eq!(format_time_from_seconds(59), "00:00:59");
    assert_eq!(format_time_from_seconds(3661), "01:01:01");
    assert_eq!(format_time_from_seconds(86399), "23:59:59");
    assert_eq!(format_time_from_seconds(86400), "1 day, 00:00:00");
    assert_eq!(format_time_from_seconds(90061), "1 day, 01:01:01");
    assert_eq!(format_time_from_seconds(2419200), "28 days, 00:00:00");
    assert_eq!(format_time_from_seconds(u64::MAX), "213503982334601 days, 07:00:15");
}

#[test]
fn recipients_are_read_line_by_line() {
    let contacts = get_recipients(CONTACTS);
    assert_eq!(contacts.len(), 3);
    let me = &contacts[0];
    assert_eq!(me.id, 0);
    assert_eq!(me.number, "+4915100000001");
    assert_eq!(me.account_identifier, "7d1c2f3e");
    assert_eq!(me.name, "");
    assert_eq!(me.profile_name, "Me");
    assert!(!me.blocked);
    assert_eq!(expiration_seconds(me.message_expiration), None);
    assert_eq!(me._color, "");

    let alice = &contacts[1];
    assert_eq!(alice.id, 1);
    assert_eq!(alice.name, "Alice");
    assert_eq!(alice.profile_name, "Ali");
    assert_eq!(expiration_seconds(alice.message_expiration), Some(604800));

    let bob = &contacts[2];
    assert_eq!(bob.id, 2);
    assert_eq!(bob.number, "");
    assert_eq!(bob.account_identifier, "9f3e4a5b");
    assert!(bob.blocked);
    assert_eq!(expiration_seconds(bob.message_expiration), Some(86400));
}

#[test]
fn recipients_edge_cases() {
    assert_eq!(get_recipients("").len(), 0);
    // a final line without a line break counts; "\r\n" ends a line too
    let contacts = get_recipients("Number: 1 ACI: a Name: A Profile name: P Username: \r\nNumber: 2 ACI: b Name: B");
    assert_eq!(contacts.len(), 2);
    assert_eq!(contacts[0].profile_name, "P");
    assert_eq!(contacts[1].name, "");
    assert_eq!(contacts[1].account_identifier, "b");
    // a line without an expiration field: the whole line is no number
    assert_eq!(expiration_seconds(contacts[1].message_expiration), None);
    // an expiration that is no number counts as disabled
    let odd = get_recipients("Number: 1 Message expiration: forever");
    assert_eq!(expiration_seconds(odd[0].message_expiration), None);
    // s around the number is trimmed on both ends for contacts
    let ss = get_recipients("Number: 1 Message expiration: ss30ss");
    assert_eq!(expiration_seconds(ss[0].message_expiration), Some(30));
    // too large for 32 bits counts as disabled
    let big = get_recipients("Number: 1 Message expiration: 4294967296s");
    assert_eq!(expiration_seconds(big[0].message_expiration), None);
    let max = get_recipients("Number: 1 Message expiration: +4294967295s");
    assert_eq!(expiration_seconds(max[0].message_expiration), Some(4294967295));
}

#[test]
fn expiration_law_on_concrete_values() {
    let c = get_recipients("Number: 1 Blocked: false Message expiration: 2419200s");
    assert_eq!(expiration_seconds(c[0].message_expiration), Some(2419200));
    let d = get_recipients("Number: 1 Blocked: false Message expiration: disabled");
    assert_eq!(expiration_seconds(d[0].message_expiration), None);
}

#[test]
fn groups_are_read_line_by_line() {
    let groups = get_groups(GROUPS);
    assert_eq!(groups.len(), 2);
    let family = &groups[0];
    assert_eq!(family.id, "Abc123=");
    assert_eq!(family.numeric_id, 0);
    assert_eq!(family.name, "Family");
    assert_eq!(family.description, "Our family chat");
    assert!(family.active);
    assert!(!family.blocked);
    assert_eq!(family.members, vec!["+491".to_string(), "+492".to_string()]);
    assert_eq!(family.pending_members, vec!["".to_string()]);
    assert_eq!(family.admins, vec!["+491".to_string()]);
    assert_eq!(expiration_seconds(family.message_expiration), None);
    assert_eq!(family.link, "https://signal.group/#CjQKIabc");

    let club = &groups[1];
    assert_eq!(club.numeric_id, 1);
    assert!(!club.active);
    assert!(club.blocked);
    assert_eq!(club.requesting_members, vec!["+495".to_string(), "+496".to_string()]);
    assert_eq!(club.banned, vec!["+497".to_string()]);
    assert_eq!(club.link, "-");
    // the field runs up to "Link: " and so keeps a space after the "s"
    assert_eq!(expiration_seconds(club.message_expiration), None);
}

#[test]
fn groups_edge_cases() {
    let groups = get_groups("");
    assert_eq!(groups.len(), 1);
    assert_eq!(groups[0].name, "");
    assert_eq!(groups[0].members, vec!["".to_string()]);
    assert_eq!(groups[0].link, "");
    // a trailing line break makes one more, empty group
    assert_eq!(get_groups("Id: a Name: b\n").len(), 2);
    // an expiration right before "Link: " is read when nothing separates them
    let tight = get_groups("Id: a Message expiration: 60sLink: x");
    assert_eq!(expiration_seconds(tight[0].message_expiration), Some(60));
    let off = get_groups("Id: a Message expiration: disabledLink: x");
    assert_eq!(expiration_seconds(off[0].message_expiration), None);
}

#[test]
fn account_number_is_the_second_word() {
    assert_eq!(get_account_number("Number: +4912345 ACI: x"), "+4912345");
    assert_eq!(get_account_number("  Number:\t+1\n"), "+1");
}

#[test]
fn clock_reads_after_the_epoch() {
    let now = system_time_seconds().expect("clock after the epoch");
    assert!(now > 1_600_000_000);
}

#[test]
fn expiration_from_seconds() {
    let e = MessageExpiration::from(42u32);
    assert_eq!(expiration_seconds(e), Some(42));
}

#[test]
fn different_durations_show_differently() {
    let samples = [0u64, 1, 59, 60, 3599, 3600, 86399, 86400, 86401, 172800, 31536000];
    for (i, a) in samples.iter().enumerate() {
        for b in samples.iter().skip(i + 1) {
            assert_ne!(format_time_from_seconds(*a), format_time_from_seconds(*b));
        }
    }
}

#[test]
fn contact_line_reads_back() {
    let line = "Number: +4917600000000 ACI: 0a1b2c3d Name: Carol Profile name: Caz Username: carol.01 Color: blue Blocked: true Message expiration: 3600s";
    let c = &get_recipients(line)[0];
    assert_eq!(c.number, "+4917600000000");
    assert_eq!(c.account_identifier, "0a1b2c3d");
    assert_eq!(c.name, "Carol");
    assert_eq!(c.profile_name, "Caz");
    assert!(c.blocked);
    assert_eq!(expiration_seconds(c.message_expiration), Some(3600));
}

#[test]
fn joined_group_listings_read_as_both() {
    let a = "Id: a1 Name: One Description: x Active: true Blocked: false";
    let b = "Id: b1 Name: Two Description: y Active: false Blocked: true\nId: b2 Name: Three";
    let joined = format!("{a}\n{b}");
    let ga = get_groups(a);
    let gb = get_groups(b);
    let g = get_groups(&joined);
    assert_eq!(g.len(), ga.len() + gb.len());
    assert_eq!(g[0].id, ga[0].id);
    assert_eq!(g[0].numeric_id, ga[0].numeric_id);
    for (j, x) in gb.iter().enumerate() {
        let y = &g[ga.len() + j];
        assert_eq!(y.id, x.id);
        assert_eq!(y.name, x.name);
        assert_eq!(y.active, x.active);
        assert_eq!(y.blocked, x.blocked);
        assert_eq!(y.numeric_id as usize, ga.len() + j);
    }
}

#[test]
fn joined_contact_listings_read_as_both() {
    let a = "Number: 1 ACI: a Name: A Profile name: P Username: \n";
    let b = "Number: 2 ACI: b Name: B Profile name: Q Username: \r\nNumber: 3 ACI: c";
    let joined = format!("{a}{b}");
    let ca = get_recipients(a);
    let cb = get_recipients(b);
    let c = get_recipients(&joined);
    assert_eq!(c.len(), ca.len() + cb.len());
    assert_eq!(c[0].number, ca[0].number);
    assert_eq!(c[0].id, 0);
    for (j, x) in cb.iter().enumerate() {
        let y = &c[ca.len() + j];
        assert_eq!(y.number, x.number);
        assert_eq!(y.account_identifier, x.account_identifier);
        assert_eq!(y.profile_name, x.profile_name);
        assert_eq!(y.id as usize, ca.len() + j);
    }
}
