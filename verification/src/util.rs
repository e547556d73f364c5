//! Reading what `signal-cli` prints, and formatting durations.

use vstd::prelude::*;
use crate::contact::{Contact, Group, MessageExpiration};
use crate::text::{
    between, between_exec, chars_of, decimal, lines, lines_exec, parse_u32, parse_u32_exec,
    push_char, push_decimal, push_two_digits, replace_char, replace_char_exec, same_chars, split,
    split_exec, string_of, trim, trim_char, trim_char_exec, trim_end_char, trim_end_char_exec,
    trim_exec, two_digits, words, words_exec, occurs_at, find, find_from, lemma_find_from, split_from,
    is_white, lemma_lines_join, lemma_split_join,
    is_digit, lemma_decimal_spells, first_at_end, join, lemma_split_of_join, digit_char, lemma_drop_back_digits, lemma_drop_front_digit_start,
};

verus! {

broadcast use vstd::string::group_string_axioms;

/// `HH:MM:SS` for the seconds `rest` left of a day.
pub open spec fn clock_text(rest: nat) -> Seq<char> {
    two_digits(rest / 3600) + seq![':'] + two_digits(rest % 3600 / 60) + seq![':'] + two_digits(rest % 60)
}

/// How `format_time_from_seconds` shows a duration: `HH:MM:SS`, preceded by
/// `1 day, ` or `N days, ` where it spans one day or more.
pub open spec fn time_text(seconds: nat) -> Seq<char> {
    let days = seconds / 86400;
    let clock = clock_text(seconds % 86400);
    if days < 1 {
        clock
    } else if days == 1 {
        decimal(days) + " day, "@ + clock
    } else {
        decimal(days) + " days, "@ + clock
    }
}

/// Shows a number of seconds as days, hours, minutes and seconds.
pub fn format_time_from_seconds(seconds: u64) -> (r: String)
    ensures
        r@ == time_text(seconds as nat),
{
    let mut days: u64 = 0;
    let mut hours: u64 = 0;
    let mut minutes: u64 = 0;
    let mut seconds_remaining: u64 = seconds;
    if seconds_remaining / 86400 >= 1 {
        days = seconds_remaining / 86400;
        seconds_remaining %= 86400;
    }
    if seconds_remaining / 3600 >= 1 {
        hours = seconds_remaining / 3600;
        seconds_remaining %= 3600;
    }
    if seconds_remaining / 60 >= 1 {
        minutes = seconds_remaining / 60;
        seconds_remaining %= 60;
    }
    let ghost rest = seconds as nat % 86400;
    assert(days == seconds as nat / 86400);
    assert(hours == rest / 3600);
    assert(minutes == rest % 3600 / 60);
    assert(seconds_remaining == rest % 60);
    let mut out = String::new();
    if days >= 1 {
        push_decimal(&mut out, days);
        if days == 1 {
            out.append(" day, ");
        } else {
            out.append(" days, ");
        }
    }
    push_two_digits(&mut out, hours);
    push_char(&mut out, ':');
    push_two_digits(&mut out, minutes);
    push_char(&mut out, ':');
    push_two_digits(&mut out, seconds_remaining);
    assert(out@ =~= time_text(seconds as nat));
    out
}

/// The text between the first `start` in `source` and the next `end` after
/// it; empty where `source` holds no `start`, or no `end` after it.
pub fn extract_between<'a>(source: &'a str, start: &'a str, end: &'a str) -> (r: String)
    ensures
        r@ == between(source@, start@, end@),
{
    let s = chars_of(source);
    let a = chars_of(start);
    let b = chars_of(end);
    let v = between_exec(&s, &a, &b);
    string_of(&v)
}

/// The texts of a list of strings.
pub open spec fn texts(v: Seq<String>) -> Seq<Seq<char>> {
    v.map_values(|x: String| x@)
}

/// The expiration that a contact line states after its last
/// ` Message expiration: `: `disabled`, or a number of seconds with `s`
/// around it; anything else counts as disabled.
pub open spec fn contact_expiration(value: Seq<char>) -> MessageExpiration {
    if value == "disabled"@ {
        MessageExpiration::Disabled
    } else {
        match parse_u32(trim_char(value, 's')) {
            Some(n) => MessageExpiration::TimeInSeconds(n),
            None => MessageExpiration::Disabled,
        }
    }
}

/// The expiration that a group line states between `Message expiration: `
/// and `Link: `: `disabled`, or a number of seconds followed by `s`;
/// anything else counts as disabled.
pub open spec fn group_expiration(value: Seq<char>) -> MessageExpiration {
    if value == "disabled"@ {
        MessageExpiration::Disabled
    } else {
        match parse_u32(trim_end_char(value, 's')) {
            Some(n) => MessageExpiration::TimeInSeconds(n),
            None => MessageExpiration::Disabled,
        }
    }
}

/// `c` is the contact that line number `index` of a contact listing describes.
pub open spec fn contact_read(c: Contact, line: Seq<char>, index: int) -> bool {
    &&& c.id as int == index % 65536
    &&& c.number@ == between(line, "Number: "@, " ACI: "@)
    &&& c.account_identifier@ == between(line, " ACI: "@, " Name: "@)
    &&& c.name@ == between(line, " Name: "@, " Profile name: "@)
    &&& c.profile_name@ == between(line, " Profile name: "@, " Username: "@)
    &&& c.blocked == (trim(between(line, " Blocked: "@, " Message expiration: "@)) == "true"@)
    &&& c.message_expiration == contact_expiration(split(line, " Message expiration: "@).last())
    &&& c._color@ == Seq::<char>::empty()
}

/// The member list between `start` and `end` in a group line, split at `, `.
pub open spec fn member_list(line: Seq<char>, start: Seq<char>, end: Seq<char>) -> Seq<Seq<char>> {
    split(between(line, start, end), ", "@)
}

/// `g` is the group that piece number `index` of a group listing describes.
pub open spec fn group_read(g: Group, line: Seq<char>, index: int) -> bool {
    &&& g.id@ == between(line, "Id: "@, " Name: "@)
    &&& g.numeric_id as int == index % 65536
    &&& g.name@ == trim(between(line, "Name: "@, " Description: "@))
    &&& g.description@ == replace_char(between(line, "Description: "@, " Active: "@), '\n', "␤ 🡿 "@)
    &&& g.active == (trim(between(line, "Active: "@, " Blocked: "@)) == "true"@)
    &&& g.blocked == (trim(between(line, "Blocked: "@, " Members: "@)) == "true"@)
    &&& texts(g.members@) == member_list(line, "Members: ["@, "] Pending members"@)
    &&& texts(g.pending_members@) == member_list(line, "Pending members: ["@, "] Requesting members: "@)
    &&& texts(g.requesting_members@) == member_list(line, "Requesting members: ["@, "] Admins: "@)
    &&& texts(g.admins@) == member_list(line, "Admins: ["@, "] Banned: "@)
    &&& texts(g.banned@) == member_list(line, "Banned: ["@, "] Message expiration: "@)
    &&& g.message_expiration == group_expiration(between(line, "Message expiration: "@, "Link: "@))
    &&& g.link@ == split(line, " "@).last()
}

/// `cs` is what `get_recipients` reads from `input`: one contact per line,
/// numbered by its line.
pub open spec fn reads_contacts(cs: Seq<Contact>, input: Seq<char>) -> bool {
    &&& cs.len() == lines(input).len()
    &&& forall|i: int| 0 <= i < cs.len() ==> contact_read(#[trigger] cs[i], lines(input)[i], i)
}

/// `gs` is what `get_groups` reads from `input`: one group per piece between
/// line breaks, numbered by its piece.
pub open spec fn reads_groups(gs: Seq<Group>, input: Seq<char>) -> bool {
    &&& gs.len() == split(input, "\n"@).len()
    &&& forall|i: int| 0 <= i < gs.len() ==> group_read(#[trigger] gs[i], split(input, "\n"@)[i], i)
}

/// The two contacts agree in everything but their number in the listing.
pub open spec fn same_contact(x: Contact, y: Contact) -> bool {
    &&& x.number@ == y.number@
    &&& x.account_identifier@ == y.account_identifier@
    &&& x.name@ == y.name@
    &&& x.profile_name@ == y.profile_name@
    &&& x.blocked == y.blocked
    &&& x.message_expiration == y.message_expiration
    &&& x._color@ == y._color@
}

/// The two groups agree in everything but their number in the listing.
pub open spec fn same_group(x: Group, y: Group) -> bool {
    &&& x.id@ == y.id@
    &&& x.name@ == y.name@
    &&& x.description@ == y.description@
    &&& x.active == y.active
    &&& x.blocked == y.blocked
    &&& texts(x.members@) == texts(y.members@)
    &&& texts(x.pending_members@) == texts(y.pending_members@)
    &&& texts(x.requesting_members@) == texts(y.requesting_members@)
    &&& texts(x.admins@) == texts(y.admins@)
    &&& texts(x.banned@) == texts(y.banned@)
    &&& x.message_expiration == y.message_expiration
    &&& x.link@ == y.link@
}

/// Reading two contact listings one after the other: where `a` ends a line
/// (or is empty), the contacts of `a + b` are those of `a`, then those of
/// `b` numbered on after the lines of `a`; each contact depends only on its
/// own line and its position.
pub proof fn law_get_recipients_concatenation(
    a: Seq<char>,
    b: Seq<char>,
    ca: Seq<Contact>,
    cb: Seq<Contact>,
    c: Seq<Contact>,
)
    requires
        a.len() == 0 || a.last() == '\n',
        reads_contacts(ca, a),
        reads_contacts(cb, b),
        reads_contacts(c, a + b),
    ensures
        c.len() == ca.len() + cb.len(),
        forall|i: int| 0 <= i < ca.len() ==> same_contact(#[trigger] c[i], ca[i]) && c[i].id == ca[i].id,
        forall|j: int|
            0 <= j < cb.len() ==> same_contact(#[trigger] c[ca.len() + j], cb[j]) && c[ca.len() + j].id as int
                == (ca.len() + j) % 65536,
{
    lemma_lines_join(a, b);
    assert forall|i: int| 0 <= i < ca.len() implies same_contact(#[trigger] c[i], ca[i]) && c[i].id == ca[i].id by {
        assert(lines(a + b)[i] == lines(a)[i]);
        assert(contact_read(c[i], lines(a)[i], i));
        assert(contact_read(ca[i], lines(a)[i], i));
    }
    assert forall|j: int| 0 <= j < cb.len() implies same_contact(#[trigger] c[ca.len() + j], cb[j]) && c[ca.len()
        + j].id as int == (ca.len() + j) % 65536 by {
        let k = ca.len() + j;
        assert(lines(a + b)[k] == lines(b)[j]);
        assert(contact_read(c[k], lines(b)[j], k));
        assert(contact_read(cb[j], lines(b)[j], j));
    }
}

/// Reading two group listings joined by a line break: the groups of
/// `a + "\n" + b` are those of `a`, then those of `b` numbered on after the
/// pieces of `a`; each group depends only on its own piece and its position.
pub proof fn law_get_groups_concatenation(
    a: Seq<char>,
    b: Seq<char>,
    ga: Seq<Group>,
    gb: Seq<Group>,
    g: Seq<Group>,
)
    requires
        reads_groups(ga, a),
        reads_groups(gb, b),
        reads_groups(g, a + "\n"@ + b),
    ensures
        g.len() == ga.len() + gb.len(),
        forall|i: int| 0 <= i < ga.len() ==> same_group(#[trigger] g[i], ga[i]) && g[i].numeric_id == ga[i].numeric_id,
        forall|j: int|
            0 <= j < gb.len() ==> same_group(#[trigger] g[ga.len() + j], gb[j]) && g[ga.len() + j].numeric_id as int
                == (ga.len() + j) % 65536,
{
    reveal_strlit("\n");
    assert("\n"@ =~= seq!['\n']);
    lemma_split_join(a, '\n', b);
    let s = split(a + "\n"@ + b, "\n"@);
    assert(s == split(a, "\n"@) + split(b, "\n"@));
    assert forall|i: int| 0 <= i < ga.len() implies same_group(#[trigger] g[i], ga[i]) && g[i].numeric_id == ga[i].numeric_id by {
        assert(s[i] == split(a, "\n"@)[i]);
        assert(group_read(g[i], s[i], i));
        assert(group_read(ga[i], split(a, "\n"@)[i], i));
    }
    assert forall|j: int| 0 <= j < gb.len() implies same_group(#[trigger] g[ga.len() + j], gb[j]) && g[ga.len()
        + j].numeric_id as int == (ga.len() + j) % 65536 by {
        let k = ga.len() + j;
        assert(s[k] == split(b, "\n"@)[j]);
        assert(group_read(g[k], s[k], k));
        assert(group_read(gb[j], split(b, "\n"@)[j], j));
    }
}

/// The text between `start` and `end` in `line`.
fn field(line: &Vec<char>, start: &str, end: &str) -> (r: Vec<char>)
    ensures
        r@ == between(line@, start@, end@),
{
    let a = chars_of(start);
    let b = chars_of(end);
    between_exec(line, &a, &b)
}

/// Whether `v` holds exactly the text `t`.
fn is_text(v: &Vec<char>, t: &str) -> (r: bool)
    ensures
        r == (v@ == t@),
{
    let w = chars_of(t);
    same_chars(v, &w)
}

/// The strings made of the given pieces.
fn strings_of(pieces: &Vec<Vec<char>>) -> (r: Vec<String>)
    ensures
        texts(r@) == pieces@.map_values(|x: Vec<char>| x@),
{
    let mut r: Vec<String> = Vec::new();
    let mut i: usize = 0;
    while i < pieces.len()
        invariant
            i <= pieces.len(),
            r@.len() == i,
            texts(r@) == pieces@.map_values(|x: Vec<char>| x@).subrange(0, i as int),
        decreases pieces.len() - i,
    {
        let ghost before = r@;
        let t = string_of(&pieces[i]);
        r.push(t);
        assert(r@ == before.push(t));
        assert forall|j: int| 0 <= j < i + 1 implies #[trigger] texts(r@)[j] == pieces@.map_values(
            |x: Vec<char>| x@,
        )[j] by {
            if j < i {
                assert(texts(r@)[j] == texts(before)[j]);
            }
        }
        i += 1;
        assert(texts(r@) =~= pieces@.map_values(|x: Vec<char>| x@).subrange(0, i as int));
    }
    assert(pieces@.map_values(|x: Vec<char>| x@).subrange(0, i as int) =~= pieces@.map_values(
        |x: Vec<char>| x@,
    ));
    r
}

/// The members between `start` and `end`, split at `, `.
fn member_strings(line: &Vec<char>, start: &str, end: &str) -> (r: Vec<String>)
    ensures
        texts(r@) == member_list(line@, start@, end@),
{
    let inner = field(line, start, end);
    let sep = chars_of(", ");
    proof {
        reveal_strlit(", ");
    }
    let pieces = split_exec(&inner, &sep);
    strings_of(&pieces)
}

/// The last piece of `line` split at the non-empty `pattern`.
fn last_piece(line: &Vec<char>, pattern: &str) -> (r: Vec<char>)
    requires
        pattern@.len() > 0,
    ensures
        r@ == split(line@, pattern@).last(),
{
    let p = chars_of(pattern);
    let pieces = split_exec(line, &p);
    proof {
        crate::text::lemma_split_from_nonempty(line@, p@, 0);
    }
    assert(pieces@.map_values(|x: Vec<char>| x@).len() == pieces@.len());
    let k = pieces.len() - 1;
    assert(pieces[k as int]@ == split(line@, pattern@).last());
    crate::text::copy_range(&pieces[k], 0, pieces[k].len())
}

fn contact_expiration_exec(value: &Vec<char>) -> (r: MessageExpiration)
    ensures
        r == contact_expiration(value@),
{
    if is_text(value, "disabled") {
        MessageExpiration::Disabled
    } else {
        let t = trim_char_exec(value, 's');
        match parse_u32_exec(&t) {
            Some(n) => MessageExpiration::TimeInSeconds(n),
            None => MessageExpiration::Disabled,
        }
    }
}

fn group_expiration_exec(value: &Vec<char>) -> (r: MessageExpiration)
    ensures
        r == group_expiration(value@),
{
    if is_text(value, "disabled") {
        MessageExpiration::Disabled
    } else {
        let t = trim_end_char_exec(value, 's');
        match parse_u32_exec(&t) {
            Some(n) => MessageExpiration::TimeInSeconds(n),
            None => MessageExpiration::Disabled,
        }
    }
}

/// Reads one line of a contact listing.
fn contact_of_line(line: &Vec<char>, index: usize) -> (c: Contact)
    ensures
        contact_read(c, line@, index as int),
{
    let number = string_of(&field(line, "Number: ", " ACI: "));
    let account_identifier = string_of(&field(line, " ACI: ", " Name: "));
    let name = string_of(&field(line, " Name: ", " Profile name: "));
    let profile_name = string_of(&field(line, " Profile name: ", " Username: "));
    let blocked = is_text(&trim_exec(&field(line, " Blocked: ", " Message expiration: ")), "true");
    proof {
        reveal_strlit(" Message expiration: ");
    }
    let value = last_piece(line, " Message expiration: ");
    let message_expiration = contact_expiration_exec(&value);
    Contact {
        id: (index % 65536) as u16,
        number,
        account_identifier,
        name,
        profile_name,
        blocked,
        message_expiration,
        _color: String::new(),
    }
}

/// Reads one piece of a group listing.
fn group_of_line(line: &Vec<char>, index: usize) -> (g: Group)
    ensures
        group_read(g, line@, index as int),
{
    let id = string_of(&field(line, "Id: ", " Name: "));
    let active = is_text(&trim_exec(&field(line, "Active: ", " Blocked: ")), "true");
    let blocked = is_text(&trim_exec(&field(line, "Blocked: ", " Members: ")), "true");
    let name = string_of(&trim_exec(&field(line, "Name: ", " Description: ")));
    let newline_mark = chars_of("␤ 🡿 ");
    let description = string_of(
        &replace_char_exec(&field(line, "Description: ", " Active: "), '\n', &newline_mark),
    );
    let members = member_strings(line, "Members: [", "] Pending members");
    let pending_members = member_strings(line, "Pending members: [", "] Requesting members: ");
    let requesting_members = member_strings(line, "Requesting members: [", "] Admins: ");
    let admins = member_strings(line, "Admins: [", "] Banned: ");
    let banned = member_strings(line, "Banned: [", "] Message expiration: ");
    proof {
        reveal_strlit(" ");
    }
    let link = string_of(&last_piece(line, " "));
    let message_expiration = group_expiration_exec(&field(line, "Message expiration: ", "Link: "));
    Group {
        id,
        numeric_id: (index % 65536) as u16,
        name,
        description,
        active,
        blocked,
        members,
        pending_members,
        requesting_members,
        admins,
        banned,
        message_expiration,
        link,
    }
}

/// Reads the contacts that `signal-cli listContacts` printed: one contact per
/// line, numbered from 0 in the order of the lines.
pub fn get_recipients(input: &str) -> (r: Vec<Contact>)
    ensures
        reads_contacts(r@, input@),
{
    let v = chars_of(input);
    let ls = lines_exec(&v);
    let ghost all = lines(input@);
    assert(ls@.len() == all.len());
    let mut contacts: Vec<Contact> = Vec::new();
    let mut index: usize = 0;
    while index < ls.len()
        invariant
            index <= ls.len(),
            all == ls@.map_values(|x: Vec<char>| x@),
            contacts@.len() == index,
            forall|i: int| 0 <= i < index ==> contact_read(#[trigger] contacts@[i], all[i], i),
        decreases ls.len() - index,
    {
        assert(ls[index as int]@ == all[index as int]);
        let contact = contact_of_line(&ls[index], index);
        contacts.push(contact);
        index += 1;
    }
    contacts
}

/// Reads the groups that `signal-cli listGroups -d` printed: one group per
/// piece of the text between line breaks, numbered from 0.
pub fn get_groups(input: &str) -> (r: Vec<Group>)
    ensures
        reads_groups(r@, input@),
{
    let v = chars_of(input);
    let newline = chars_of("\n");
    proof {
        reveal_strlit("\n");
    }
    let ls = split_exec(&v, &newline);
    let ghost all = split(input@, "\n"@);
    assert(ls@.len() == all.len());
    let mut groups: Vec<Group> = Vec::new();
    let mut index: usize = 0;
    while index < ls.len()
        invariant
            index <= ls.len(),
            all == ls@.map_values(|x: Vec<char>| x@),
            groups@.len() == index,
            forall|i: int| 0 <= i < index ==> group_read(#[trigger] groups@[i], all[i], i),
        decreases ls.len() - index,
    {
        assert(ls[index as int]@ == all[index as int]);
        let group = group_of_line(&ls[index], index);
        groups.push(group);
        index += 1;
    }
    groups
}

/// The second word of a listing, where `signal-cli` puts the account's own
/// number (`Number: +4912345`).
pub fn get_account_number(contacts: &str) -> (r: String)
    requires
        words(contacts@).len() >= 2,
    ensures
        r@ == words(contacts@)[1],
{
    let v = chars_of(contacts);
    let ws = words_exec(&v);
    assert(ws[1]@ == words(contacts@)[1]);
    string_of(&ws[1])
}

#[verifier::external_type_specification]
#[verifier::external_body]
pub struct ExSystemTime(std::time::SystemTime);

/// `SystemTime::now`: the machine's clock, which nothing here can predict.
#[verifier::external_body]
fn clock_now() -> std::time::SystemTime {
    std::time::SystemTime::now()
}

/// `SystemTime::duration_since(UNIX_EPOCH)`: the time elapsed since the Unix
/// epoch, or `None` where `t` lies before it. Nothing is stated of the value.
#[verifier::external_body]
fn elapsed_since_epoch(t: std::time::SystemTime) -> Option<std::time::Duration> {
    t.duration_since(std::time::UNIX_EPOCH).ok()
}

/// `Duration::as_secs`: the whole seconds of `d`. Nothing is stated of the
/// value, since `d` is opaque here.
#[verifier::external_body]
fn whole_seconds(d: &std::time::Duration) -> u64 {
    d.as_secs()
}

/// The whole seconds since the Unix epoch on the machine's clock, or `None`
/// where the clock stands before the epoch.
pub fn system_time_seconds() -> Option<u64> {
    match elapsed_since_epoch(clock_now()) {
        Some(d) => Some(whole_seconds(&d)),
        None => None,
    }
}

/// An occurrence inside a prefix of `s` is an occurrence in that prefix.
proof fn lemma_occurs_in_prefix(t: Seq<char>, u: Seq<char>, p: Seq<char>, i: int)
    requires
        occurs_at(t + u, p, i),
        i + p.len() <= t.len(),
    ensures
        occurs_at(t, p, i),
{
    assert((t + u).subrange(i, i + p.len()) =~= t.subrange(i, i + p.len()));
}

/// Where `p` occurs at `|t|` in `t + p + u`, and nowhere before that in
/// `t + p`, the first occurrence of `p` is at `|t|`.
proof fn lemma_find_first_at(t: Seq<char>, p: Seq<char>, u: Seq<char>)
    requires
        first_at_end(t, p),
    ensures
        find(t + p + u, p) == Some(t.len() as int),
{
    let s = t + p + u;
    assert(s.subrange(t.len() as int, (t.len() + p.len()) as int) =~= p);
    assert(occurs_at(s, p, t.len() as int));
    lemma_find_from(s, p, 0);
    assert(s =~= (t + p) + u);
    assert forall|i: int| 0 <= i < t.len() implies !occurs_at(s, p, i) by {
        if occurs_at(s, p, i) {
            lemma_occurs_in_prefix(t + p, u, p, i);
        }
    }
}

/// Reading a field: in a text made of `x`, the label `start`, the value `v`,
/// the label `end` and anything `y`, the text between the labels is `v`,
/// where `start` first occurs at the end of `x + start` and `end` first
/// occurs at the end of `v + end`.
pub proof fn law_extract_between_reads_field(
    x: Seq<char>,
    start: Seq<char>,
    v: Seq<char>,
    end: Seq<char>,
    y: Seq<char>,
)
    requires
        first_at_end(x, start),
        first_at_end(v, end),
    ensures
        between(x + start + v + end + y, start, end) == v,
{
    let s = x + start + v + end + y;
    assert(s =~= x + start + (v + end + y));
    lemma_find_first_at(x, start, v + end + y);
    let rest = s.subrange((x.len() + start.len()) as int, s.len() as int);
    assert(rest =~= v + end + y);
    lemma_find_first_at(v, end, y);
    assert(rest.subrange(0, v.len() as int) =~= v);
}

/// The labels around member list `k` of a group line: `0` the members,
/// `1` the pending members, `2` the requesting members, `3` the admins and
/// `4` the banned members.
pub open spec fn member_labels(k: int) -> (Seq<char>, Seq<char>) {
    if k == 0 {
        ("Members: ["@, "] Pending members"@)
    } else if k == 1 {
        ("Pending members: ["@, "] Requesting members: "@)
    } else if k == 2 {
        ("Requesting members: ["@, "] Admins: "@)
    } else if k == 3 {
        ("Admins: ["@, "] Banned: "@)
    } else {
        ("Banned: ["@, "] Message expiration: "@)
    }
}

/// Member list `k` of a group, numbered as in `member_labels`.
pub open spec fn member_field(g: Group, k: int) -> Seq<String> {
    if k == 0 {
        g.members@
    } else if k == 1 {
        g.pending_members@
    } else if k == 2 {
        g.requesting_members@
    } else if k == 3 {
        g.admins@
    } else {
        g.banned@
    }
}

/// A member list reads back: where a group line writes one of its lists
/// (members, pending, requesting, admins or banned) as `m1, m2, ..., mk`
/// between its labels, the group read from that line has exactly `m1` to
/// `mk` in that list, in that order, with nothing added to or taken from
/// any of them. Each member is taken to hold no `, ` and not to end with `,`
/// (so that `, ` first follows it where the list puts it), and the labels to
/// first occur where the list is; an empty list (`[]`) reads as one empty
/// member.
pub proof fn law_group_member_lists_read_back(
    g: Group,
    line: Seq<char>,
    index: int,
    k: int,
    x: Seq<char>,
    m: Seq<Seq<char>>,
    y: Seq<char>,
)
    requires
        0 <= k < 5,
        group_read(g, line, index),
        line == x + member_labels(k).0 + join(m, ", "@) + member_labels(k).1 + y,
        first_at_end(x, member_labels(k).0),
        first_at_end(join(m, ", "@), member_labels(k).1),
        m.len() >= 1,
        forall|i: int| 0 <= i < m.len() ==> first_at_end(#[trigger] m[i], ", "@),
    ensures
        texts(member_field(g, k)) == m,
{
    reveal_strlit(", ");
    let (start, end) = member_labels(k);
    law_extract_between_reads_field(x, start, join(m, ", "@), end, y);
    lemma_split_of_join(m, ", "@);
    assert(member_list(line, start, end) == m);
}

/// An expiration of `n` seconds, written as `signal-cli` writes it (the
/// decimal digits of `n`, then `s`), reads back as `n` seconds, both by the
/// reading of a contact line's expiration and by that of a group's
/// expiration field; `disabled` reads back as disabled. In a whole group line
/// as `signal-cli` prints it, the field that `get_groups` takes runs up to
/// `Link: ` and keeps the space before it, so such a group reads as disabled.
pub proof fn law_expiration_reads_back(n: u32)
    ensures
        contact_expiration(decimal(n as nat) + "s"@) == MessageExpiration::TimeInSeconds(n),
        group_expiration(decimal(n as nat) + "s"@) == MessageExpiration::TimeInSeconds(n),
        contact_expiration("disabled"@) == MessageExpiration::Disabled,
        group_expiration("disabled"@) == MessageExpiration::Disabled,
{
    reveal_strlit("s");
    reveal_strlit("disabled");
    let d = decimal(n as nat);
    lemma_decimal_spells(n as nat);
    let w = d + "s"@;
    assert(w =~= d.push('s'));
    assert(is_digit(d[0]));
    assert(w[0] == d[0]);
    assert(w != "disabled"@) by {
        assert("disabled"@[0] == 'd');
    }
    lemma_drop_back_digits(d, 's');
    lemma_drop_front_digit_start(w, 's');
    assert(trim_end_char(w, 's') == d);
    assert(trim_char(w, 's') == d);
    assert(parse_u32(d) == Some(n)) by {
        assert(!(d.len() > 0 && d[0] == '+'));
    }
}

/// Two decimal digits, padded, spell `n`.
proof fn lemma_two_digits(n: nat)
    requires
        n < 100,
    ensures
        two_digits(n) == seq![digit_char(n / 10), digit_char(n % 10)],
{
    reveal_with_fuel(decimal, 2);
    if n < 10 {
        assert(two_digits(n) =~= seq![digit_char(n / 10), digit_char(n % 10)]);
    } else {
        assert(decimal(n / 10) == seq![digit_char(n / 10)]);
        assert(two_digits(n) =~= seq![digit_char(n / 10), digit_char(n % 10)]);
    }
}

proof fn lemma_digit_char_injective(a: nat, b: nat)
    requires
        a < 10,
        b < 10,
        digit_char(a) == digit_char(b),
    ensures
        a == b,
{
    assert((a + '0' as nat) as char as int == a + 48);
    assert((b + '0' as nat) as char as int == b + 48);
}

proof fn lemma_clock_text(rest: nat)
    requires
        rest < 86400,
    ensures
        clock_text(rest) == seq![
            digit_char(rest / 3600 / 10),
            digit_char(rest / 3600 % 10),
            ':',
            digit_char(rest % 3600 / 60 / 10),
            digit_char(rest % 3600 / 60 % 10),
            ':',
            digit_char(rest % 60 / 10),
            digit_char(rest % 60 % 10),
        ],
{
    lemma_two_digits(rest / 3600);
    lemma_two_digits(rest % 3600 / 60);
    lemma_two_digits(rest % 60);
    assert(clock_text(rest) =~= seq![
        digit_char(rest / 3600 / 10),
        digit_char(rest / 3600 % 10),
        ':',
        digit_char(rest % 3600 / 60 / 10),
        digit_char(rest % 3600 / 60 % 10),
        ':',
        digit_char(rest % 60 / 10),
        digit_char(rest % 60 % 10),
    ]);
}

proof fn lemma_clock_text_injective(a: nat, b: nat)
    requires
        a < 86400,
        b < 86400,
        clock_text(a) == clock_text(b),
    ensures
        a == b,
{
    lemma_clock_text(a);
    lemma_clock_text(b);
    let ca = clock_text(a);
    let cb = clock_text(b);
    assert(ca[0] == cb[0] && ca[1] == cb[1] && ca[3] == cb[3] && ca[4] == cb[4] && ca[6] == cb[6]
        && ca[7] == cb[7]);
    lemma_digit_char_injective(a / 3600 / 10, b / 3600 / 10);
    lemma_digit_char_injective(a / 3600 % 10, b / 3600 % 10);
    lemma_digit_char_injective(a % 3600 / 60 / 10, b % 3600 / 60 / 10);
    lemma_digit_char_injective(a % 3600 / 60 % 10, b % 3600 / 60 % 10);
    lemma_digit_char_injective(a % 60 / 10, b % 60 / 10);
    lemma_digit_char_injective(a % 60 % 10, b % 60 % 10);
    assert(a / 3600 == b / 3600);
    assert(a % 3600 / 60 == b % 3600 / 60);
    assert(a % 60 == b % 60);
    assert(a == a / 3600 * 3600 + a % 3600 / 60 * 60 + a % 60);
    assert(b == b / 3600 * 3600 + b % 3600 / 60 * 60 + b % 60);
}

/// Different durations are never shown alike: the text that
/// `format_time_from_seconds` gives determines the number of seconds.
#[verifier::spinoff_prover]
#[verifier::rlimit(40)]
pub proof fn law_time_text_determines_seconds(a: nat, b: nat)
    requires
        time_text(a) == time_text(b),
    ensures
        a == b,
{
    reveal_strlit(" day, ");
    reveal_strlit(" days, ");
    let da = a / 86400;
    let db = b / 86400;
    let ra = a % 86400;
    let rb = b % 86400;
    lemma_clock_text(ra);
    lemma_clock_text(rb);
    assert(time_text(a) == (if da < 1 { clock_text(ra) } else if da == 1 { decimal(da) + " day, "@ + clock_text(ra) } else { decimal(da) + " days, "@ + clock_text(ra) }));
    assert(time_text(b) == (if db < 1 { clock_text(rb) } else if db == 1 { decimal(db) + " day, "@ + clock_text(rb) } else { decimal(db) + " days, "@ + clock_text(rb) }));
    lemma_decimal_spells(da);
    lemma_decimal_spells(db);
    let ta = time_text(a);
    let tb = time_text(b);
    let n = ta.len();
    // the clock is the last eight characters in every case
    assert(ta.subrange(n - 8, n as int) =~= clock_text(ra));
    assert(tb.subrange(n - 8, n as int) =~= clock_text(rb));
    lemma_clock_text_injective(ra, rb);
    if da >= 1 && db >= 1 {
        let pa = ta.subrange(0, n - 8);
        let pb = tb.subrange(0, n - 8);
        let sa = if da == 1 { " day, "@ } else { " days, "@ };
        let sb = if db == 1 { " day, "@ } else { " days, "@ };
        assert(pa =~= decimal(da) + sa);
        assert(pb =~= decimal(db) + sb);
        assert(pa[pa.len() - 3] == sa[sa.len() - 3]);
        assert(pb[pb.len() - 3] == sb[sb.len() - 3]);
        assert(sa == sb);
        assert(decimal(da) =~= pa.subrange(0, pa.len() - sa.len()));
        assert(decimal(db) =~= pb.subrange(0, pb.len() - sb.len()));
    }
    assert(a == da * 86400 + ra);
    assert(b == db * 86400 + rb);
}

/// How `signal-cli` writes an expiration setting in a listing.
pub open spec fn expiration_word(e: MessageExpiration) -> Seq<char> {
    match e {
        MessageExpiration::TimeInSeconds(n) => decimal(n as nat) + "s"@,
        MessageExpiration::Disabled => "disabled"@,
    }
}

/// A line of `signal-cli listContacts`, with the given values; `middle`
/// stands for the fields between the user name and the blocked flag.
pub open spec fn contact_listing_line(
    number: Seq<char>,
    account: Seq<char>,
    name: Seq<char>,
    profile: Seq<char>,
    middle: Seq<char>,
    blocked: bool,
    expiration: MessageExpiration,
) -> Seq<char> {
    "Number: "@ + number + " ACI: "@ + account + " Name: "@ + name + " Profile name: "@ + profile
        + " Username: "@ + middle + " Blocked: "@ + (if blocked { "true"@ } else { "false"@ })
        + " Message expiration: "@ + expiration_word(expiration)
}

spec fn ten_to(k: nat) -> nat
    decreases k,
{
    if k == 0 {
        1
    } else {
        10 * ten_to((k - 1) as nat)
    }
}

proof fn lemma_decimal_short(n: nat, k: nat)
    requires
        k >= 1,
        n < ten_to(k),
    ensures
        decimal(n).len() <= k,
    decreases k,
{
    if n >= 10 {
        assert(k >= 2) by {
            if k == 1 {
                assert(ten_to(1) == 10 * ten_to(0));
            }
        }
        assert(n / 10 < ten_to((k - 1) as nat));
        lemma_decimal_short(n / 10, (k - 1) as nat);
    }
}

/// Where `p` first occurs in `x + p + v` at the end of `x` and never inside
/// `v`, the last piece of the split at `p` is `v`.
proof fn lemma_split_last(x: Seq<char>, p: Seq<char>, v: Seq<char>)
    requires
        p.len() > 0,
        first_at_end(x, p),
        forall|i: int| !occurs_at(v, p, i),
    ensures
        split(x + p + v, p).last() == v,
{
    let s = x + p + v;
    lemma_find_first_at(x, p, v);
    let k = (x.len() + p.len()) as int;
    lemma_find_from(s, p, k);
    if find_from(s, p, k) is Some {
        let i = find_from(s, p, k)->0;
        assert(s.subrange(i, i + p.len()) =~= v.subrange(i - k, i - k + p.len()));
        assert(occurs_at(v, p, i - k));
    }
    assert(split_from(s, p, 0) == seq![s.subrange(0, x.len() as int)] + split_from(s, p, k));
    assert(split_from(s, p, k) == seq![s.subrange(k, s.len() as int)]);
    assert(s.subrange(k, s.len() as int) =~= v);
}

/// Text shorter than `p` holds no occurrence of it.
proof fn lemma_too_short(v: Seq<char>, p: Seq<char>)
    requires
        v.len() < p.len(),
    ensures
        forall|i: int| !occurs_at(v, p, i),
{
}

/// A word of letters holds no part of an occurrence of a label that starts
/// with a space.
proof fn lemma_letters_then_label(w: Seq<char>, label: Seq<char>)
    requires
        label.len() > 0,
        label[0] == ' ',
        forall|i: int| 0 <= i < w.len() ==> w[i] != ' ',
    ensures
        first_at_end(w, label),
{
    assert forall|i: int| 0 <= i < w.len() implies !occurs_at(w + label, label, i) by {
        if occurs_at(w + label, label, i) {
            assert((w + label).subrange(i, i + label.len())[0] == (w + label)[i]);
        }
    }
}

/// The four named fields at the start of a contact line read back.
proof fn lemma_contact_name_fields(
    number: Seq<char>,
    account: Seq<char>,
    name: Seq<char>,
    profile: Seq<char>,
    tail: Seq<char>,
)
    requires
        first_at_end(number, " ACI: "@),
        first_at_end("Number: "@ + number, " ACI: "@),
        first_at_end(account, " Name: "@),
        first_at_end("Number: "@ + number + " ACI: "@ + account, " Name: "@),
        first_at_end(name, " Profile name: "@),
        first_at_end("Number: "@ + number + " ACI: "@ + account + " Name: "@ + name, " Profile name: "@),
        first_at_end(profile, " Username: "@),
    ensures
        ({
            let line = "Number: "@ + number + " ACI: "@ + account + " Name: "@ + name + " Profile name: "@
                + profile + " Username: "@ + tail;
            &&& between(line, "Number: "@, " ACI: "@) == number
            &&& between(line, " ACI: "@, " Name: "@) == account
            &&& between(line, " Name: "@, " Profile name: "@) == name
            &&& between(line, " Profile name: "@, " Username: "@) == profile
        }),
{
    let l0 = "Number: "@;
    let l1 = " ACI: "@;
    let l2 = " Name: "@;
    let l3 = " Profile name: "@;
    let l4 = " Username: "@;
    let line = l0 + number + l1 + account + l2 + name + l3 + profile + l4 + tail;
    let empty = Seq::<char>::empty();
    assert(first_at_end(empty, l0));
    assert(empty + l0 =~= l0);
    assert(line =~= empty + l0 + number + l1 + (account + l2 + name + l3 + profile + l4 + tail));
    law_extract_between_reads_field(empty, l0, number, l1, account + l2 + name + l3 + profile + l4 + tail);
    assert(line =~= (l0 + number) + l1 + account + l2 + (name + l3 + profile + l4 + tail));
    law_extract_between_reads_field(l0 + number, l1, account, l2, name + l3 + profile + l4 + tail);
    assert(line =~= (l0 + number + l1 + account) + l2 + name + l3 + (profile + l4 + tail));
    law_extract_between_reads_field(l0 + number + l1 + account, l2, name, l3, profile + l4 + tail);
    assert(line =~= (l0 + number + l1 + account + l2 + name) + l3 + profile + l4 + tail);
    law_extract_between_reads_field(l0 + number + l1 + account + l2 + name, l3, profile, l4, tail);
}

/// Reading back a contact line: what `get_recipients` reads from a line
/// that `signal-cli listContacts` wrote is the number, account, name,
/// profile name, blocked flag and expiration that the line states, where no
/// value holds the label that ends it and no label occurs before its place.
pub proof fn law_contact_line_reads_back(
    c: Contact,
    index: int,
    number: Seq<char>,
    account: Seq<char>,
    name: Seq<char>,
    profile: Seq<char>,
    middle: Seq<char>,
    blocked: bool,
    expiration: MessageExpiration,
)
    requires
        contact_read(c, contact_listing_line(number, account, name, profile, middle, blocked, expiration), index),
        first_at_end(number, " ACI: "@),
        first_at_end("Number: "@ + number, " ACI: "@),
        first_at_end(account, " Name: "@),
        first_at_end("Number: "@ + number + " ACI: "@ + account, " Name: "@),
        first_at_end(name, " Profile name: "@),
        first_at_end("Number: "@ + number + " ACI: "@ + account + " Name: "@ + name, " Profile name: "@),
        first_at_end(profile, " Username: "@),
        first_at_end(
            "Number: "@ + number + " ACI: "@ + account + " Name: "@ + name + " Profile name: "@ + profile
                + " Username: "@ + middle,
            " Blocked: "@,
        ),
        first_at_end(
            "Number: "@ + number + " ACI: "@ + account + " Name: "@ + name + " Profile name: "@ + profile
                + " Username: "@ + middle + " Blocked: "@ + (if blocked { "true"@ } else { "false"@ }),
            " Message expiration: "@,
        ),
    ensures
        c.number@ == number,
        c.account_identifier@ == account,
        c.name@ == name,
        c.profile_name@ == profile,
        c.blocked == blocked,
        c.message_expiration == expiration,
{
    reveal_strlit("Number: ");
    reveal_strlit(" ACI: ");
    reveal_strlit(" Name: ");
    reveal_strlit(" Profile name: ");
    reveal_strlit(" Username: ");
    reveal_strlit(" Blocked: ");
    reveal_strlit(" Message expiration: ");
    reveal_strlit("true");
    reveal_strlit("false");
    reveal_strlit("disabled");
    reveal_strlit("s");
    let l0 = "Number: "@;
    let l1 = " ACI: "@;
    let l2 = " Name: "@;
    let l3 = " Profile name: "@;
    let l4 = " Username: "@;
    let l5 = " Blocked: "@;
    let l6 = " Message expiration: "@;
    let flag = if blocked { "true"@ } else { "false"@ };
    let word = expiration_word(expiration);
    let line = contact_listing_line(number, account, name, profile, middle, blocked, expiration);
    lemma_contact_name_fields(number, account, name, profile, middle + l5 + flag + l6 + word);
    assert(line =~= l0 + number + l1 + account + l2 + name + l3 + profile + l4 + (middle + l5 + flag + l6 + word));
    // blocked flag
    assert forall|i: int| 0 <= i < flag.len() implies flag[i] != ' ' by {}
    lemma_letters_then_label(flag, l6);
    let before_flag = l0 + number + l1 + account + l2 + name + l3 + profile + l4 + middle;
    assert(line =~= before_flag + l5 + flag + l6 + word);
    law_extract_between_reads_field(before_flag, l5, flag, l6, word);
    assert(trim(flag) == flag) by {
        assert(!is_white(flag[0]));
        assert(!is_white(flag.last()));
    }
    assert(flag != "true"@ ==> !blocked);
    // expiration
    match expiration {
        MessageExpiration::TimeInSeconds(n) => {
            reveal_with_fuel(ten_to, 11);
            assert(ten_to(10) == 10000000000);
            lemma_decimal_short(n as nat, 10);
        },
        MessageExpiration::Disabled => {},
    }
    assert(word.len() < l6.len());
    lemma_too_short(word, l6);
    assert(line =~= (before_flag + l5 + flag) + l6 + word);
    lemma_split_last(before_flag + l5 + flag, l6, word);
    match expiration {
        MessageExpiration::TimeInSeconds(n) => {
            law_expiration_reads_back(n);
        },
        MessageExpiration::Disabled => {
            law_expiration_reads_back(0);
        },
    }
}

} // verus!
