//! Alert events and their wire form.
//!
//! Every cycle ends in alerts for the collector: one per conflict, or a
//! single heartbeat that says that nothing was found. An alert travels as
//! one compact JSON object whose members are strings. The names of the
//! members are what collectors go by.

use crate::cache::{Conflict, CycleOutcome, SpecConflict};
use crate::ipv4::{format_ipv4, ipv4_text, lemma_ipv4_text_chars};
use vstd::prelude::*;

verus! {

/// An alert as contracts speak of it.
pub enum SpecAlert {
    SpoofDetected { ip: u32, old_mac: Seq<char>, new_mac: Seq<char> },
    ClientClean,
}

/// What is reported to the collector: a conflict, or a cycle without one.
#[derive(Debug, Clone, PartialEq, Eq)]
pub enum AlertEvent {
    SpoofDetected { ip: u32, old_mac: String, new_mac: String },
    ClientClean,
}

impl View for AlertEvent {
    type V = SpecAlert;

    open spec fn view(&self) -> SpecAlert {
        match self {
            AlertEvent::SpoofDetected { ip, old_mac, new_mac } => SpecAlert::SpoofDetected {
                ip: *ip,
                old_mac: old_mac@,
                new_mac: new_mac@,
            },
            AlertEvent::ClientClean => SpecAlert::ClientClean,
        }
    }
}

/// The alerts of `events` as contracts speak of them.
pub open spec fn alert_views(events: Seq<AlertEvent>) -> Seq<SpecAlert> {
    events.map_values(|event: AlertEvent| event@)
}

/// The alert that reports `conflict`.
pub open spec fn alert_of(conflict: SpecConflict) -> SpecAlert {
    SpecAlert::SpoofDetected {
        ip: conflict.ip,
        old_mac: conflict.old_mac,
        new_mac: conflict.new_mac,
    }
}

/// The alerts of a cycle that gave `conflicts`: one for each conflict in
/// order, or the heartbeat alone if there was none.
pub open spec fn alerts_for(conflicts: Seq<SpecConflict>) -> Seq<SpecAlert> {
    if conflicts.len() == 0 {
        seq![SpecAlert::ClientClean]
    } else {
        conflicts.map_values(|conflict: SpecConflict| alert_of(conflict))
    }
}

/// The members of the JSON object that carries `alert`, as pairs of name
/// and value, in order.
pub open spec fn alert_members(alert: SpecAlert) -> Seq<(Seq<char>, Seq<char>)> {
    match alert {
        SpecAlert::SpoofDetected { ip, old_mac, new_mac } => seq![
            ("description"@, "ARP spoofing detected"@),
            ("ip"@, ipv4_text(ip)),
            ("First MAC"@, old_mac),
            ("Second MAC"@, new_mac),
        ],
        SpecAlert::ClientClean => seq![("description"@, "ARP spoofing not detected"@)],
    }
}

/// The pairs of `members` as pairs of character sequences.
pub open spec fn member_texts(members: Seq<(String, String)>) -> Seq<(Seq<char>, Seq<char>)> {
    members.map_values(|member: (String, String)| (member.0@, member.1@))
}

/// Whether JSON writes `c` inside a string as it is. That holds of every
/// character but the quotation mark, the backslash and the control
/// characters below U+0020, which are escaped.
pub open spec fn is_plain(c: char) -> bool {
    c != '"' && c != '\\' && c as u32 >= 0x20
}

/// Whether JSON writes every character of `text` as it is.
pub open spec fn is_plain_text(text: Seq<char>) -> bool {
    forall|i: int| 0 <= i < text.len() ==> is_plain(#[trigger] text[i])
}

/// Whether JSON writes every name and every value of `members` as it is.
pub open spec fn plain_members(members: Seq<(Seq<char>, Seq<char>)>) -> bool {
    forall|i: int|
        0 <= i < members.len() ==> is_plain_text((#[trigger] members[i]).0) && is_plain_text(
            members[i].1,
        )
}

/// Whether no two of `members` have the same name.
pub open spec fn distinct_names(members: Seq<(Seq<char>, Seq<char>)>) -> bool {
    forall|i: int, j: int|
        0 <= i < j < members.len() ==> (#[trigger] members[i]).0 != (#[trigger] members[j]).0
}

/// `text` between quotation marks.
pub open spec fn quoted(text: Seq<char>) -> Seq<char> {
    seq!['"'] + text + seq!['"']
}

/// One member: the quoted name, a colon, the quoted value.
pub open spec fn member_text(member: (Seq<char>, Seq<char>)) -> Seq<char> {
    quoted(member.0) + seq![':'] + quoted(member.1)
}

/// The members one after the other, with a comma between two of them.
pub open spec fn joined_members(members: Seq<(Seq<char>, Seq<char>)>) -> Seq<char>
    decreases members.len(),
{
    if members.len() == 0 {
        Seq::empty()
    } else if members.len() == 1 {
        member_text(members[0])
    } else {
        joined_members(members.drop_last()) + seq![','] + member_text(members.last())
    }
}

/// The members between braces: the compact JSON text of an object whose
/// names and values need no escaping.
pub open spec fn plain_object_text(members: Seq<(Seq<char>, Seq<char>)>) -> Seq<char> {
    seq!['{'] + joined_members(members) + seq!['}']
}

/// The compact JSON text of the object whose members are the given pairs of
/// name and string value, in the given order.
pub uninterp spec fn json_object_text(members: Seq<(Seq<char>, Seq<char>)>) -> Seq<char>;

/// Whether JSON writes the hardware addresses of `alert` as they are.
pub open spec fn is_plain_alert(alert: SpecAlert) -> bool {
    match alert {
        SpecAlert::SpoofDetected { ip, old_mac, new_mac } => is_plain_text(old_mac)
            && is_plain_text(new_mac),
        SpecAlert::ClientClean => true,
    }
}

/// The message that carries `alert`: its members as one compact JSON
/// object. Where a hardware address needs escaping the text is what the
/// JSON writer gives.
pub open spec fn alert_text(alert: SpecAlert) -> Seq<char> {
    if is_plain_alert(alert) {
        plain_object_text(alert_members(alert))
    } else {
        json_object_text(alert_members(alert))
    }
}

/// Collects the pairs into a `serde_json::Map`, each value as a
/// `serde_json::Value::String`, and writes the `Value::Object` of that map
/// with its `Display` impl, which gives compact JSON. Not verified. The
/// contract names the text, as what serde_json gives for these pairs in
/// this order. It claims what the text is only where the names differ and
/// nothing needs escaping: serde_json then writes a brace, the members in
/// the order in which they were put in, each as quoted name, colon and
/// quoted value with a comma between two, and a brace.
#[verifier::external_body]
fn json_object(members: &Vec<(String, String)>) -> (text: String)
    ensures
        text@ == json_object_text(member_texts(members@)),
        plain_members(member_texts(members@)) && distinct_names(member_texts(members@)) ==> text@
            == plain_object_text(member_texts(members@)),
{
    let object: serde_json::Map<String, serde_json::Value> = members
        .iter()
        .map(|(name, value)| (name.clone(), serde_json::Value::String(value.clone())))
        .collect();
    serde_json::Value::Object(object).to_string()
}

/// The names of the members of an alert differ, and neither they nor the
/// description and the address need escaping.
pub proof fn lemma_alert_members_plain(alert: SpecAlert)
    requires
        is_plain_alert(alert),
    ensures
        distinct_names(alert_members(alert)),
        plain_members(alert_members(alert)),
{
    reveal_strlit("description");
    reveal_strlit("ip");
    reveal_strlit("First MAC");
    reveal_strlit("Second MAC");
    reveal_strlit("ARP spoofing detected");
    reveal_strlit("ARP spoofing not detected");
    let members = alert_members(alert);
    assert("description"@[0] == 'd');
    assert("ip"@[0] == 'i');
    assert("First MAC"@[0] == 'F');
    assert("Second MAC"@[0] == 'S');
    assert(is_plain_text("description"@));
    assert(is_plain_text("ip"@));
    assert(is_plain_text("First MAC"@));
    assert(is_plain_text("Second MAC"@));
    assert(is_plain_text("ARP spoofing detected"@));
    assert(is_plain_text("ARP spoofing not detected"@));
    match alert {
        SpecAlert::SpoofDetected { ip, old_mac, new_mac } => {
            assert forall|i: int| 0 <= i < ipv4_text(ip).len() implies is_plain(
                #[trigger] ipv4_text(ip)[i],
            ) by {
                lemma_ipv4_text_chars(ip, i);
            }
        },
        SpecAlert::ClientClean => {},
    }
}

/// The heartbeat on the wire.
pub proof fn lemma_heartbeat_text()
    ensures
        plain_object_text(alert_members(SpecAlert::ClientClean))
            == "{\"description\":\"ARP spoofing not detected\"}"@,
{
    reveal_strlit("description");
    reveal_strlit("ARP spoofing not detected");
    reveal_strlit("{\"description\":\"ARP spoofing not detected\"}");
    let members = alert_members(SpecAlert::ClientClean);
    assert(joined_members(members) == member_text(members[0]));
    assert(plain_object_text(members) =~= "{\"description\":\"ARP spoofing not detected\"}"@);
}

/// A conflict on the wire, where its hardware addresses need no escaping.
pub proof fn lemma_conflict_text(ip: u32, old_mac: Seq<char>, new_mac: Seq<char>)
    ensures
        plain_object_text(alert_members(SpecAlert::SpoofDetected { ip, old_mac, new_mac }))
            == "{\"description\":\"ARP spoofing detected\",\"ip\":\""@ + ipv4_text(ip)
            + "\",\"First MAC\":\""@ + old_mac + "\",\"Second MAC\":\""@ + new_mac + "\"}"@,
{
    reveal_strlit("description");
    reveal_strlit("ip");
    reveal_strlit("First MAC");
    reveal_strlit("Second MAC");
    reveal_strlit("ARP spoofing detected");
    reveal_strlit("{\"description\":\"ARP spoofing detected\",\"ip\":\"");
    reveal_strlit("\",\"First MAC\":\"");
    reveal_strlit("\",\"Second MAC\":\"");
    reveal_strlit("\"}");
    let members = alert_members(SpecAlert::SpoofDetected { ip, old_mac, new_mac });
    let one = members.drop_last().drop_last().drop_last();
    let two = members.drop_last().drop_last();
    let three = members.drop_last();
    assert(joined_members(one) == member_text(members[0]));
    assert(joined_members(two) == joined_members(one) + seq![','] + member_text(members[1]));
    assert(joined_members(three) == joined_members(two) + seq![','] + member_text(members[2]));
    assert(joined_members(members) == joined_members(three) + seq![','] + member_text(
        members[3],
    ));
    assert(plain_object_text(members) =~= "{\"description\":\"ARP spoofing detected\",\"ip\":\""@
        + ipv4_text(ip) + "\",\"First MAC\":\""@ + old_mac + "\",\"Second MAC\":\""@ + new_mac
        + "\"}"@);
}

impl AlertEvent {
    /// The alert that reports `conflict`.
    pub fn from_conflict(conflict: &Conflict) -> (event: AlertEvent)
        ensures
            event@ == alert_of(conflict@),
    {
        AlertEvent::SpoofDetected {
            ip: conflict.ip,
            old_mac: conflict.old_mac.clone(),
            new_mac: conflict.new_mac.clone(),
        }
    }

    /// The message that carries this alert: a JSON object with the member
    /// `description`, and for a conflict the members `ip`, `First MAC` and
    /// `Second MAC` behind it.
    pub fn to_json(&self) -> (text: String)
        ensures
            text@ == alert_text(self@),
    {
        let mut members: Vec<(String, String)> = Vec::new();
        match self {
            AlertEvent::SpoofDetected { ip, old_mac, new_mac } => {
                members.push(("description".to_owned(), "ARP spoofing detected".to_owned()));
                members.push(("ip".to_owned(), format_ipv4(*ip)));
                members.push(("First MAC".to_owned(), old_mac.clone()));
                members.push(("Second MAC".to_owned(), new_mac.clone()));
            },
            AlertEvent::ClientClean => {
                members.push(("description".to_owned(), "ARP spoofing not detected".to_owned()));
            },
        }
        assert(member_texts(members@) == alert_members(self@));
        proof {
            if is_plain_alert(self@) {
                lemma_alert_members_plain(self@);
            }
        }
        json_object(&members)
    }
}

/// The alerts that a cycle with this outcome sends: one for each conflict
/// in order, or the heartbeat alone if there was none.
pub fn alert_events(outcome: &CycleOutcome) -> (events: Vec<AlertEvent>)
    ensures
        alert_views(events@) == alerts_for(outcome.conflict_views()),
{
    let mut events: Vec<AlertEvent> = Vec::new();
    let n = outcome.conflicts.len();
    if n == 0 {
        events.push(AlertEvent::ClientClean);
        assert(alert_views(events@) == seq![SpecAlert::ClientClean]);
        return events;
    }
    let mut i: usize = 0;
    while i < n
        invariant
            n == outcome.conflicts@.len(),
            i <= n,
            events@.len() == i,
            forall|k: int|
                0 <= k < i ==> (#[trigger] events@[k])@ == alert_of(outcome.conflicts@[k]@),
        decreases n - i,
    {
        events.push(AlertEvent::from_conflict(&outcome.conflicts[i]));
        i += 1;
    }
    assert(alert_views(events@) == alerts_for(outcome.conflict_views()));
    events
}

} // verus!
