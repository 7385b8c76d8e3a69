use arp_spoof_detector::alert::{alert_events, AlertEvent};
use arp_spoof_detector::cache::{BindingCache, Conflict, CycleOutcome};
use arp_spoof_detector::local::{detector, run_cycle};

#[test]
fn clean_event_serializes_to_the_heartbeat() {
    assert_eq!(
        AlertEvent::ClientClean.to_json(),
        "{\"description\":\"ARP spoofing not detected\"}"
    );
}

#[test]
fn conflict_event_serializes_with_all_four_members_in_order() {
    let event = AlertEvent::SpoofDetected {
        ip: 0x0a00_0005,
        old_mac: "aa:aa".to_string(),
        new_mac: "bb:bb".to_string(),
    };
    assert_eq!(
        event.to_json(),
        "{\"description\":\"ARP spoofing detected\",\"ip\":\"10.0.0.5\",\"First MAC\":\"aa:aa\",\"Second MAC\":\"bb:bb\"}"
    );
}

#[test]
fn hardware_addresses_are_escaped_as_json_strings() {
    let event = AlertEvent::SpoofDetected {
        ip: 0xc0a8_0001,
        old_mac: "a\"b\\c".to_string(),
        new_mac: "line\nbreak\u{e9}".to_string(),
    };
    assert_eq!(
        event.to_json(),
        "{\"description\":\"ARP spoofing detected\",\"ip\":\"192.168.0.1\",\"First MAC\":\"a\\\"b\\\\c\",\"Second MAC\":\"line\\nbreak\u{e9}\"}"
    );
}

#[test]
fn event_from_conflict_carries_its_fields() {
    let conflict =
        Conflict { ip: 7, old_mac: "aa:aa".to_string(), new_mac: "bb:bb".to_string() };
    assert_eq!(
        AlertEvent::from_conflict(&conflict),
        AlertEvent::SpoofDetected {
            ip: 7,
            old_mac: "aa:aa".to_string(),
            new_mac: "bb:bb".to_string()
        }
    );
}

#[test]
fn one_event_per_conflict_or_one_heartbeat() {
    let clean = CycleOutcome { conflicts: vec![], is_spoofed: false };
    assert_eq!(alert_events(&clean), vec![AlertEvent::ClientClean]);

    let first = Conflict { ip: 1, old_mac: "a".to_string(), new_mac: "b".to_string() };
    let second = Conflict { ip: 2, old_mac: "c".to_string(), new_mac: "d".to_string() };
    let spoofed =
        CycleOutcome { conflicts: vec![first.clone(), second.clone()], is_spoofed: true };
    assert_eq!(
        alert_events(&spoofed),
        vec![AlertEvent::from_conflict(&first), AlertEvent::from_conflict(&second)]
    );
}

#[test]
fn cycle_gives_the_messages_to_send() {
    let mut cache = BindingCache::new();
    assert_eq!(
        run_cycle(&mut cache, "10.0.0.5 aa:aa eth0\n10.0.0.6 cc:cc eth0\n"),
        vec!["{\"description\":\"ARP spoofing not detected\"}"]
    );
    assert_eq!(
        run_cycle(&mut cache, "10.0.0.5 bb:bb eth0\n10.0.0.6 dd:dd eth0\n"),
        vec![
            "{\"description\":\"ARP spoofing detected\",\"ip\":\"10.0.0.5\",\"First MAC\":\"aa:aa\",\"Second MAC\":\"bb:bb\"}",
            "{\"description\":\"ARP spoofing detected\",\"ip\":\"10.0.0.6\",\"First MAC\":\"cc:cc\",\"Second MAC\":\"dd:dd\"}",
        ]
    );
    assert_eq!(
        run_cycle(&mut cache, "10.0.0.5 bb:bb eth0\n"),
        vec!["{\"description\":\"ARP spoofing not detected\"}"]
    );
}

#[test]
fn detector_decodes_the_command_output() {
    let mut cache = BindingCache::new();
    assert_eq!(
        detector(&mut cache, b"10.0.0.5 aa:aa eth0\n"),
        vec!["{\"description\":\"ARP spoofing not detected\"}"]
    );
    assert_eq!(cache.get(0x0a00_0005), Some("aa:aa".to_string()));
    assert_eq!(
        detector(&mut cache, b"10.0.0.5 bb:bb eth0\n"),
        vec!["{\"description\":\"ARP spoofing detected\",\"ip\":\"10.0.0.5\",\"First MAC\":\"aa:aa\",\"Second MAC\":\"bb:bb\"}"]
    );
}

#[test]
fn detector_drops_a_byte_order_mark() {
    let mut cache = BindingCache::new();
    detector(&mut cache, b"\xEF\xBB\xBF10.0.0.5 aa:aa eth0\n");
    assert_eq!(cache.len(), 1);
    assert_eq!(cache.get(0x0a00_0005), Some("aa:aa".to_string()));
}

#[test]
fn detector_replaces_malformed_bytes() {
    let mut cache = BindingCache::new();
    detector(&mut cache, b"10.0.0.5 aa\xFFaa eth0\n10.0.0.6\xFF bb:bb eth0\n");
    assert_eq!(cache.len(), 1);
    assert_eq!(cache.get(0x0a00_0005), Some("aa\u{fffd}aa".to_string()));
    assert_eq!(cache.get(0x0a00_0006), None);
}

#[test]
fn detector_follows_a_utf16_byte_order_mark() {
    let mut output: Vec<u8> = vec![0xFF, 0xFE];
    for unit in "10.0.0.5 aa:aa eth0\n".encode_utf16() {
        output.extend_from_slice(&unit.to_le_bytes());
    }
    let mut cache = BindingCache::new();
    detector(&mut cache, &output);
    assert_eq!(cache.get(0x0a00_0005), Some("aa:aa".to_string()));
}

#[test]
fn message_reads_back_as_an_object_of_strings() {
    let event = AlertEvent::SpoofDetected {
        ip: 0xac10_0001,
        old_mac: "00-1a\t\"x\"".to_string(),
        new_mac: "\u{1}\\\u{7f}".to_string(),
    };
    let value: serde_json::Value = serde_json::from_str(&event.to_json()).unwrap();
    let object = value.as_object().unwrap();
    let names: Vec<&str> = object.keys().map(String::as_str).collect();
    assert_eq!(names, vec!["description", "ip", "First MAC", "Second MAC"]);
    assert_eq!(object["description"].as_str(), Some("ARP spoofing detected"));
    assert_eq!(object["ip"].as_str(), Some("172.16.0.1"));
    assert_eq!(object["First MAC"].as_str(), Some("00-1a\t\"x\""));
    assert_eq!(object["Second MAC"].as_str(), Some("\u{1}\\\u{7f}"));
}
