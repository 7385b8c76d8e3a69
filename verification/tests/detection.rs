use arp_spoof_detector::cache::{parse_binding, parse_snapshot, Binding, BindingCache, Conflict};
use arp_spoof_detector::ipv4::parse_ipv4;

fn ip(text: &str) -> u32 {
    let chars: Vec<char> = text.chars().collect();
    parse_ipv4(&chars).unwrap()
}

fn binding(address: &str, mac: &str) -> Binding {
    Binding { ip: ip(address), mac: mac.to_string() }
}

fn conflict(address: &str, old_mac: &str, new_mac: &str) -> Conflict {
    Conflict { ip: ip(address), old_mac: old_mac.to_string(), new_mac: new_mac.to_string() }
}

#[test]
fn new_cache_is_empty() {
    let cache = BindingCache::new();
    assert_eq!(cache.len(), 0);
    assert_eq!(cache.get(ip("10.0.0.5")), None);
}

#[test]
fn end_to_end_three_cycles() {
    let mut cache = BindingCache::new();

    let first = cache.process_snapshot("10.0.0.5 aa:aa eth0");
    assert!(!first.is_spoofed);
    assert!(first.conflicts.is_empty());
    assert_eq!(cache.len(), 1);
    assert_eq!(cache.get(ip("10.0.0.5")), Some("aa:aa".to_string()));

    let second = cache.process_snapshot("10.0.0.5 bb:bb eth0");
    assert!(second.is_spoofed);
    assert_eq!(second.conflicts, vec![conflict("10.0.0.5", "aa:aa", "bb:bb")]);
    assert_eq!(cache.len(), 1);
    assert_eq!(cache.get(ip("10.0.0.5")), Some("bb:bb".to_string()));

    let third = cache.process_snapshot("10.0.0.5 bb:bb eth0");
    assert!(!third.is_spoofed);
    assert!(third.conflicts.is_empty());
    assert_eq!(cache.get(ip("10.0.0.5")), Some("bb:bb".to_string()));
}

#[test]
fn clean_snapshot_leaves_union_of_cache_and_bindings() {
    let mut cache = BindingCache::new();
    cache.process_snapshot("10.0.0.1 aa:01 eth0\n10.0.0.2 aa:02 eth0\n");

    let outcome = cache.process_snapshot("10.0.0.2 aa:02 eth0\n10.0.0.3 aa:03 eth0\n");
    assert!(!outcome.is_spoofed);
    assert!(outcome.conflicts.is_empty());
    assert_eq!(cache.len(), 3);
    assert_eq!(cache.get(ip("10.0.0.1")), Some("aa:01".to_string()));
    assert_eq!(cache.get(ip("10.0.0.2")), Some("aa:02".to_string()));
    assert_eq!(cache.get(ip("10.0.0.3")), Some("aa:03".to_string()));
}

#[test]
fn changed_hardware_address_gives_exactly_one_conflict() {
    let mut cache = BindingCache::new();
    cache.process_snapshot("192.168.1.1 aa:aa eth0\n192.168.1.2 cc:cc eth0");

    let outcome = cache.process_snapshot("192.168.1.2 cc:cc eth0\n192.168.1.1 bb:bb eth0\n");
    assert!(outcome.is_spoofed);
    assert_eq!(outcome.conflicts, vec![conflict("192.168.1.1", "aa:aa", "bb:bb")]);
    assert_eq!(cache.get(ip("192.168.1.1")), Some("bb:bb".to_string()));
    assert_eq!(cache.get(ip("192.168.1.2")), Some("cc:cc".to_string()));
}

#[test]
fn same_snapshot_twice_gives_no_conflict_the_second_time() {
    let snapshot = "10.1.1.1 aa:aa eth0\n10.1.1.2 bb:bb eth0\n10.1.1.1 aa:aa wlan0\n";
    let mut cache = BindingCache::new();
    cache.process_snapshot("10.1.1.1 ff:ff eth0");

    let first = cache.process_snapshot(snapshot);
    assert_eq!(first.conflicts, vec![conflict("10.1.1.1", "ff:ff", "aa:aa")]);
    let after_first = (cache.get(ip("10.1.1.1")), cache.get(ip("10.1.1.2")), cache.len());

    let second = cache.process_snapshot(snapshot);
    assert!(!second.is_spoofed);
    assert!(second.conflicts.is_empty());
    let after_second = (cache.get(ip("10.1.1.1")), cache.get(ip("10.1.1.2")), cache.len());
    assert_eq!(after_first, after_second);
}

#[test]
fn snapshot_with_two_addresses_for_one_ip_conflicts_on_every_feed() {
    let snapshot = "10.0.0.5 aa:aa eth0\n10.0.0.5 bb:bb eth0\n";
    let mut cache = BindingCache::new();

    let first = cache.process_snapshot(snapshot);
    assert_eq!(first.conflicts, vec![conflict("10.0.0.5", "aa:aa", "bb:bb")]);
    assert_eq!(cache.get(ip("10.0.0.5")), Some("bb:bb".to_string()));

    let second = cache.process_snapshot(snapshot);
    assert_eq!(
        second.conflicts,
        vec![conflict("10.0.0.5", "bb:bb", "aa:aa"), conflict("10.0.0.5", "aa:aa", "bb:bb")]
    );
    assert!(second.is_spoofed);
}

#[test]
fn repeated_ip_in_one_snapshot_is_compared_line_by_line() {
    let mut cache = BindingCache::new();
    cache.process_snapshot("10.0.0.9 00:00 eth0");

    let outcome = cache.process_snapshot("10.0.0.9 11:11 eth0\n10.0.0.9 22:22 eth0\n");
    assert_eq!(
        outcome.conflicts,
        vec![conflict("10.0.0.9", "00:00", "11:11"), conflict("10.0.0.9", "11:11", "22:22")]
    );
    assert_eq!(cache.get(ip("10.0.0.9")), Some("22:22".to_string()));
}

#[test]
fn third_observation_is_compared_with_the_second() {
    let mut cache = BindingCache::new();
    cache.process_snapshot("10.0.0.7 aa:aa eth0");
    cache.process_snapshot("10.0.0.7 bb:bb eth0");
    let outcome = cache.process_snapshot("10.0.0.7 cc:cc eth0");
    assert_eq!(outcome.conflicts, vec![conflict("10.0.0.7", "bb:bb", "cc:cc")]);
}

#[test]
fn malformed_lines_are_skipped() {
    let snapshot = "\nInterface: 10.0.0.2 --- 0x4\n  Internet Address      Physical Address      Type\nlonely\n10.0.0.5 aa:aa eth0\n\n   \n10.0.0.6 bb:bb eth0 extra\n10.0.0.7\tcc:cc\tdynamic\n";
    let bindings = parse_snapshot(snapshot);
    assert_eq!(bindings, vec![binding("10.0.0.5", "aa:aa"), binding("10.0.0.7", "cc:cc")]);

    let mut cache = BindingCache::new();
    let outcome = cache.process_snapshot(snapshot);
    assert!(!outcome.is_spoofed);
    assert_eq!(cache.len(), 2);
    assert_eq!(cache.get(ip("10.0.0.5")), Some("aa:aa".to_string()));
    assert_eq!(cache.get(ip("10.0.0.6")), None);
    assert_eq!(cache.get(ip("10.0.0.7")), Some("cc:cc".to_string()));
}

#[test]
fn line_with_bad_address_is_skipped_and_the_cycle_goes_on() {
    let snapshot = "10.0.0.256 aa:aa eth0\nnot-an-ip bb:bb eth0\n010.0.0.1 cc:cc eth0\n10.0.0.8 dd:dd eth0\n";
    let mut cache = BindingCache::new();
    let outcome = cache.process_snapshot(snapshot);
    assert!(!outcome.is_spoofed);
    assert_eq!(cache.len(), 1);
    assert_eq!(cache.get(ip("10.0.0.8")), Some("dd:dd".to_string()));
}

#[test]
fn empty_snapshot_changes_nothing() {
    let mut cache = BindingCache::new();
    cache.process_snapshot("10.0.0.5 aa:aa eth0");
    let outcome = cache.process_snapshot("");
    assert!(!outcome.is_spoofed);
    assert!(outcome.conflicts.is_empty());
    assert_eq!(cache.len(), 1);
    assert_eq!(cache.get(ip("10.0.0.5")), Some("aa:aa".to_string()));
}

#[test]
fn cache_never_forgets_an_address() {
    let mut cache = BindingCache::new();
    cache.process_snapshot("10.0.0.5 aa:aa eth0");
    cache.process_snapshot("10.0.0.6 bb:bb eth0");
    cache.process_snapshot("");
    let outcome = cache.process_snapshot("10.0.0.5 cc:cc eth0");
    assert_eq!(outcome.conflicts, vec![conflict("10.0.0.5", "aa:aa", "cc:cc")]);
    assert_eq!(cache.len(), 2);
}

#[test]
fn carriage_returns_and_mixed_whitespace_separate_fields() {
    let bindings = parse_snapshot("10.0.0.5 \t aa:aa\u{a0}eth0\r\n  10.0.0.6\u{3000}bb:bb eth1\r\n");
    assert_eq!(bindings, vec![binding("10.0.0.5", "aa:aa"), binding("10.0.0.6", "bb:bb")]);
}

#[test]
fn parse_binding_reads_exactly_three_fields() {
    let three: Vec<char> = "10.0.0.5 aa:aa eth0".chars().collect();
    let two: Vec<char> = "10.0.0.5 aa:aa".chars().collect();
    let four: Vec<char> = "10.0.0.5 aa:aa eth0 x".chars().collect();
    let blank: Vec<char> = "".chars().collect();
    assert_eq!(parse_binding(&three), Some(binding("10.0.0.5", "aa:aa")));
    assert_eq!(parse_binding(&two), None);
    assert_eq!(parse_binding(&four), None);
    assert_eq!(parse_binding(&blank), None);
}

#[test]
fn observe_reports_and_overwrites() {
    let mut cache = BindingCache::new();
    assert_eq!(cache.observe(binding("10.0.0.5", "aa:aa")), None);
    assert_eq!(cache.observe(binding("10.0.0.5", "aa:aa")), None);
    assert_eq!(
        cache.observe(binding("10.0.0.5", "bb:bb")),
        Some(conflict("10.0.0.5", "aa:aa", "bb:bb"))
    );
    assert_eq!(cache.get(ip("10.0.0.5")), Some("bb:bb".to_string()));
}

#[test]
fn process_bindings_matches_process_snapshot() {
    let snapshot = "10.0.0.5 aa:aa eth0\n10.0.0.5 bb:bb eth0\n10.0.0.6 cc:cc eth0\n";
    let mut by_text = BindingCache::new();
    let mut by_bindings = BindingCache::new();
    let left = by_text.process_snapshot(snapshot);
    let right = by_bindings.process_bindings(&parse_snapshot(snapshot));
    assert_eq!(left, right);
    assert_eq!(left.conflicts.len(), 1);
    assert_eq!(by_text.get(ip("10.0.0.5")), by_bindings.get(ip("10.0.0.5")));
    assert_eq!(by_text.len(), by_bindings.len());
}

#[test]
fn two_cycles_give_what_one_snapshot_of_both_gives() {
    let first = "10.0.0.1 aa:aa eth0\n10.0.0.2 bb:bb eth0\n";
    let second = "10.0.0.2 cc:cc eth0\n10.0.0.1 aa:aa eth0\n10.0.0.3 dd:dd eth0\n";

    let mut by_cycles = BindingCache::new();
    by_cycles.process_snapshot("10.0.0.1 00:00 eth0");
    let mut conflicts = by_cycles.process_snapshot(first).conflicts;
    conflicts.extend(by_cycles.process_snapshot(second).conflicts);

    let mut at_once = BindingCache::new();
    at_once.process_snapshot("10.0.0.1 00:00 eth0");
    let outcome = at_once.process_snapshot(&format!("{}{}", first, second));

    assert_eq!(outcome.conflicts, conflicts);
    assert_eq!(
        conflicts,
        vec![conflict("10.0.0.1", "00:00", "aa:aa"), conflict("10.0.0.2", "bb:bb", "cc:cc")]
    );
    for address in ["10.0.0.1", "10.0.0.2", "10.0.0.3"] {
        assert_eq!(by_cycles.get(ip(address)), at_once.get(ip(address)));
    }
    assert_eq!(by_cycles.len(), 3);
}
