use firewall::registry::FirewallServer;
use firewall::store::{BlocklistData, LoadOutcome, PersistenceError, StoredBlocklist, Timestamp};

fn stamp(year: i32, month: u32, day: u32, hour: u32, minute: u32, second: u32) -> Timestamp {
    Timestamp { year, month, day, hour, minute, second }
}

fn record(entries: &[&str]) -> BlocklistData {
    BlocklistData {
        blocked_macs: entries.iter().map(|e| e.to_string()).collect(),
        last_updated: "2024-01-01 00:00:00".to_string(),
        total_blocked: entries.len(),
    }
}

#[test]
fn timestamp_is_written_field_by_field() {
    assert_eq!(stamp(2024, 1, 5, 3, 4, 9).to_text(), "2024-01-05 03:04:09");
    assert_eq!(stamp(1999, 12, 31, 23, 59, 59).to_text(), "1999-12-31 23:59:59");
    assert_eq!(stamp(2026, 10, 28, 0, 0, 0).to_text(), "2026-10-28 00:00:00");
}

#[test]
fn timestamp_of_unusual_years() {
    assert_eq!(stamp(0, 1, 1, 0, 0, 0).to_text(), "0000-01-01 00:00:00");
    assert_eq!(stamp(987, 6, 5, 4, 3, 2).to_text(), "0987-06-05 04:03:02");
    assert_eq!(stamp(9999, 1, 1, 0, 0, 0).to_text(), "9999-01-01 00:00:00");
    assert_eq!(stamp(10000, 1, 1, 0, 0, 0).to_text(), "+10000-01-01 00:00:00");
    assert_eq!(stamp(-1, 1, 1, 0, 0, 0).to_text(), "-0001-01-01 00:00:00");
    assert_eq!(stamp(-12345, 1, 1, 0, 0, 0).to_text(), "-12345-01-01 00:00:00");
    assert_eq!(stamp(i32::MIN, 1, 1, 0, 0, 0).to_text(), "-2147483648-01-01 00:00:00");
    assert_eq!(stamp(i32::MAX, 1, 1, 0, 0, 0).to_text(), "+2147483647-01-01 00:00:00");
}

#[test]
fn timestamp_is_written_as_chrono_writes_it() {
    let samples = [
        (2024, 2, 29, 13, 7, 0),
        (1970, 1, 1, 0, 0, 0),
        (2038, 1, 19, 3, 14, 7),
        (123, 4, 5, 6, 7, 8),
        (0, 12, 31, 23, 59, 59),
        (12345, 6, 7, 8, 9, 10),
        (-44, 3, 15, 12, 0, 0),
        (-262143, 1, 1, 0, 0, 0),
        (262142, 12, 31, 23, 59, 59),
    ];
    for (year, month, day, hour, minute, second) in samples {
        let expected = chrono::NaiveDate::from_ymd_opt(year, month, day)
            .unwrap()
            .and_hms_opt(hour, minute, second)
            .unwrap()
            .format("%Y-%m-%d %H:%M:%S")
            .to_string();
        assert_eq!(stamp(year, month, day, hour, minute, second).to_text(), expected);
    }
}

#[test]
fn record_holds_addresses_time_and_count() {
    let mut server = FirewallServer::new();
    server.block_mac("AA:BB:CC:DD:EE:FF").unwrap();
    server.block_mac("11:22:33:44:55:66").unwrap();
    let data = server.record_at(stamp(2024, 3, 9, 8, 7, 6));
    assert_eq!(
        data,
        BlocklistData {
            blocked_macs: vec!["aa:bb:cc:dd:ee:ff".to_string(), "11:22:33:44:55:66".to_string()],
            last_updated: "2024-03-09 08:07:06".to_string(),
            total_blocked: 2,
        }
    );
}

#[test]
fn record_of_an_empty_registry() {
    let data = FirewallServer::new().record_at(stamp(2024, 1, 1, 0, 0, 0));
    assert!(data.blocked_macs.is_empty());
    assert_eq!(data.total_blocked, 0);
    assert_eq!(data.last_updated, "2024-01-01 00:00:00");
}

#[test]
fn saved_record_carries_the_present_time() {
    let mut server = FirewallServer::new();
    server.block_mac("aa:bb:cc:dd:ee:ff").unwrap();
    let before = chrono::Local::now().format("%Y-%m-%d %H:%M:%S").to_string();
    let data = server.save_blocklist();
    let after = chrono::Local::now().format("%Y-%m-%d %H:%M:%S").to_string();
    assert_eq!(data.blocked_macs, vec!["aa:bb:cc:dd:ee:ff".to_string()]);
    assert_eq!(data.total_blocked, 1);
    assert_eq!(data.last_updated.len(), 19);
    let shape: Vec<bool> = data.last_updated.chars().map(|c| c.is_ascii_digit()).collect();
    let digits_at = |i: usize| shape[i];
    for i in [0, 1, 2, 3, 5, 6, 8, 9, 11, 12, 14, 15, 17, 18] {
        assert!(digits_at(i));
    }
    let punctuation: String = [4, 7, 10, 13, 16]
        .iter()
        .map(|i| data.last_updated.chars().nth(*i).unwrap())
        .collect();
    assert_eq!(punctuation, "-- ::");
    assert!(before <= data.last_updated && data.last_updated <= after);
}

#[test]
fn load_without_a_record_gives_an_empty_registry() {
    let mut server = FirewallServer::new();
    server.block_mac("aa:bb:cc:dd:ee:ff").unwrap();
    assert_eq!(server.load_blocklist(&StoredBlocklist::Missing), LoadOutcome::NoPriorState);
    assert_eq!(server.len(), 0);
}

#[test]
fn load_of_an_unparseable_record_gives_an_empty_registry() {
    let mut server = FirewallServer::new();
    server.block_mac("aa:bb:cc:dd:ee:ff").unwrap();
    assert_eq!(server.load_blocklist(&StoredBlocklist::Unparseable), LoadOutcome::Unparseable);
    assert_eq!(server.len(), 0);
}

#[test]
fn load_takes_the_addresses_of_the_record() {
    let mut server = FirewallServer::new();
    server.block_mac("99:99:99:99:99:99").unwrap();
    let stored = StoredBlocklist::Record(record(&["aa:bb:cc:dd:ee:ff", "11:22:33:44:55:66"]));
    assert_eq!(server.load_blocklist(&stored), LoadOutcome::Loaded { count: 2 });
    assert_eq!(
        server.get_blocklist(),
        vec!["aa:bb:cc:dd:ee:ff".to_string(), "11:22:33:44:55:66".to_string()]
    );
    assert_eq!(server.is_blocked("99:99:99:99:99:99"), Ok(false));
}

#[test]
fn load_normalizes_and_drops_repeats_and_malformed_entries() {
    let mut server = FirewallServer::new();
    let stored = StoredBlocklist::Record(record(&[
        "AA:BB:CC:DD:EE:FF",
        "not-a-mac",
        "aa:bb:cc:dd:ee:ff",
        "",
        "11:22:33:44:55:66",
        "Aa:Bb:Cc:Dd:Ee:Ff",
    ]));
    assert_eq!(server.load_blocklist(&stored), LoadOutcome::Loaded { count: 2 });
    assert_eq!(
        server.get_blocklist(),
        vec!["aa:bb:cc:dd:ee:ff".to_string(), "11:22:33:44:55:66".to_string()]
    );
}

#[test]
fn load_does_not_look_at_time_and_count() {
    let mut server = FirewallServer::new();
    let stored = StoredBlocklist::Record(BlocklistData {
        blocked_macs: vec!["aa:bb:cc:dd:ee:ff".to_string()],
        last_updated: "never".to_string(),
        total_blocked: 40,
    });
    assert_eq!(server.load_blocklist(&stored), LoadOutcome::Loaded { count: 1 });
    assert_eq!(server.len(), 1);
}

#[test]
fn save_then_load_gives_the_same_registry() {
    let mut server = FirewallServer::new();
    for mac in ["AA:BB:CC:DD:EE:FF", "00:11:22:33:44:55", "de:ad:be:ef:00:01"] {
        server.block_mac(mac).unwrap();
    }
    server.unblock_mac("00:11:22:33:44:55").unwrap();
    let saved = server.save_blocklist();
    let mut restored = FirewallServer::new();
    assert_eq!(
        restored.load_blocklist(&StoredBlocklist::Record(saved)),
        LoadOutcome::Loaded { count: 2 }
    );
    assert_eq!(restored.get_blocklist(), server.get_blocklist());
}

#[test]
fn save_then_load_through_json_gives_the_same_registry() {
    let mut server = FirewallServer::new();
    for mac in ["AA:BB:CC:DD:EE:FF", "00:11:22:33:44:55"] {
        server.block_mac(mac).unwrap();
    }
    let saved = server.record_at(stamp(2024, 5, 6, 7, 8, 9));
    let mut object = serde_json::Map::new();
    object.insert(
        "blocked_macs".to_string(),
        serde_json::Value::Array(
            saved.blocked_macs.iter().map(|m| serde_json::Value::String(m.clone())).collect(),
        ),
    );
    object.insert(
        "last_updated".to_string(),
        serde_json::Value::String(saved.last_updated.clone()),
    );
    object.insert(
        "total_blocked".to_string(),
        serde_json::Value::Number(serde_json::Number::from(saved.total_blocked as u64)),
    );
    let written = serde_json::to_string_pretty(&serde_json::Value::Object(object)).unwrap();
    let read: serde_json::Value = serde_json::from_str(&written).unwrap();
    let entries: Vec<String> = read["blocked_macs"]
        .as_array()
        .unwrap()
        .iter()
        .map(|v| v.as_str().unwrap().to_string())
        .collect();
    let stored = StoredBlocklist::Record(BlocklistData {
        blocked_macs: entries,
        last_updated: read["last_updated"].as_str().unwrap().to_string(),
        total_blocked: read["total_blocked"].as_u64().unwrap() as usize,
    });
    assert_eq!(stored, StoredBlocklist::Record(saved));
    let mut restored = FirewallServer::new();
    assert_eq!(restored.load_blocklist(&stored), LoadOutcome::Loaded { count: 2 });
    assert_eq!(restored.get_blocklist(), server.get_blocklist());
}

#[test]
fn persistence_failures_are_described() {
    assert_eq!(
        PersistenceError::Directory("permission denied".to_string()).describe(),
        "Failed to create logs directory: permission denied"
    );
    assert_eq!(
        PersistenceError::Serialize("key must be a string".to_string()).describe(),
        "Failed to serialize data: key must be a string"
    );
    assert_eq!(
        PersistenceError::Write("disk full".to_string()).describe(),
        "Failed to write blocklist: disk full"
    );
}
