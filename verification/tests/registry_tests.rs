use firewall::registry::{BlockOutcome, FirewallServer, RegistryError};
use std::sync::{Arc, Mutex};

#[test]
fn new_registry_is_empty() {
    let server = FirewallServer::new();
    assert_eq!(server.len(), 0);
    assert!(server.get_blocklist().is_empty());
    assert_eq!(server.is_blocked("aa:bb:cc:dd:ee:ff"), Ok(false));
}

#[test]
fn block_then_is_blocked() {
    let mut server = FirewallServer::new();
    assert_eq!(server.block_mac("aa:bb:cc:dd:ee:ff"), Ok(BlockOutcome::Added { total: 1 }));
    assert_eq!(server.is_blocked("aa:bb:cc:dd:ee:ff"), Ok(true));
    assert_eq!(server.len(), 1);
}

#[test]
fn unblock_then_is_not_blocked() {
    let mut server = FirewallServer::new();
    server.block_mac("aa:bb:cc:dd:ee:ff").unwrap();
    assert_eq!(server.unblock_mac("aa:bb:cc:dd:ee:ff"), Ok(()));
    assert_eq!(server.is_blocked("aa:bb:cc:dd:ee:ff"), Ok(false));
    assert_eq!(server.len(), 0);
}

#[test]
fn mixed_case_is_stored_in_lower_case() {
    let mut server = FirewallServer::new();
    assert_eq!(server.block_mac("AA:BB:CC:DD:EE:FF"), Ok(BlockOutcome::Added { total: 1 }));
    assert_eq!(server.get_blocklist(), vec!["aa:bb:cc:dd:ee:ff".to_string()]);
    assert_eq!(server.is_blocked("aa:bb:cc:dd:ee:ff"), Ok(true));
    assert_eq!(server.is_blocked("Aa:bB:cc:DD:ee:FF"), Ok(true));
    assert_eq!(server.unblock_mac("aa:BB:cc:DD:ee:FF"), Ok(()));
    assert_eq!(server.len(), 0);
}

#[test]
fn block_is_idempotent() {
    let mut server = FirewallServer::new();
    server.block_mac("aa:bb:cc:dd:ee:ff").unwrap();
    server.block_mac("11:22:33:44:55:66").unwrap();
    assert_eq!(
        server.block_mac("aa:bb:cc:dd:ee:ff"),
        Ok(BlockOutcome::AlreadyBlocked { total: 2 })
    );
    assert_eq!(
        server.block_mac("AA:BB:CC:DD:EE:FF"),
        Ok(BlockOutcome::AlreadyBlocked { total: 2 })
    );
    assert_eq!(server.len(), 2);
    assert_eq!(
        server.get_blocklist(),
        vec!["aa:bb:cc:dd:ee:ff".to_string(), "11:22:33:44:55:66".to_string()]
    );
}

#[test]
fn unblock_of_absent_address_fails() {
    let mut server = FirewallServer::new();
    server.block_mac("11:22:33:44:55:66").unwrap();
    assert_eq!(server.unblock_mac("aa:bb:cc:dd:ee:ff"), Err(RegistryError::NotBlocked));
    assert_eq!(server.get_blocklist(), vec!["11:22:33:44:55:66".to_string()]);
    assert_eq!(server.len(), 1);
}

#[test]
fn unblock_twice_fails_the_second_time() {
    let mut server = FirewallServer::new();
    server.block_mac("aa:bb:cc:dd:ee:ff").unwrap();
    assert_eq!(server.unblock_mac("aa:bb:cc:dd:ee:ff"), Ok(()));
    assert_eq!(server.unblock_mac("aa:bb:cc:dd:ee:ff"), Err(RegistryError::NotBlocked));
}

#[test]
fn malformed_text_is_refused_everywhere() {
    let mut server = FirewallServer::new();
    server.block_mac("aa:bb:cc:dd:ee:ff").unwrap();
    assert_eq!(server.block_mac("not-a-mac"), Err(RegistryError::InvalidFormat));
    assert_eq!(server.unblock_mac("aa:bb:cc:dd:ee"), Err(RegistryError::InvalidFormat));
    assert_eq!(server.is_blocked("aabbccddeeff"), Err(RegistryError::InvalidFormat));
    assert_eq!(server.block_mac(""), Err(RegistryError::InvalidFormat));
    assert_eq!(server.get_blocklist(), vec!["aa:bb:cc:dd:ee:ff".to_string()]);
}

#[test]
fn list_keeps_the_order_of_blocking() {
    let mut server = FirewallServer::new();
    server.block_mac("cc:cc:cc:cc:cc:cc").unwrap();
    server.block_mac("aa:aa:aa:aa:aa:aa").unwrap();
    server.block_mac("bb:bb:bb:bb:bb:bb").unwrap();
    assert_eq!(
        server.get_blocklist(),
        vec![
            "cc:cc:cc:cc:cc:cc".to_string(),
            "aa:aa:aa:aa:aa:aa".to_string(),
            "bb:bb:bb:bb:bb:bb".to_string()
        ]
    );
    server.unblock_mac("aa:aa:aa:aa:aa:aa").unwrap();
    assert_eq!(
        server.get_blocklist(),
        vec!["cc:cc:cc:cc:cc:cc".to_string(), "bb:bb:bb:bb:bb:bb".to_string()]
    );
    assert_eq!(server.block_mac("aa:aa:aa:aa:aa:aa"), Ok(BlockOutcome::Added { total: 3 }));
    assert_eq!(
        server.get_blocklist(),
        vec![
            "cc:cc:cc:cc:cc:cc".to_string(),
            "bb:bb:bb:bb:bb:bb".to_string(),
            "aa:aa:aa:aa:aa:aa".to_string()
        ]
    );
}

#[test]
fn many_distinct_addresses_are_all_kept() {
    let mut server = FirewallServer::new();
    for i in 0..200u32 {
        let mac = format!("00:00:00:00:{:02x}:{:02X}", i / 16, i % 16);
        assert_eq!(server.block_mac(&mac), Ok(BlockOutcome::Added { total: i as usize + 1 }));
    }
    assert_eq!(server.len(), 200);
    for i in 0..200u32 {
        let mac = format!("00:00:00:00:{:02X}:{:02x}", i / 16, i % 16);
        assert_eq!(server.is_blocked(&mac), Ok(true));
    }
}

#[test]
fn sessions_sharing_one_registry_lose_no_update() {
    let server = Arc::new(Mutex::new(FirewallServer::new()));
    let sessions: Vec<Arc<Mutex<FirewallServer>>> = (0..32).map(|_| Arc::clone(&server)).collect();
    // the sessions take their turns in a scrambled order
    for turn in 0..32u32 {
        let i = (turn * 13 + 5) % 32;
        let line = format!("02:00:00:00:00:{:02x}", i);
        let response = sessions[i as usize].lock().unwrap().handle_line(&line).unwrap();
        assert_eq!(response.render(), format!("Blocked MAC: {}\n", line));
    }
    let server = server.lock().unwrap();
    assert_eq!(server.len(), 32);
    let mut listed = server.get_blocklist();
    listed.sort();
    let expected: Vec<String> = (0..32u32).map(|i| format!("02:00:00:00:00:{:02x}", i)).collect();
    assert_eq!(listed, expected);
    let mut stored = server.save_blocklist().blocked_macs;
    stored.sort();
    assert_eq!(stored, expected);
}
