use mailclient::caldav::{
    escape_icalendar, iso_to_caldav_date, iso_to_icalendar_dt, parse_icalendar_dt_to_iso,
    unescape_icalendar,
};
use mailclient::cloud::{merge_sync_data, AuthState, SyncData};
use mailclient::imap::fetch_range;
use mailclient::jmap::{
    is_jmap_account_key, jmap_account_key, primary_account_id, resolve_api_url, select_identity,
    session_base_url,
};
use mailclient::sieve::{
    parse_sieve_script, rules_to_sieve_script, SieveAction, SieveCondition, SieveRule,
};
use mailclient::smtp::{sent_folder_candidates, SmtpClient};
use mailclient::storage::{delete_account, upsert_account, SavedAccount};

#[test]
fn header_pagination_of_full_page() {
    // a mailbox with 237 messages: the first page holds the newest 50
    assert_eq!(fetch_range(237, 0, 50), Some((188, 237)));
    // the last page holds the 7 oldest
    assert_eq!(fetch_range(237, 230, 50), Some((1, 7)));
    // past the end: nothing
    assert_eq!(fetch_range(237, 237, 50), None);
    assert_eq!(fetch_range(0, 0, 50), None);
}

#[test]
fn sieve_rule_round_trip() {
    let rule = SieveRule {
        id: "rule_0".to_string(),
        name: "VIP".to_string(),
        enabled: true,
        conditions: vec![SieveCondition {
            field: "from".to_string(),
            operator: "contains".to_string(),
            value: "boss@ex.com".to_string(),
            header_name: None,
        }],
        actions: vec![SieveAction {
            action_type: "fileinto".to_string(),
            value: Some("VIP".to_string()),
        }],
    };
    let script = rules_to_sieve_script(&vec![rule]);
    assert!(script.contains("require ["));
    assert!(script.contains("# Rule: VIP"));
    assert!(script.contains("if header :contains \"from\" \"boss@ex.com\" {"));
    assert!(script.contains("    fileinto \"VIP\";"));
    let parsed = parse_sieve_script(&script);
    assert_eq!(parsed.len(), 1);
    assert_eq!(parsed[0].name, "VIP");
    assert!(parsed[0].enabled);
    assert_eq!(parsed[0].conditions.len(), 1);
    assert_eq!(parsed[0].conditions[0].field, "from");
    assert_eq!(parsed[0].conditions[0].operator, "contains");
    assert_eq!(parsed[0].conditions[0].value, "boss@ex.com");
    assert_eq!(parsed[0].actions.len(), 1);
    assert_eq!(parsed[0].actions[0].action_type, "fileinto");
    assert_eq!(parsed[0].actions[0].value.as_deref(), Some("VIP"));
}

#[test]
fn sieve_disabled_rule_round_trip() {
    let rule = SieveRule {
        id: "rule_0".to_string(),
        name: "Mute".to_string(),
        enabled: false,
        conditions: vec![SieveCondition {
            field: "subject".to_string(),
            operator: "is".to_string(),
            value: "spam".to_string(),
            header_name: None,
        }],
        actions: vec![SieveAction {
            action_type: "discard".to_string(),
            value: None,
        }],
    };
    let script = rules_to_sieve_script(&vec![rule]);
    assert!(script.contains("# DISABLED: # Rule: Mute"));
    let parsed = parse_sieve_script(&script);
    assert_eq!(parsed.len(), 1);
    assert!(!parsed[0].enabled);
    assert_eq!(parsed[0].actions[0].action_type, "discard");
}

#[test]
fn jmap_discovery_resolution() {
    // the configured URL loses its well-known suffix
    assert_eq!(
        session_base_url("https://example.com/.well-known/jmap"),
        "https://example.com"
    );
    // a relative apiUrl resolves against the final host after redirects
    let api = resolve_api_url("/jmap", "https://jmap.example.com", "https://jmap.example.com/.well-known/jmap");
    assert_eq!(api, "https://jmap.example.com/jmap");
    // an absolute apiUrl stands
    assert_eq!(
        resolve_api_url("https://api.example.com/jmap", "https://x", "https://y"),
        "https://api.example.com/jmap"
    );
}

#[test]
fn jmap_trusted_hosts_accumulate() {
    let mut hosts: Vec<String> = Vec::new();
    mailclient::jmap::add_trusted_host(&mut hosts, "example.com");
    mailclient::jmap::add_trusted_host(&mut hosts, "jmap.example.com");
    mailclient::jmap::add_trusted_host(&mut hosts, "example.com");
    assert_eq!(hosts, vec!["example.com".to_string(), "jmap.example.com".to_string()]);
}

#[test]
fn jmap_primary_account_and_identity() {
    assert_eq!(
        primary_account_id(Some("u1".to_string()), Some("first".to_string())),
        Some("u1".to_string())
    );
    assert_eq!(
        primary_account_id(None, Some("first".to_string())),
        Some("first".to_string())
    );
    let ids = vec![
        ("id1".to_string(), "other@x".to_string()),
        ("id2".to_string(), "me@x".to_string()),
    ];
    assert_eq!(select_identity(&ids, "me@x"), Some("id2".to_string()));
    assert_eq!(select_identity(&ids, "nobody@x"), Some("id1".to_string()));
    assert_eq!(select_identity(&Vec::new(), "me@x"), None);
}

#[test]
fn jmap_account_keys() {
    assert_eq!(jmap_account_key("me@x"), "jmap_me@x");
    assert!(is_jmap_account_key("jmap_me@x"));
    assert!(!is_jmap_account_key("me@x"));
}

#[test]
fn smtp_tls_mode_by_port() {
    let implicit = SmtpClient::new(
        "smtp.example.com".to_string(),
        465,
        "me".to_string(),
        "pw".to_string(),
        "Me".to_string(),
    );
    assert!(implicit.uses_implicit_tls());
    let starttls = SmtpClient::new(
        "smtp.example.com".to_string(),
        587,
        "me".to_string(),
        "pw".to_string(),
        "Me".to_string(),
    );
    assert!(!starttls.uses_implicit_tls());
    assert_eq!(starttls.from_address(), "Me <me>");
    assert_eq!(sent_folder_candidates()[0], "Sent");
}

#[test]
fn icalendar_dates_convert_both_ways() {
    assert_eq!(iso_to_caldav_date("2026-01-27").unwrap(), "20260127T000000Z");
    assert_eq!(
        iso_to_caldav_date("2026-01-27T09:00:00Z").unwrap(),
        "20260127T090000Z"
    );
    assert!(iso_to_caldav_date("junk").is_err());
    assert_eq!(iso_to_icalendar_dt("2026-01-27T09:00:00"), "20260127T090000");
    assert_eq!(
        parse_icalendar_dt_to_iso("20260127T090000Z"),
        "2026-01-27T09:00:00Z"
    );
    assert_eq!(parse_icalendar_dt_to_iso("20260127"), "2026-01-27");
}

#[test]
fn icalendar_escaping_round_trip() {
    let raw = "a,b;c\\d\ne";
    let escaped = escape_icalendar(raw);
    assert_eq!(escaped, "a\\,b\\;c\\\\d\\ne");
    assert_eq!(unescape_icalendar(&escaped), raw);
}

#[test]
fn auth_state_lifecycle() {
    let mut state = AuthState::new();
    assert!(!state.is_logged_in());
    assert!(!state.is_premium());
    state.set_auth_state(Some("tok".to_string()), None);
    assert!(state.is_logged_in());
    assert_eq!(state.get_token(), Some("tok".to_string()));
    state.clear_auth_state();
    assert!(!state.is_logged_in());
    assert!(state.get_current_user().is_none());
}

fn sync_data(
    accounts: Option<&str>,
    client_ts: Option<&str>,
    last_modified: Option<&str>,
) -> SyncData {
    SyncData {
        accounts: accounts.map(|s| s.to_string()),
        ai_config: None,
        categories: None,
        client_timestamp: client_ts.map(|s| s.to_string()),
        last_modified: last_modified.map(|s| s.to_string()),
    }
}

#[test]
fn merge_prefers_newer_and_records_conflict() {
    let local = sync_data(Some("local-accounts"), Some("t2"), None);
    let remote = sync_data(Some("remote-accounts"), None, Some("t1"));
    // local is newer
    let (merged, conflicts) = merge_sync_data(&local, &remote, Some(200), Some(100));
    assert_eq!(merged.accounts.as_deref(), Some("local-accounts"));
    assert_eq!(conflicts.len(), 1);
    assert_eq!(conflicts[0].data_type, "accounts");
    assert_eq!(conflicts[0].resolution, "local");
    // remote is newer: no conflict
    let (merged2, conflicts2) = merge_sync_data(&local, &remote, Some(100), Some(200));
    assert_eq!(merged2.accounts.as_deref(), Some("remote-accounts"));
    assert!(conflicts2.is_empty());
    // only one side present
    let (merged3, _) = merge_sync_data(&sync_data(None, None, None), &remote, None, None);
    assert_eq!(merged3.accounts.as_deref(), Some("remote-accounts"));
}

fn account(id: &str, name: &str) -> SavedAccount {
    SavedAccount {
        id: id.to_string(),
        display_name: name.to_string(),
        username: "u".to_string(),
        imap_host: "imap.x".to_string(),
        imap_port: 993,
        smtp_host: "smtp.x".to_string(),
        smtp_port: 587,
        password: None,
        cache_enabled: true,
        cache_days: 30,
        cache_body: true,
        cache_attachments: false,
        signatures: Vec::new(),
        vacation: None,
    }
}

#[test]
fn account_upsert_and_delete() {
    let mut accounts = Vec::new();
    upsert_account(&mut accounts, account("a1", "first"));
    upsert_account(&mut accounts, account("a2", "second"));
    assert_eq!(accounts.len(), 2);
    upsert_account(&mut accounts, account("a1", "renamed"));
    assert_eq!(accounts.len(), 2);
    assert_eq!(accounts[0].display_name, "renamed");
    delete_account(&mut accounts, "a1");
    assert_eq!(accounts.len(), 1);
    assert_eq!(accounts[0].id, "a2");
}
