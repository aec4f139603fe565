use mailclient::cache::{parse_date_to_timestamp, CachedAttachment, EmailCache, sanitize_account_id};
use mailclient::imap::EmailHeader;

fn header(uid: u32, subject: &str) -> EmailHeader {
    EmailHeader {
        uid,
        subject: subject.to_string(),
        from: "a@example.com".to_string(),
        to: "b@example.com".to_string(),
        date: "Mon, 2 Jan 2006 15:04:05 +0000".to_string(),
        is_read: false,
        is_flagged: false,
        is_answered: false,
        is_draft: false,
        flags: Vec::new(),
        has_attachments: false,
    }
}

#[test]
fn watermark_clamps_to_max() {
    let mut cache = EmailCache::new();
    cache.set_sync_state("INBOX", 10, 1000);
    cache.set_sync_state("INBOX", 7, 2000);
    let state = cache.get_sync_state("INBOX").unwrap();
    assert_eq!(state.highest_uid, 10);
    assert_eq!(state.last_sync, 2000);
    cache.set_sync_state("INBOX", 42, 3000);
    assert_eq!(cache.get_sync_state("INBOX").unwrap().highest_uid, 42);
    assert!(cache.get_sync_state("Archive").is_none());
}

#[test]
fn cleanup_zero_days_is_noop() {
    let mut cache = EmailCache::new();
    cache.store_header("INBOX", &header(1, "old"), 100, 100);
    let removed = cache.cleanup_old_emails(0, 1_000_000_000);
    assert_eq!(removed, 0);
    assert!(cache.has_email("INBOX", 1));
}

#[test]
fn cleanup_removes_exactly_stale_rows() {
    let mut cache = EmailCache::new();
    let now: i64 = 10 * 86400;
    // cached nine days ago: inside a 5-day retention window? no - stale
    cache.store_header("INBOX", &header(1, "stale"), 0, 86400);
    // cached one day before now: fresh
    cache.store_header("INBOX", &header(2, "fresh"), 0, now - 86400);
    let removed = cache.cleanup_old_emails(5, now);
    assert_eq!(removed, 1);
    assert!(!cache.has_email("INBOX", 1));
    assert!(cache.has_email("INBOX", 2));
}

#[test]
fn user_override_is_sticky() {
    let mut cache = EmailCache::new();
    cache.store_header("INBOX", &header(5, "m"), 0, 0);
    cache
        .set_email_category("INBOX", 5, "newsletter", 90, false, 100)
        .unwrap();
    assert_eq!(cache.get_email_category("INBOX", 5).unwrap(), "newsletter");
    // the user picks a category by hand
    cache
        .set_email_category("INBOX", 5, "work", 100, true, 200)
        .unwrap();
    assert_eq!(cache.get_email_category("INBOX", 5).unwrap(), "work");
    // a later automatic categorization must not overwrite it
    cache
        .set_email_category("INBOX", 5, "promotions", 80, false, 300)
        .unwrap();
    assert_eq!(cache.get_email_category("INBOX", 5).unwrap(), "work");
    // but another user override may
    cache
        .set_email_category("INBOX", 5, "travel", 100, true, 400)
        .unwrap();
    assert_eq!(cache.get_email_category("INBOX", 5).unwrap(), "travel");
}

#[test]
fn assigning_category_to_missing_message_fails() {
    let mut cache = EmailCache::new();
    assert!(cache
        .set_email_category("INBOX", 99, "work", 50, false, 0)
        .is_err());
}

#[test]
fn delete_cascades_to_attachments_and_category() {
    let mut cache = EmailCache::new();
    cache.store_header("INBOX", &header(7, "with attachment"), 0, 0);
    cache.attachments.push(CachedAttachment {
        folder: "INBOX".to_string(),
        email_uid: 7,
        filename: "a.pdf".to_string(),
        mime_type: "application/pdf".to_string(),
        size: 3,
        data: None,
    });
    cache
        .set_email_category("INBOX", 7, "finance", 70, false, 0)
        .unwrap();
    cache.delete_email("INBOX", 7);
    assert!(!cache.has_email("INBOX", 7));
    assert!(cache.attachments.is_empty());
    assert!(cache.get_email_category("INBOX", 7).is_none());
}

#[test]
fn body_store_and_read_flag() {
    let mut cache = EmailCache::new();
    cache.store_header("INBOX", &header(3, "s"), 0, 0);
    assert!(!cache.has_email_body("INBOX", 3));
    cache.store_email_body("INBOX", 3, "plain text", "<p>html</p>");
    assert!(cache.has_email_body("INBOX", 3));
    cache.update_read_status("INBOX", 3, true);
    assert!(cache.has_email("INBOX", 3));
}

#[test]
fn default_categories_are_seeded() {
    let cache = EmailCache::new();
    assert_eq!(cache.categories.len(), 8);
    assert_eq!(cache.categories[0].id, "work");
    assert_eq!(cache.categories[1].name, "Pers\u{f6}nlich");
    assert!(cache.categories.iter().all(|c| c.is_system));
}

#[test]
fn date_parsing_for_ordering() {
    // the RFC 2822 form parses exactly
    assert_eq!(
        parse_date_to_timestamp("Mon, 2 Jan 2006 15:04:05 +0000", 7),
        1136214245
    );
    // garbage falls back to the clock reading
    assert_eq!(parse_date_to_timestamp("not a date", 7), 7);
}

#[test]
fn account_id_sanitizing() {
    assert_eq!(sanitize_account_id("user@example.com"), "user_at_example.com");
    assert_eq!(sanitize_account_id("a/b\\c:d"), "a_b_c_d");
}

#[test]
fn attachment_blob_store_and_read() {
    let mut cache = EmailCache::new();
    cache.store_header("INBOX", &header(7, "s"), 0, 0);
    cache.attachments.push(CachedAttachment {
        folder: "INBOX".to_string(),
        email_uid: 7,
        filename: "a.bin".to_string(),
        mime_type: "application/octet-stream".to_string(),
        size: 3,
        data: None,
    });
    assert_eq!(cache.get_attachment_data("INBOX", 7, "a.bin"), None);
    cache.store_attachment_data("INBOX", 7, "a.bin", &[1, 2, 3]);
    assert_eq!(cache.get_attachment_data("INBOX", 7, "a.bin"), Some(vec![1, 2, 3]));
    assert_eq!(cache.get_attachment_data("INBOX", 7, "other.bin"), None);
    assert_eq!(cache.get_attachment_data("Archive", 7, "a.bin"), None);
}

#[test]
fn header_batch_last_write_wins() {
    let mut cache = EmailCache::new();
    let hs = vec![header(1, "first"), header(1, "second")];
    cache.store_headers("INBOX", &hs, &vec![10, 20], 5);
    let read = cache.get_email("INBOX", 1).unwrap();
    assert_eq!(read.subject, "second");
    assert_eq!(cache.emails.len(), 1);
}
